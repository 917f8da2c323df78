use ultimate_fate::content::{FormulaCondition, FormulaId, MagicEffect, MaterialKind, ObjectId};
use ultimate_fate::geometry::{grid_distance, Direction, GridPos, MapId, TerrainCell, TerrainKind, WorldMap, WorldPosition};
use ultimate_fate::model::{
    ActionFailure, AmmunitionKind, BookSubject, CombatMethod, Combatant, Container, Entity, EntityId, EntityKind,
    GameCommand, Item, ItemId, ItemKind, Quest, QuestId, QuestObjective, QuestObjectiveKind, QuestStatus,
    SimulationEvent, Transition, TransitionKind,
};
use ultimate_fate::simulation::Simulation;

fn combat_simulation() -> Simulation {
    combat_simulation_at(GridPos::new(3, 0, 0))
}

fn combat_simulation_at(hostile_position: GridPos) -> Simulation {
    let map_id = MapId(9);
    let mut map = WorldMap::new(map_id);
    for y in -2..=8 {
        for x in -2..=8 {
            map.set_cell(GridPos::new(x, y, 0), TerrainCell::new(TerrainKind::Road));
        }
    }
    let player = EntityId(1);
    let hostile = EntityId(2);
    let mut simulation = Simulation::from_map(
        77,
        map,
        vec![
            Entity {
                id: player,
                kind: EntityKind::Player,
                position: WorldPosition { map: map_id, grid: GridPos::new(0, 0, 0) },
                facing: Direction::East,
            },
            Entity {
                id: hostile,
                kind: EntityKind::Creature,
                position: WorldPosition { map: map_id, grid: hostile_position },
                facing: Direction::West,
            },
        ],
        Vec::new(),
        player,
    )
    .expect("combat map");
    for combatant in [
        Combatant { entity: player, health: 12, max_health: 12, armor: 0, hostile_to_player: false, experience_reward: 0 },
        Combatant { entity: hostile, health: 8, max_health: 8, armor: 0, hostile_to_player: true, experience_reward: 35 },
    ] {
        simulation.add_combatant(combatant).expect("valid combatant");
    }
    for item in [
        Item {
            id: ItemId(1),
            name: "Test Sword".to_string(),
            kind: ItemKind::MeleeWeapon { damage: 4 },
            quantity: 1,
            weight_grams: 1_000,
            quality: 50,
        },
        Item {
            id: ItemId(2),
            name: "Test Bow".to_string(),
            kind: ItemKind::RangedWeapon { damage: 3, range: 6, ammunition: AmmunitionKind::Arrow },
            quantity: 1,
            weight_grams: 800,
            quality: 50,
        },
        Item {
            id: ItemId(3),
            name: "Test Arrows".to_string(),
            kind: ItemKind::Ammunition { kind: AmmunitionKind::Arrow },
            quantity: 5,
            weight_grams: 200,
            quality: 40,
        },
        Item {
            id: ItemId(4),
            name: "Dressing".to_string(),
            kind: ItemKind::Consumable { healing: 5 },
            quantity: 1,
            weight_grams: 100,
            quality: 40,
        },
    ] {
        simulation.give_item(player, item).expect("valid item");
    }
    simulation.apply_command(GameCommand::Equip(ItemId(1)));
    simulation.apply_command(GameCommand::Equip(ItemId(2)));
    simulation
}

#[test]
fn sparse_map_finds_cells_across_chunk_boundaries() {
    let mut map = WorldMap::new(MapId(7));
    let position = GridPos::new(-33, 64, -9);
    map.set_cell(position, TerrainCell::new(TerrainKind::StoneFloor));

    assert_eq!(map.cell(position).map(|cell| cell.terrain), Some(TerrainKind::StoneFloor));
    assert_eq!(map.chunk_count(), 1);
}

#[test]
fn campaign_seed_and_replay_are_deterministic() {
    let commands = [
        GameCommand::Move(Direction::East),
        GameCommand::Move(Direction::South),
        GameCommand::Wait,
        GameCommand::Move(Direction::North),
    ];
    let mut first = Simulation::demo(42);
    let mut second = Simulation::demo(42);

    for command in commands {
        first.apply_command(command);
        second.apply_command(command);
    }

    assert_eq!(first, second);
}

#[test]
fn pause_stops_time_and_commands() {
    let mut simulation = Simulation::demo(42);
    let initial_position = simulation.player().position;

    simulation.apply_command(GameCommand::Pause);
    simulation.apply_command(GameCommand::Move(Direction::East));
    simulation.apply_command(GameCommand::Wait);

    assert_eq!(simulation.tick(), 0);
    assert_eq!(simulation.player().position, initial_position);
}

#[test]
fn demo_town_has_semantic_places_people_and_obstacles() {
    let simulation = Simulation::demo(42);
    let map = simulation.map(MapId(1)).expect("demo map");

    assert!(simulation.landmarks().iter().any(|landmark| landmark.name == "Trading House"));
    assert!(simulation.entities().iter().any(|entity| entity.kind == EntityKind::Character));
    assert_eq!(
        map.cell(GridPos::new(-16, 3, 0)).map(|cell| (cell.terrain, cell.movement_blocked)),
        Some((TerrainKind::Wall, true))
    );
    assert_eq!(
        map.cell(GridPos::new(14, 0, 0)).map(|cell| (cell.terrain, cell.movement_blocked)),
        Some((TerrainKind::Bridge, false))
    );
}

#[test]
fn ranged_combat_consumes_ammunition_and_defeats_target_deterministically() {
    let mut first = combat_simulation();
    let mut second = combat_simulation();
    for simulation in [&mut first, &mut second] {
        for _ in 0..3 {
            simulation.apply_command(GameCommand::FireAt(EntityId(2)));
        }
    }

    assert_eq!(first, second);
    assert_eq!(first.combatant(EntityId(2)).map(|combatant| combatant.health), Some(0));
    assert_eq!(first.item(ItemId(3)).map(|item| item.quantity), Some(2));
    assert!(!first.entities().iter().any(|entity| entity.id == EntityId(2)));
    assert_eq!(first.progression().ranged_practice, 3);
}

#[test]
fn ranged_preview_and_execution_support_diagonal_targets() {
    let mut simulation = combat_simulation_at(GridPos::new(3, 3, 0));

    assert_eq!(simulation.check_ranged_attack(EntityId(1), EntityId(2)), Ok(()));
    let outcome = simulation.apply_command(GameCommand::FireAt(EntityId(2)));

    assert!(outcome.changed_world);
    assert!(outcome.events.iter().any(|event| matches!(
        event,
        SimulationEvent::Damaged { target: EntityId(2), method: CombatMethod::Ranged, .. }
    )));
}

#[test]
fn melee_retaliation_and_field_dressing_use_authoritative_health() {
    let mut simulation = combat_simulation_at(GridPos::new(1, 0, 0));
    let first_attack = simulation.apply_command(GameCommand::Attack(EntityId(2)));

    assert!(first_attack.events.iter().any(|event| matches!(
        event,
        SimulationEvent::Damaged { target: EntityId(1), method: CombatMethod::Retaliation, .. }
    )));
    assert_eq!(simulation.player_combatant().map(|combatant| combatant.health), Some(10));

    simulation.apply_command(GameCommand::UseItem(ItemId(4)));
    assert_eq!(simulation.player_combatant().map(|combatant| combatant.health), Some(12));
    assert_eq!(simulation.item(ItemId(4)).map(|item| item.quantity), Some(0));
    assert_eq!(simulation.progression().martial_practice, 1);
}

#[test]
fn hostile_turns_pursue_and_attack_a_waiting_player() {
    let mut simulation = combat_simulation_at(GridPos::new(4, 0, 0));

    simulation.apply_command(GameCommand::Wait);
    assert_eq!(simulation.entity(EntityId(2)).map(|entity| entity.position.grid), Some(GridPos::new(3, 0, 0)));
    simulation.apply_command(GameCommand::Wait);
    assert_eq!(simulation.entity(EntityId(2)).map(|entity| entity.position.grid), Some(GridPos::new(2, 0, 0)));
    simulation.apply_command(GameCommand::Wait);
    assert_eq!(simulation.entity(EntityId(2)).map(|entity| entity.position.grid), Some(GridPos::new(1, 0, 0)));
    let attack = simulation.apply_command(GameCommand::Wait);

    assert!(attack.events.iter().any(|event| matches!(
        event,
        SimulationEvent::Damaged {
            attacker: EntityId(2),
            target: EntityId(1),
            method: CombatMethod::Retaliation,
            ..
        }
    )));
    assert_eq!(simulation.player_combatant().map(|combatant| combatant.health), Some(10));
}

#[test]
fn defeat_revives_the_player_beside_the_nearest_healer() {
    let mut simulation = combat_simulation_at(GridPos::new(1, 0, 0));
    let healer = EntityId(3);
    let healer_position = WorldPosition { map: MapId(9), grid: GridPos::new(5, 5, 0) };
    simulation
        .add_entity(Entity { id: healer, kind: EntityKind::Character, position: healer_position, facing: Direction::South })
        .expect("healer entity");
    simulation.register_healer(healer).expect("registered healer");
    simulation
        .add_combatant(Combatant {
            entity: EntityId(1),
            health: 2,
            max_health: 12,
            armor: 0,
            hostile_to_player: false,
            experience_reward: 0,
        })
        .expect("wounded player");

    let outcome = simulation.apply_command(GameCommand::Wait);

    assert!(outcome
        .events
        .iter()
        .any(|event| matches!(event, SimulationEvent::Defeated { entity: EntityId(1), by: EntityId(2) })));
    assert!(outcome.events.iter().any(|event| matches!(
        event,
        SimulationEvent::RevivedAtHealer { entity: EntityId(1), healer: EntityId(3), health: 12, .. }
    )));
    assert_eq!(grid_distance(simulation.player().position.grid, healer_position.grid), 1);
    assert_eq!(simulation.player_combatant().map(|combatant| combatant.health), Some(12));
    assert!(!simulation.paused());
}

#[test]
fn transitions_change_real_depth_and_combat_stays_on_one_floor() {
    let map_id = MapId(12);
    let mut map = WorldMap::new(map_id);
    for z in [-1, 0] {
        for x in 0..=2 {
            map.set_cell(GridPos::new(x, 0, z), TerrainCell::new(TerrainKind::StoneFloor));
        }
    }
    let player = EntityId(1);
    let hostile = EntityId(2);
    let mut simulation = Simulation::from_map(
        91,
        map,
        vec![
            Entity {
                id: player,
                kind: EntityKind::Player,
                position: WorldPosition { map: map_id, grid: GridPos::new(0, 0, 0) },
                facing: Direction::East,
            },
            Entity {
                id: hostile,
                kind: EntityKind::Creature,
                position: WorldPosition { map: map_id, grid: GridPos::new(1, 0, -1) },
                facing: Direction::West,
            },
        ],
        Vec::new(),
        player,
    )
    .expect("two-level map");
    for combatant in [
        Combatant { entity: player, health: 12, max_health: 12, armor: 0, hostile_to_player: false, experience_reward: 0 },
        Combatant { entity: hostile, health: 3, max_health: 3, armor: 0, hostile_to_player: true, experience_reward: 10 },
    ] {
        simulation.add_combatant(combatant).expect("valid combatant");
    }
    for item in [
        Item {
            id: ItemId(1),
            name: "Test Bow".to_string(),
            kind: ItemKind::RangedWeapon { damage: 3, range: 6, ammunition: AmmunitionKind::Arrow },
            quantity: 1,
            weight_grams: 800,
            quality: 50,
        },
        Item {
            id: ItemId(2),
            name: "Test Arrow".to_string(),
            kind: ItemKind::Ammunition { kind: AmmunitionKind::Arrow },
            quantity: 1,
            weight_grams: 20,
            quality: 40,
        },
    ] {
        simulation.give_item(player, item).expect("valid item");
    }
    simulation.apply_command(GameCommand::Equip(ItemId(1)));
    simulation
        .add_transition(Transition {
            from: WorldPosition { map: map_id, grid: GridPos::new(0, 0, 0) },
            to: WorldPosition { map: map_id, grid: GridPos::new(0, 0, -1) },
            kind: TransitionKind::Descend,
            name: "Descend".to_string(),
        })
        .expect("valid transition");

    assert_eq!(simulation.check_ranged_attack(player, hostile), Err(ActionFailure::OutOfRange));
    let traversal = simulation.apply_command(GameCommand::Traverse);
    assert_eq!(simulation.player().position.grid.z, -1);
    assert!(traversal
        .events
        .iter()
        .any(|event| matches!(event, SimulationEvent::Traversed { kind: TransitionKind::Descend, .. })));
    assert_eq!(simulation.check_ranged_attack(player, hostile), Ok(()));
}

#[test]
fn boss_loot_advances_quest_and_turn_in_levels_the_player() {
    let map_id = MapId(13);
    let mut map = WorldMap::new(map_id);
    for x in 0..=3 {
        map.set_cell(GridPos::new(x, 0, 0), TerrainCell::new(TerrainKind::StoneFloor));
    }
    let player = EntityId(1);
    let boss = EntityId(2);
    let giver = EntityId(3);
    let relic = ItemId(3);
    let quest = QuestId(1);
    let mut simulation = Simulation::from_map(
        92,
        map,
        vec![
            Entity {
                id: player,
                kind: EntityKind::Player,
                position: WorldPosition { map: map_id, grid: GridPos::new(0, 0, 0) },
                facing: Direction::East,
            },
            Entity {
                id: boss,
                kind: EntityKind::Creature,
                position: WorldPosition { map: map_id, grid: GridPos::new(3, 0, 0) },
                facing: Direction::West,
            },
            Entity {
                id: giver,
                kind: EntityKind::Character,
                position: WorldPosition { map: map_id, grid: GridPos::new(1, 0, 0) },
                facing: Direction::West,
            },
        ],
        Vec::new(),
        player,
    )
    .expect("quest map");
    for combatant in [
        Combatant { entity: player, health: 12, max_health: 12, armor: 0, hostile_to_player: false, experience_reward: 0 },
        Combatant { entity: boss, health: 4, max_health: 4, armor: 0, hostile_to_player: true, experience_reward: 35 },
    ] {
        simulation.add_combatant(combatant).expect("valid combatant");
    }
    for item in [
        Item {
            id: ItemId(1),
            name: "Test Bow".to_string(),
            kind: ItemKind::RangedWeapon { damage: 4, range: 6, ammunition: AmmunitionKind::Arrow },
            quantity: 1,
            weight_grams: 800,
            quality: 50,
        },
        Item {
            id: ItemId(2),
            name: "Test Arrow".to_string(),
            kind: ItemKind::Ammunition { kind: AmmunitionKind::Arrow },
            quantity: 1,
            weight_grams: 20,
            quality: 40,
        },
    ] {
        simulation.give_item(player, item).expect("valid item");
    }
    simulation
        .give_item(
            boss,
            Item {
                id: relic,
                name: "Founders' Seal".to_string(),
                kind: ItemKind::Artifact,
                quantity: 1,
                weight_grams: 400,
                quality: 75,
            },
        )
        .expect("boss relic");
    simulation
        .add_quest(Quest {
            id: quest,
            title: "The Founders' Seal".to_string(),
            description: "Recover the historical seal.".to_string(),
            giver,
            status: QuestStatus::Active,
            objectives: vec![
                QuestObjective {
                    description: "Defeat the keeper".to_string(),
                    kind: QuestObjectiveKind::Defeat(boss),
                    completed: false,
                },
                QuestObjective {
                    description: "Recover the seal".to_string(),
                    kind: QuestObjectiveKind::Recover(relic),
                    completed: false,
                },
            ],
            reward_experience: 120,
        })
        .expect("valid quest");
    simulation.apply_command(GameCommand::Equip(ItemId(1)));

    let defeat = simulation.apply_command(GameCommand::FireAt(boss));
    assert_eq!(simulation.quest(quest).map(|quest| quest.status), Some(QuestStatus::ReadyToTurnIn));
    assert!(simulation.player_inventory().is_some_and(|inventory| inventory.items.contains(&relic.0)));
    assert!(defeat
        .events
        .iter()
        .any(|event| matches!(event, SimulationEvent::QuestReadyToTurnIn { quest: ready } if *ready == quest)));

    let completion = simulation.apply_command(GameCommand::TurnInQuest(quest));
    assert_eq!(simulation.quest(quest).map(|quest| quest.status), Some(QuestStatus::Completed));
    assert_eq!(simulation.progression().experience, 155);
    assert_eq!(simulation.progression().level, 2);
    assert_eq!(simulation.progression().attack_bonus, 1);
    assert!(completion.events.iter().any(|event| matches!(event, SimulationEvent::LevelGained { level: 2, .. })));
}

#[test]
fn simulation_can_travel_between_detailed_and_regional_maps() {
    let local_map = MapId(1);
    let regional_map = MapId(2);
    let position = GridPos::new(0, 0, 0);
    let mut local = WorldMap::new(local_map);
    local.set_cell(position, TerrainCell::new(TerrainKind::StairsDown));
    let player = EntityId(1);
    let mut simulation = Simulation::from_map(
        7,
        local,
        vec![Entity {
            id: player,
            kind: EntityKind::Player,
            position: WorldPosition { map: local_map, grid: position },
            facing: Direction::South,
        }],
        Vec::new(),
        player,
    )
    .expect("local simulation");
    let mut region = WorldMap::new(regional_map);
    region.set_cell(position, TerrainCell::new(TerrainKind::StairsUp));
    simulation.add_map(region, Vec::new()).expect("regional map should attach");
    simulation
        .add_transition(Transition {
            from: WorldPosition { map: local_map, grid: position },
            to: WorldPosition { map: regional_map, grid: position },
            kind: TransitionKind::Descend,
            name: "Regional road".to_string(),
        })
        .expect("cross-map transition");

    let outcome = simulation.apply_command(GameCommand::Traverse);
    assert!(outcome.changed_world);
    assert_eq!(simulation.player().position.map, regional_map);
    assert_eq!(simulation.progression().exploration, 1);
    assert_eq!(simulation.progression().experience, 10);
}

#[test]
fn walking_onto_a_cross_map_gate_travels_without_a_second_button() {
    let local_map = MapId(1);
    let regional_map = MapId(2);
    let approach = GridPos::new(-1, 0, 0);
    let gate = GridPos::new(0, 0, 0);
    let mut local = WorldMap::new(local_map);
    local.set_cell(approach, TerrainCell::new(TerrainKind::StoneFloor));
    local.set_cell(gate, TerrainCell::new(TerrainKind::StairsDown));
    let player = EntityId(1);
    let mut simulation = Simulation::from_map(
        7,
        local,
        vec![Entity {
            id: player,
            kind: EntityKind::Player,
            position: WorldPosition { map: local_map, grid: approach },
            facing: Direction::East,
        }],
        Vec::new(),
        player,
    )
    .expect("local simulation");
    let mut region = WorldMap::new(regional_map);
    region.set_cell(gate, TerrainCell::new(TerrainKind::StairsUp));
    simulation.add_map(region, Vec::new()).expect("regional map should attach");
    simulation
        .add_transition(Transition {
            from: WorldPosition { map: local_map, grid: gate },
            to: WorldPosition { map: regional_map, grid: gate },
            kind: TransitionKind::Descend,
            name: "Regional road".to_string(),
        })
        .expect("cross-map transition");

    let outcome = simulation.apply_command(GameCommand::Move(Direction::East));

    assert_eq!(simulation.tick(), 1);
    assert_eq!(simulation.player().position.map, regional_map);
    assert!(outcome.events.iter().any(|event| matches!(
        event,
        SimulationEvent::Traversed { destination, .. } if destination.map == regional_map
    )));
}

#[test]
fn containers_enforce_locks_capacity_custody_and_ordinary_object_actions() {
    let mut simulation = Simulation::demo(0xabc);
    let player = simulation.player_id();
    let owner = EntityId(2);
    let container = EntityId(0xcafe);
    let position = WorldPosition {
        map: simulation.player().position.map,
        grid: simulation.player().position.grid.offset(1, 0, 0),
    };
    simulation
        .add_entity(Entity { id: container, kind: EntityKind::Item, position, facing: Direction::South })
        .expect("container entity");
    simulation
        .add_container(Container {
            entity: container,
            name: "Locked Pantry".to_string(),
            owner,
            capacity_grams: 1_000,
            lock_code: Some(77),
            locked: true,
        })
        .expect("container");
    let food = ItemId(0x501);
    simulation
        .give_item_with_owner(
            container,
            owner,
            Item {
                id: food,
                name: "Brown Bread".to_string(),
                kind: ItemKind::Food { nourishment: 12 },
                quantity: 2,
                weight_grams: 600,
                quality: 40,
            },
        )
        .expect("food");
    let key = ItemId(0x502);
    simulation
        .give_item(
            player,
            Item {
                id: key,
                name: "Pantry Key".to_string(),
                kind: ItemKind::Key { lock_code: 77 },
                quantity: 1,
                weight_grams: 40,
                quality: 50,
            },
        )
        .expect("key");

    assert_eq!(
        simulation.apply_command(GameCommand::OpenContainer(container)).events,
        vec![SimulationEvent::ActionFailed(ActionFailure::ContainerLocked)]
    );
    simulation.apply_command(GameCommand::UnlockContainer { container, key });
    assert!(!simulation.container(container).expect("container").locked);
    simulation.apply_command(GameCommand::Take { item: food, from: container });
    assert_eq!(simulation.legal_owner(food), Some(owner));
    assert!(simulation.is_stolen(food));
    let hunger = simulation.player_needs().hunger;
    simulation.apply_command(GameCommand::Eat(food));
    assert!(simulation.player_needs().hunger < hunger);

    let book = ItemId(0x503);
    simulation
        .give_item(
            player,
            Item {
                id: book,
                name: "Town Record".to_string(),
                kind: ItemKind::Book { subject: BookSubject::LocalHistory },
                quantity: 1,
                weight_grams: 1_100,
                quality: 60,
            },
        )
        .expect("book");
    let reading = simulation.apply_command(GameCommand::Read(book));
    assert!(reading.events.iter().any(|event| matches!(
        event,
        SimulationEvent::ItemRead { item, newly_learned: true, .. } if *item == book
    )));
    let full = simulation.apply_command(GameCommand::Place { item: book, container });
    assert_eq!(full.events, vec![SimulationEvent::ActionFailed(ActionFailure::ContainerFull)]);

    let drop = simulation.apply_command(GameCommand::Drop(book));
    let holder = drop.events.iter().find_map(|event| match event {
        SimulationEvent::ItemDropped { holder, .. } => Some(*holder),
        _ => None,
    });
    assert!(holder.is_some());
    assert_eq!(simulation.legal_owner(book), Some(player));
}

#[test]
fn custody_and_legal_ownership_distinguish_gifts_from_theft() {
    let mut simulation = Simulation::demo(44);
    let player = simulation.player_id();
    let neighbor = EntityId(2);
    let player_position = simulation.player().position;
    assert!(simulation.move_entity(
        neighbor,
        WorldPosition { map: player_position.map, grid: player_position.grid.offset(1, 0, 0) },
    ));
    let item = ItemId(0xfeed);
    simulation
        .give_item(
            player,
            Item {
                id: item,
                name: "Plain wool cloak".to_string(),
                kind: ItemKind::Artifact,
                quantity: 1,
                weight_grams: 900,
                quality: 30,
            },
        )
        .expect("item");

    simulation.apply_command(GameCommand::Give { item, to: neighbor });
    assert_eq!(simulation.legal_owner(item), Some(neighbor));
    assert!(!simulation.is_stolen(item));
    assert!(simulation.inventory(neighbor).unwrap().items.contains(&item.0));

    simulation.apply_command(GameCommand::Take { item, from: neighbor });
    assert_eq!(simulation.legal_owner(item), Some(neighbor));
    assert!(simulation.is_stolen(item));
    assert!(simulation.player_inventory().unwrap().items.contains(&item.0));

    simulation.apply_command(GameCommand::Give { item, to: neighbor });
    assert_eq!(simulation.legal_owner(item), Some(neighbor));
    assert!(!simulation.is_stolen(item));
}

#[test]
fn stolen_property_cannot_be_laundered_by_gifting_it_to_a_third_party() {
    let mut simulation = Simulation::demo(45);
    let player = simulation.player_id();
    let owner = EntityId(2);
    let recipient = EntityId(3);
    let player_position = simulation.player().position;
    assert!(simulation.move_entity(
        owner,
        WorldPosition { map: player_position.map, grid: player_position.grid.offset(1, 0, 0) },
    ));
    let item = ItemId(0xbeef);
    simulation
        .give_item(
            owner,
            Item {
                id: item,
                name: "Household medicine".to_string(),
                kind: ItemKind::Consumable { healing: 5 },
                quantity: 1,
                weight_grams: 100,
                quality: 40,
            },
        )
        .expect("item");

    simulation.apply_command(GameCommand::Take { item, from: owner });
    assert!(simulation.move_entity(
        recipient,
        WorldPosition { map: player_position.map, grid: player_position.grid.offset(0, 1, 0) },
    ));
    simulation.apply_command(GameCommand::Give { item, to: recipient });

    assert_eq!(simulation.legal_owner(item), Some(owner));
    assert!(simulation.is_stolen(item));
    assert!(simulation.inventory(recipient).is_some_and(|inventory| inventory.items.contains(&item.0)));
    assert!(!simulation.player_inventory().unwrap().items.contains(&item.0));
    assert_eq!(simulation.player_id(), player);
}

#[test]
fn quantity_transfers_preserve_mass_title_and_merge_compatible_stacks() {
    let mut simulation = Simulation::demo(46);
    let neighbor = EntityId(2);
    let player = simulation.player_id();
    let player_position = simulation.player().position;
    assert!(simulation.move_entity(
        neighbor,
        WorldPosition { map: player_position.map, grid: player_position.grid.offset(1, 0, 0) },
    ));
    let provisions = ItemId(0xcafe);
    simulation
        .give_item(
            player,
            Item {
                id: provisions,
                name: "Travel bread".to_string(),
                kind: ItemKind::Food { nourishment: 12 },
                quantity: 5,
                weight_grams: 1_750,
                quality: 40,
            },
        )
        .expect("stack");

    let first = simulation.apply_command(GameCommand::GiveQuantity { item: provisions, to: neighbor, quantity: 2 });
    let first_moved = first
        .events
        .iter()
        .find_map(|event| match event {
            SimulationEvent::ItemQuantityTransferred { item, quantity, .. } if *quantity == 2 => Some(*item),
            _ => None,
        })
        .expect("partial transfer");
    assert_eq!(simulation.item(provisions).unwrap().quantity, 3);
    assert_eq!(simulation.item(provisions).unwrap().weight_grams, 1_050);
    assert_eq!(simulation.item(first_moved).unwrap().quantity, 2);
    assert_eq!(simulation.item(first_moved).unwrap().weight_grams, 700);
    assert_eq!(simulation.legal_owner(first_moved), Some(neighbor));

    simulation.apply_command(GameCommand::GiveQuantity { item: provisions, to: neighbor, quantity: 1 });
    assert_eq!(simulation.item(provisions).unwrap().quantity, 2);
    assert_eq!(simulation.item(first_moved).unwrap().quantity, 3);
    assert_eq!(simulation.items().iter().map(|item| item.weight_grams).sum::<u32>(), 1_750);

    let theft = simulation.apply_command(GameCommand::TakeQuantity { item: first_moved, from: neighbor, quantity: 2 });
    let stolen = theft
        .events
        .iter()
        .find_map(|event| match event {
            SimulationEvent::ItemQuantityTransferred { item, .. } => Some(*item),
            _ => None,
        })
        .expect("theft transfer");
    assert_eq!(simulation.item(first_moved).unwrap().quantity, 1);
    assert_eq!(simulation.item(stolen).unwrap().quantity, 2);
    assert_eq!(simulation.legal_owner(stolen), Some(neighbor));
    assert!(simulation.is_stolen(stolen));

    let before = simulation.clone();
    let invalid = simulation.apply_command(GameCommand::DropQuantity { item: stolen, quantity: 0 });
    assert!(invalid.events.contains(&SimulationEvent::ActionFailed(ActionFailure::InvalidQuantity)));
    assert_eq!(simulation, before);
}

#[test]
fn inscribed_history_object_teaches_and_performs_seeded_formula() {
    let mut simulation = Simulation::demo(2);
    let player = simulation.player_id();
    simulation
        .add_combatant(Combatant {
            entity: player,
            health: 5,
            max_health: 12,
            armor: 0,
            hostile_to_player: false,
            experience_reward: 0,
        })
        .expect("player combatant");
    let formula = simulation.rules().formula(FormulaId(1)).unwrap().clone();
    let artifact = ItemId(0x9000);
    simulation
        .give_item(
            player,
            Item {
                id: artifact,
                name: "Recovered Hearth Ledger".to_string(),
                kind: ItemKind::InscribedArtifact { object: ObjectId(77), formula: formula.id },
                quantity: 1,
                weight_grams: 400,
                quality: 60,
            },
        )
        .expect("artifact");
    for (index, material) in formula.reagents.iter().copied().enumerate() {
        simulation
            .give_item(
                player,
                Item {
                    id: ItemId(0x9010 + index as u64),
                    name: material.name().to_string(),
                    kind: ItemKind::Reagent { material },
                    quantity: 2,
                    weight_grams: 50,
                    quality: 50,
                },
            )
            .expect("reagent");
    }

    let study = simulation.apply_command(GameCommand::Study(artifact));
    assert!(study
        .events
        .iter()
        .any(|event| matches!(event, SimulationEvent::FormulaLearned { formula: FormulaId(1), .. })));
    assert_eq!(simulation.progression().discoveries, 1);
    assert_eq!(simulation.progression().arcane_lore, 1);
    assert_eq!(simulation.progression().experience, 30);

    let casting = simulation.apply_command(GameCommand::Cast { formula: FormulaId(1), target: None });
    assert!(casting
        .events
        .iter()
        .any(|event| matches!(event, SimulationEvent::SpellCast { effect: MagicEffect::Heal, .. })));
    assert_eq!(simulation.progression().magical_practice, 1);
    assert_eq!(simulation.player_combatant().unwrap().health, 10);
    for item in &simulation.player_inventory().unwrap().items {
        if matches!(simulation.item(ItemId(*item)).unwrap().kind, ItemKind::Reagent { .. }) {
            assert_eq!(simulation.item(ItemId(*item)).unwrap().quantity, 1);
        }
    }
}

#[test]
fn per_world_formula_can_be_discovered_by_reagent_experiment() {
    let mut simulation = Simulation::demo(2);
    let player = simulation.player_id();
    let formula = simulation.rules().formula(FormulaId(1)).unwrap().clone();
    match formula.condition {
        FormulaCondition::CleanWater => {
            let position = simulation.player().position;
            assert!(simulation.move_entity(
                player,
                WorldPosition { map: position.map, grid: GridPos::new(13, 2, 0) },
            ));
        }
        FormulaCondition::NightSky => {
            for _ in 0..12 {
                simulation.apply_command(GameCommand::Wait);
            }
        }
        FormulaCondition::ExistingFlame if !formula.reagents.contains(&MaterialKind::Emberseed) => {
            simulation
                .give_item(
                    player,
                    Item {
                        id: ItemId(0xa100),
                        name: "emberseed".to_string(),
                        kind: ItemKind::Reagent { material: MaterialKind::Emberseed },
                        quantity: 1,
                        weight_grams: 20,
                        quality: 40,
                    },
                )
                .expect("flame source");
        }
        FormulaCondition::DirectSunlight | FormulaCondition::ExistingFlame => {}
    }
    let first = ItemId(0xa101);
    let second = ItemId(0xa102);
    for (item, material) in [first, second].into_iter().zip(formula.reagents.iter().copied()) {
        simulation
            .give_item(
                player,
                Item {
                    id: item,
                    name: material.name().to_string(),
                    kind: ItemKind::Reagent { material },
                    quantity: 1,
                    weight_grams: 20,
                    quality: 40,
                },
            )
            .expect("reagent");
    }

    let outcome = simulation.apply_command(GameCommand::Experiment { first, second });
    assert!(outcome.events.iter().any(
        |event| matches!(event, SimulationEvent::FormulaLearned { formula: learned, .. } if *learned == formula.id)
    ));
    assert!(simulation.known_formulas().contains(&formula.id.0));
    assert_eq!(simulation.progression().arcane_lore, 1);
    assert_eq!(simulation.progression().magical_practice, 1);
}

#[test]
fn a_fresh_demo_has_identities_to_spare() {
    let mut simulation = Simulation::demo(42);
    assert!(simulation.identities_available());
    simulation.apply_command(GameCommand::Wait);
    assert!(simulation.identities_available());
}
