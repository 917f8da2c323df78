use ultimate_fate::client::action_failure_text;
use ultimate_fate::content::{FormulaCondition, MaterialKind};
use ultimate_fate::content::{MagicEffect, WorldRules, FormulaId};
use ultimate_fate::geometry::{Direction, GridPos, MapId, TerrainCell, TerrainKind, WorldMap, WorldPosition};
use ultimate_fate::lab::{error_json, help_json, json_escape, terrain_glyph, ExperienceTracker};
use ultimate_fate::model::{
    ActionFailure, AmmunitionKind, Combatant, Entity, EntityId, EntityKind, GameCommand, GameplayBuildError, Item,
    ItemId, ItemKind, QuestId, SimulationEvent,
};
use ultimate_fate::simulation::Simulation;
use ultimate_fate::text::u64_to_decimal;

fn arena(hostile_at: GridPos, hostile_armor: i16, hostile: bool) -> Simulation {
    let map_id = MapId(3);
    let mut map = WorldMap::new(map_id);
    for y in -3..=6 {
        for x in -3..=6 {
            map.set_cell(GridPos::new(x, y, 0), TerrainCell::new(TerrainKind::Road));
        }
    }
    let mut simulation = Simulation::from_map(
        5,
        map,
        vec![
            Entity {
                id: EntityId(1),
                kind: EntityKind::Player,
                position: WorldPosition { map: map_id, grid: GridPos::new(0, 0, 0) },
                facing: Direction::East,
            },
            Entity {
                id: EntityId(2),
                kind: EntityKind::Creature,
                position: WorldPosition { map: map_id, grid: hostile_at },
                facing: Direction::West,
            },
        ],
        Vec::new(),
        EntityId(1),
    )
    .expect("arena");
    simulation
        .add_combatant(Combatant { entity: EntityId(1), health: 10, max_health: 10, armor: 0, hostile_to_player: false, experience_reward: 0 })
        .expect("player");
    simulation
        .add_combatant(Combatant {
            entity: EntityId(2),
            health: 6,
            max_health: 6,
            armor: hostile_armor,
            hostile_to_player: hostile,
            experience_reward: 250,
        })
        .expect("hostile");
    simulation
}

#[test]
fn every_campaign_validates_and_offers_heal_then_kindle() {
    for seed in 0..40u64 {
        let rules = WorldRules::generate(seed);
        assert!(rules.validate().is_empty());
        assert_eq!(rules.formulas[0].effect, MagicEffect::Heal);
        assert_eq!(rules.formulas[1].effect, MagicEffect::Kindle);
    }
}

#[test]
fn armour_never_stops_a_blow_entirely() {
    let mut simulation = arena(GridPos::new(1, 0, 0), 30, true);
    let outcome = simulation.apply_command(GameCommand::Attack(EntityId(2)));
    assert!(outcome
        .events
        .iter()
        .any(|event| matches!(event, SimulationEvent::Damaged { target: EntityId(2), amount: 1, remaining_health: 5, .. })));
    assert_eq!(simulation.combatant(EntityId(2)).map(|c| c.health), Some(5));
}

#[test]
fn a_large_reward_raises_several_levels_at_once() {
    let mut simulation = arena(GridPos::new(1, 0, 0), 0, false);
    for _ in 0..6 {
        simulation.apply_command(GameCommand::Attack(EntityId(2)));
    }
    assert_eq!(simulation.combatant(EntityId(2)).map(|c| c.health), Some(0));
    assert_eq!(simulation.progression().experience, 250);
    assert_eq!(simulation.progression().level, 3);
    assert_eq!(simulation.progression().attack_bonus, 2);
    assert_eq!(simulation.player_combatant().map(|c| (c.health, c.max_health)), Some((14, 14)));
}

#[test]
fn melee_and_ranged_threats_pick_the_nearest_living_hostile() {
    let mut simulation = arena(GridPos::new(1, 0, 0), 0, true);
    assert_eq!(simulation.hostile_in_melee_range(), Some(EntityId(2)));
    assert_eq!(simulation.hostile_in_ranged_line(), None);
    simulation
        .give_item(
            EntityId(1),
            Item {
                id: ItemId(7),
                name: "Sling".to_string(),
                kind: ItemKind::RangedWeapon { damage: 2, range: 4, ammunition: AmmunitionKind::Arrow },
                quantity: 1,
                weight_grams: 300,
                quality: 20,
            },
        )
        .expect("sling");
    simulation.apply_command(GameCommand::Equip(ItemId(7)));
    assert_eq!(simulation.equipped_ranged_range(EntityId(1)), Some(4));
    assert_eq!(simulation.hostile_in_ranged_line(), Some(EntityId(2)));
    assert_eq!(simulation.check_ranged_attack(EntityId(1), EntityId(2)), Err(ActionFailure::NoAmmunition));
}

#[test]
fn a_paused_game_still_handles_items_but_not_movement() {
    let mut simulation = Simulation::demo(9);
    let start = simulation.player().position;
    let pause = simulation.apply_command(GameCommand::Pause);
    assert!(pause.changed_world && !pause.advanced_time && pause.events.is_empty());
    assert!(simulation.paused());
    let moved = simulation.apply_command(GameCommand::Move(Direction::North));
    assert!(moved.events.is_empty() && !moved.advanced_time && !moved.changed_world);
    assert_eq!(simulation.player().position, start);
    let eat = simulation.apply_command(GameCommand::Eat(ItemId(99)));
    assert_eq!(eat.events, vec![SimulationEvent::ActionFailed(ActionFailure::ItemNotCarried)]);
    simulation.apply_command(GameCommand::Pause);
    assert!(!simulation.paused());
}

#[test]
fn refusals_name_their_reason() {
    let mut simulation = Simulation::demo(11);
    assert_eq!(
        simulation.apply_command(GameCommand::Traverse).events,
        vec![SimulationEvent::ActionFailed(ActionFailure::NoTransition)]
    );
    assert_eq!(
        simulation.apply_command(GameCommand::TurnInQuest(QuestId(4))).events,
        vec![SimulationEvent::ActionFailed(ActionFailure::QuestNotReady)]
    );
    assert_eq!(
        simulation.apply_command(GameCommand::Cast { formula: FormulaId(1), target: None }).events,
        vec![SimulationEvent::ActionFailed(ActionFailure::UnknownFormula)]
    );
    assert_eq!(
        simulation.apply_command(GameCommand::Experiment { first: ItemId(5), second: ItemId(5) }).events,
        vec![SimulationEvent::ActionFailed(ActionFailure::ExperimentFailed)]
    );
    assert_eq!(simulation.tick(), 0);
}

#[test]
fn building_errors_are_reported() {
    let mut simulation = Simulation::demo(12);
    assert_eq!(
        simulation.add_combatant(Combatant {
            entity: EntityId(404),
            health: 1,
            max_health: 1,
            armor: 0,
            hostile_to_player: false,
            experience_reward: 0
        }),
        Err(GameplayBuildError::MissingEntity(EntityId(404)))
    );
    assert_eq!(
        simulation.add_combatant(Combatant {
            entity: EntityId(2),
            health: 5,
            max_health: 3,
            armor: 0,
            hostile_to_player: false,
            experience_reward: 0
        }),
        Err(GameplayBuildError::InvalidCombatant(EntityId(2)))
    );
    assert_eq!(simulation.register_healer(EntityId(404)), Err(GameplayBuildError::MissingEntity(EntityId(404))));
}

#[test]
fn hostile_turns_land_at_most_one_blow() {
    let mut simulation = arena(GridPos::new(1, 0, 0), 0, true);
    simulation
        .add_entity(Entity {
            id: EntityId(3),
            kind: EntityKind::Creature,
            position: WorldPosition { map: MapId(3), grid: GridPos::new(0, 1, 0) },
            facing: Direction::North,
        })
        .expect("second hostile");
    simulation
        .add_combatant(Combatant { entity: EntityId(3), health: 4, max_health: 4, armor: 0, hostile_to_player: true, experience_reward: 0 })
        .expect("second combatant");
    let outcome = simulation.apply_command(GameCommand::Wait);
    let blows = outcome.events.iter().filter(|event| matches!(event, SimulationEvent::Damaged { .. })).count();
    assert_eq!(blows, 1);
    assert_eq!(simulation.player_combatant().map(|c| c.health), Some(8));
}

#[test]
fn protocol_replies_are_escaped_json() {
    assert_eq!(error_json("bad \"line\"\n"), "{\"ok\":false,\"error\":\"bad \\\"line\\\"\\n\"}");
    assert_eq!(json_escape("tab\there\u{1}"), "tab\\there\\u0001");
    assert!(help_json().starts_with("{\"ok\":true,\"type\":\"help\""));
    assert_eq!(terrain_glyph(TerrainKind::Road), '=');
    assert_eq!(u64_to_decimal(40213), "40213");
}

#[test]
fn the_tracker_counts_moves_and_remembers_places() {
    let mut simulation = Simulation::demo(21);
    let mut tracker = ExperienceTracker::new(&simulation, 0);
    let start = simulation.player().position;
    assert!(tracker.has_visited(start));
    let outcome = simulation.apply_command(GameCommand::Move(Direction::East));
    tracker.record(&simulation, &outcome);
    assert!(tracker.has_visited(simulation.player().position));
    assert!(!tracker.has_discovered_landmark(start, "Market Square"));
    tracker.record_local_npc_moves(3);
}

#[test]
fn failure_messages_name_what_is_missing() {
    assert_eq!(
        action_failure_text(ActionFailure::MissingReagent(MaterialKind::Iron)),
        format!("The formula requires {}.", MaterialKind::Iron.name())
    );
    for condition in [
        FormulaCondition::CleanWater,
        FormulaCondition::DirectSunlight,
        FormulaCondition::NightSky,
        FormulaCondition::ExistingFlame,
    ] {
        assert_eq!(
            action_failure_text(ActionFailure::MagicalConditionUnmet(condition)),
            format!("The formula's {:?} condition is not satisfied.", condition)
        );
    }
    assert_eq!(action_failure_text(ActionFailure::WrongKey), "That key does not fit the lock.");
}
