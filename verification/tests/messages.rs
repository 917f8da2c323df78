use ultimate_fate::client::event_message;
use ultimate_fate::geometry::{GridPos, MapId, WorldPosition};
use ultimate_fate::model::{ActionFailure, AmmunitionKind, CombatMethod, EntityId, ItemId, ItemKind, QuestId, SimulationEvent, TransitionKind};

const PLAYER: EntityId = EntityId(1);

#[test]
fn blows_are_told_from_the_players_side() {
    let mine = SimulationEvent::Damaged {
        attacker: PLAYER,
        target: EntityId(9),
        amount: 4,
        remaining_health: -2,
        method: CombatMethod::Retaliation,
    };
    assert_eq!(
        event_message(&mine, PLAYER, "You", "the raider", None).as_deref(),
        Some("You retaliate against the raider for 4; -2 health remains.")
    );
    let theirs = SimulationEvent::Damaged {
        attacker: EntityId(9),
        target: PLAYER,
        amount: 2,
        remaining_health: 18,
        method: CombatMethod::Magic,
    };
    assert_eq!(
        event_message(&theirs, PLAYER, "the raider", "You", None).as_deref(),
        Some("the raider sears you for 2; you have 18 health.")
    );
    let others = SimulationEvent::Damaged {
        attacker: EntityId(8),
        target: EntityId(9),
        amount: 3,
        remaining_health: 0,
        method: CombatMethod::Melee,
    };
    assert_eq!(
        event_message(&others, PLAYER, "Ana", "Bo", None).as_deref(),
        Some("Ana hits Bo for 3; 0 health remains.")
    );
}

#[test]
fn defeats_name_the_victor() {
    let lost = SimulationEvent::Defeated { entity: PLAYER, by: EntityId(9) };
    assert_eq!(event_message(&lost, PLAYER, "You", "the raider", None).as_deref(), Some("You are defeated by the raider."));
    let won = SimulationEvent::Defeated { entity: EntityId(9), by: PLAYER };
    assert_eq!(event_message(&won, PLAYER, "the raider", "You", None).as_deref(), Some("the raider is defeated by you."));
}

#[test]
fn quiet_events_have_no_line() {
    assert_eq!(event_message(&SimulationEvent::NeedsChanged { hunger: 1, thirst: 2 }, PLAYER, "", "", None), None);
    assert_eq!(event_message(&SimulationEvent::ContainerOpened { container: EntityId(4) }, PLAYER, "", "", None), None);
    let gift = SimulationEvent::ItemTransferred { item: ItemId(3), from: PLAYER, to: EntityId(2) };
    assert_eq!(event_message(&gift, PLAYER, "bread", "", None), None);
}

#[test]
fn progress_lines_carry_their_numbers() {
    let received = SimulationEvent::ItemQuantityTransferred {
        source: ItemId(1),
        item: ItemId(2),
        quantity: 12,
        from: EntityId(2),
        to: PLAYER,
    };
    assert_eq!(event_message(&received, PLAYER, "arrows", "", None).as_deref(), Some("You receive arrows x12."));
    let deeper = SimulationEvent::Traversed {
        kind: TransitionKind::Descend,
        destination: WorldPosition { map: MapId(2), grid: GridPos { x: 0, y: 0, z: -3 } },
    };
    assert_eq!(event_message(&deeper, PLAYER, "", "", None).as_deref(), Some("You descend to depth 3."));
    let level = SimulationEvent::LevelGained { level: 3, max_health: 28, attack_bonus: 2 };
    assert_eq!(
        event_message(&level, PLAYER, "", "", None).as_deref(),
        Some("You reach level 3: health 28, attack bonus +2.")
    );
    let quest = SimulationEvent::QuestAdvanced { quest: QuestId(5), objective: 0 };
    assert_eq!(
        event_message(&quest, PLAYER, "The Lost Seal", "", None).as_deref(),
        Some("The Lost Seal: objective 1 completed.")
    );
    let failed = SimulationEvent::ActionFailed(ActionFailure::OutOfRange);
    assert_eq!(event_message(&failed, PLAYER, "", "", None).as_deref(), Some("The target is out of range."));
}

#[test]
fn only_provisions_are_reported_when_consumed() {
    let eaten = SimulationEvent::ItemConsumed { owner: PLAYER, item: ItemId(5), remaining: 2 };
    assert_eq!(
        event_message(&eaten, PLAYER, "bread", "", Some(ItemKind::Food { nourishment: 3 })).as_deref(),
        Some("bread: 2 remaining.")
    );
    assert_eq!(
        event_message(&eaten, PLAYER, "water", "", Some(ItemKind::Drink { hydration: 3 })).as_deref(),
        Some("water: 2 remaining.")
    );
    assert_eq!(
        event_message(&eaten, PLAYER, "salve", "", Some(ItemKind::Consumable { healing: 4 })).as_deref(),
        Some("salve: 2 remaining.")
    );
    let fired = SimulationEvent::ItemConsumed { owner: PLAYER, item: ItemId(6), remaining: 0 };
    let arrows = Some(ItemKind::Ammunition { kind: AmmunitionKind::Arrow });
    assert_eq!(event_message(&fired, PLAYER, "arrows", "", arrows), None);
    assert_eq!(event_message(&eaten, PLAYER, "bread", "", None), None);
    let theirs = SimulationEvent::ItemConsumed { owner: EntityId(9), item: ItemId(5), remaining: 2 };
    assert_eq!(event_message(&theirs, PLAYER, "bread", "", Some(ItemKind::Food { nourishment: 3 })), None);
}
