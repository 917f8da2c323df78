use ultimate_fate::client::{calendar_month_due, compact_notification, decode_input, ranged_grid_distance, InputPrompts};
use ultimate_fate::content::{MagicEffect, WorldRules};
use ultimate_fate::geometry::{ChunkCoord, Direction, GridPos};
use ultimate_fate::input::{DigitalInput, GameplayButton};
use ultimate_fate::present::{Appearance, CharacterAppearance};
use ultimate_fate::render::entity_depth;

/// Turns in one living month of the campaign calendar.
const LIVING_MONTH_TICKS: u64 = 720;

#[test]
fn apple_input_codes_cover_movement_four_buttons_and_menu() {
    assert_eq!(decode_input(0), Some(DigitalInput::Move(Direction::North)));
    assert_eq!(decode_input(4), Some(DigitalInput::Button(GameplayButton::Primary)));
    assert_eq!(decode_input(7), Some(DigitalInput::Button(GameplayButton::Journal)));
    assert_eq!(decode_input(8), Some(DigitalInput::Menu));
    assert_eq!(decode_input(9), None);
}

#[test]
fn desktop_prompts_show_keyboard_bindings_not_abstract_button_names() {
    let prompts = InputPrompts::desktop_keyboard();
    let legend = prompts.legend();

    assert_eq!(prompts.begin(), "[E / ENTER] BEGIN");
    assert_eq!(
        prompts.close_journal(),
        "W / S / UP / DOWN PAGE   [X / L] REGIONAL SITUATIONS   [J / ESC] CLOSE"
    );
    assert_eq!(
        prompts.region_help(),
        "W / S / UP / DOWN SITUATION   A / D RESPONSE   E / ENTER TRACK / RESOLVE   X / L JOURNAL   ESC CLOSE"
    );
    assert_eq!(prompts.conversation_help(), "W / S / UP / DOWN CHOOSE   E / ENTER ASK   ESC LEAVE");
    assert_eq!(
        prompts.inventory_help(),
        "W / S / UP / DOWN CHOOSE   A / D AMOUNT   E / ENTER EQUIP / USE   X / L DROP   ESC / P CLOSE"
    );
    assert_eq!(
        prompts.container_help(),
        "W / S / UP / DOWN CHOOSE   A / D AMOUNT   X / L CONTENTS / PACK   E / ENTER MOVE   ESC CLOSE"
    );
    assert_eq!(prompts.targeting_help(), "WASD / ARROWS AIM   E / ENTER FIRE   ESC CANCEL");
    assert_eq!(prompts.resolution_help(), "W / S / UP / DOWN CHOOSE   E / ENTER COMMIT   ESC LEAVE");
    assert!(legend.contains("ACT / ATTACK / STAIRS  E / ENTER"));
    assert!(!legend.contains("PRIMARY"));
    assert!(!legend.contains("CONTROLLER"));
}

#[test]
fn ranged_cursor_uses_tile_distance_in_all_directions() {
    let origin = GridPos::new(0, 0, 0);
    assert_eq!(ranged_grid_distance(origin, GridPos::new(5, 0, 0)), 5);
    assert_eq!(ranged_grid_distance(origin, GridPos::new(5, 5, 0)), 5);
}

#[test]
fn calendar_and_notifications_are_player_scaled() {
    assert!(!calendar_month_due(LIVING_MONTH_TICKS - 1, LIVING_MONTH_TICKS));
    assert!(calendar_month_due(LIVING_MONTH_TICKS, LIVING_MONTH_TICKS));
    assert_eq!(
        compact_notification("A very long regional development with far too many words for the recent panel", 6),
        "A very long regional development with…"
    );
}

#[test]
fn world_rules_are_deterministic_and_solvable() {
    let first = WorldRules::generate(77);
    let second = WorldRules::generate(77);

    assert_eq!(first, second);
    assert!(first.validate().is_empty());
    assert!(first.formulas.iter().any(|rule| rule.effect == MagicEffect::Heal));
    assert!(first.formulas.iter().any(|rule| rule.effect == MagicEffect::Kindle));
}

#[test]
fn campaign_seeds_change_rules_without_changing_effect_vocabulary() {
    let first = WorldRules::generate(1);
    let second = WorldRules::generate(2);

    assert_ne!(first.formulas[0].reagents, second.formulas[0].reagents);
    assert_eq!(first.formulas[0].effect, second.formulas[0].effect);
}

#[test]
fn negative_positions_round_trip_through_chunks() {
    for position in [
        GridPos::new(-1, -1, -1),
        GridPos::new(-32, -32, -8),
        GridPos::new(-33, 65, 9),
        GridPos::new(0, 0, 0),
    ] {
        let (chunk, local) = ChunkCoord::containing(position);
        assert_eq!(chunk.resolve(local), position);
    }
}

#[test]
fn player_marker_sorts_above_other_entities_on_the_same_tile() {
    let position = GridPos::new(4, 7, 0);
    let player = entity_depth(position, Appearance::Character(CharacterAppearance::Player));
    let villager = entity_depth(position, Appearance::Character(CharacterAppearance::Villager));

    assert!(player > villager);
}
