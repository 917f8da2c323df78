use ultimate_fate::client::{ui_step, UiEffect, UiMode};
use ultimate_fate::geometry::Direction;
use ultimate_fate::input::{GameplayButton, InputAction};

#[test]
fn back_closes_views_and_inspect_in_the_journal_opens_the_region() {
    let back = InputAction::Button(GameplayButton::Back);
    assert_eq!(ui_step(UiMode::Journal, back, false, false), (UiMode::Exploration, UiEffect::CloseJournal));
    assert_eq!(ui_step(UiMode::Inventory, back, false, false), (UiMode::Exploration, UiEffect::ClearInput));
    assert_eq!(ui_step(UiMode::Trade, back, false, false), (UiMode::Trade, UiEffect::CloseTrade));
    assert_eq!(ui_step(UiMode::Targeting, back, false, false), (UiMode::Targeting, UiEffect::CloseTargeting));
    assert_eq!(
        ui_step(UiMode::Journal, InputAction::Button(GameplayButton::Inspect), false, false),
        (UiMode::Journal, UiEffect::OpenRegionView)
    );
}

#[test]
fn moves_adjust_selections_and_amounts() {
    assert_eq!(
        ui_step(UiMode::Inventory, InputAction::Move(Direction::West), true, false),
        (UiMode::Inventory, UiEffect::AdjustInventoryQuantity(-1))
    );
    assert_eq!(
        ui_step(UiMode::Container, InputAction::Move(Direction::South), false, false),
        (UiMode::Container, UiEffect::SelectContainerItem(1))
    );
    assert_eq!(
        ui_step(UiMode::Exploration, InputAction::Move(Direction::North), true, false),
        (UiMode::Exploration, UiEffect::MovePlayer(Direction::North, false))
    );
    assert_eq!(
        ui_step(UiMode::Conversation, InputAction::Move(Direction::East), false, false),
        (UiMode::Conversation, UiEffect::Ignored)
    );
}

#[test]
fn a_settled_crisis_only_closes() {
    let primary = InputAction::Button(GameplayButton::Primary);
    assert_eq!(ui_step(UiMode::Resolution, primary, false, false), (UiMode::Resolution, UiEffect::CommitResolution));
    assert_eq!(ui_step(UiMode::Resolution, primary, false, true), (UiMode::Resolution, UiEffect::CloseResolution));
    assert_eq!(
        ui_step(UiMode::Resolution, InputAction::Move(Direction::North), false, true),
        (UiMode::Resolution, UiEffect::Ignored)
    );
    assert_eq!(ui_step(UiMode::Exploration, InputAction::Menu, false, false), (UiMode::Exploration, UiEffect::OpenInventory));
    assert_eq!(
        ui_step(UiMode::Exploration, InputAction::Button(GameplayButton::Journal), false, false),
        (UiMode::Journal, UiEffect::OpenJournal)
    );
}
