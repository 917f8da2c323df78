use ultimate_fate::client::{keyboard_input, KeyCode};
use ultimate_fate::geometry::Direction;
use ultimate_fate::input::{ActionEvent, DigitalInput, Duration, GameplayButton, InputAction, InputController};

fn actions(input: &mut InputController) -> Vec<ActionEvent> {
    input.drain_events()
}

/// The stick direction an analog reading selects, as the desktop client reads it.
fn stick_direction(x: f32, y: f32, dead_zone: f32) -> Option<Direction> {
    if !x.is_finite() || !y.is_finite() {
        return None;
    }
    let dead_zone = dead_zone.clamp(0.0, 1.0);
    if x.abs().max(y.abs()) < dead_zone {
        return None;
    }
    if x.abs() > y.abs() {
        Some(if x > 0.0 { Direction::East } else { Direction::West })
    } else {
        Some(if y > 0.0 { Direction::South } else { Direction::North })
    }
}

#[test]
fn held_movement_emits_initial_and_timed_repeat_events() {
    let mut input = InputController::standard();
    input.set_digital(DigitalInput::Move(Direction::East), true);
    assert_eq!(
        actions(&mut input),
        vec![ActionEvent { action: InputAction::Move(Direction::East), repeated: false }]
    );

    input.update(Duration::from_millis(179));
    assert!(actions(&mut input).is_empty());
    input.update(Duration::from_millis(1));
    assert_eq!(
        actions(&mut input),
        vec![ActionEvent { action: InputAction::Move(Direction::East), repeated: true }]
    );

    input.set_digital(DigitalInput::Move(Direction::East), false);
    input.update(Duration::from_secs(1));
    assert!(actions(&mut input).is_empty());
}

#[test]
fn latest_direction_wins_and_release_falls_back() {
    let mut input = InputController::standard();
    input.set_digital(DigitalInput::Move(Direction::North), true);
    input.set_digital(DigitalInput::Move(Direction::East), true);
    let _ = actions(&mut input);

    input.update(Duration::from_millis(180));
    assert_eq!(actions(&mut input)[0].action, InputAction::Move(Direction::East));
    input.set_digital(DigitalInput::Move(Direction::East), false);
    input.update(Duration::from_millis(85));
    assert_eq!(actions(&mut input)[0].action, InputAction::Move(Direction::North));
}

#[test]
fn buttons_emit_only_on_press_edges() {
    let mut input = InputController::standard();
    let primary = DigitalInput::Button(GameplayButton::Primary);
    input.set_digital(primary, true);
    input.set_digital(primary, true);
    input.set_digital(primary, false);
    input.set_digital(primary, true);

    assert_eq!(actions(&mut input).len(), 2);
}

#[test]
fn analog_axis_uses_dead_zone_and_dominant_direction() {
    let mut input = InputController::standard();
    input.set_axis_direction(stick_direction(0.2, 0.1, 0.3));
    assert!(actions(&mut input).is_empty());

    input.set_axis_direction(stick_direction(-0.8, 0.4, 0.3));
    assert_eq!(actions(&mut input)[0].action, InputAction::Move(Direction::West));
    input.set_axis_direction(stick_direction(0.0, 0.0, 0.3));
    input.update(Duration::from_secs(1));
    assert!(actions(&mut input).is_empty());
}

#[test]
fn keyboard_maps_to_device_neutral_controls() {
    assert_eq!(
        keyboard_input(KeyCode::KeyW),
        Some(DigitalInput::Move(Direction::North))
    );
    assert_eq!(
        keyboard_input(KeyCode::Enter),
        Some(DigitalInput::Button(GameplayButton::Primary))
    );
    assert_eq!(keyboard_input(KeyCode::KeyP), Some(DigitalInput::Menu));
    assert_eq!(keyboard_input(KeyCode::ArrowLeft), Some(DigitalInput::Move(Direction::West)));
    assert_eq!(keyboard_input(KeyCode::KeyL), Some(DigitalInput::Button(GameplayButton::Inspect)));
    assert_eq!(keyboard_input(KeyCode::Other), None);
}

#[test]
fn digital_controls_convert_to_actions() {
    assert_eq!(InputAction::from(DigitalInput::Menu), InputAction::Menu);
    assert_eq!(
        InputAction::from(DigitalInput::Move(Direction::East)),
        InputAction::Move(Direction::East)
    );
    assert_eq!(
        InputAction::from(DigitalInput::Button(GameplayButton::Journal)),
        InputAction::Button(GameplayButton::Journal)
    );
}
