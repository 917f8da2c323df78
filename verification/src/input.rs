//! Device-neutral player input.
//!
//! Platform hosts map keys, controller controls, touch controls or remote
//! gestures into [`DigitalInput`] values. This module owns held state and
//! repeat timing, then emits semantic [`InputAction`] events.
use vstd::prelude::*;

use crate::geometry::Direction;

verus! {

/// Most repeat events one call of `update` emits, however long the pause was.
pub const MAX_REPEATS_PER_UPDATE: usize = 8;

/// A span of time with nanosecond resolution.
#[derive(Clone, Copy, Debug, PartialEq, Eq, Structural, PartialOrd, Ord)]
pub struct Duration {
    nanos: u128,
}

impl Duration {
    /// Length of the span in nanoseconds.
    pub closed spec fn nanos(self) -> nat {
        self.nanos as nat
    }

    pub fn zero() -> (d: Duration)
        ensures
            d.nanos() == 0,
    {
        Duration { nanos: 0 }
    }

    pub fn from_nanos(nanos: u64) -> (d: Duration)
        ensures
            d.nanos() == nanos,
    {
        Duration { nanos: nanos as u128 }
    }

    pub fn from_millis(millis: u64) -> (d: Duration)
        ensures
            d.nanos() == millis * 1_000_000,
    {
        Duration { nanos: millis as u128 * 1_000_000 }
    }

    pub fn from_secs(secs: u64) -> (d: Duration)
        ensures
            d.nanos() == secs * 1_000_000_000,
    {
        Duration { nanos: secs as u128 * 1_000_000_000 }
    }

    pub fn as_nanos(self) -> (n: u128)
        ensures
            n == self.nanos(),
    {
        self.nanos
    }

    pub fn is_zero(self) -> (z: bool)
        ensures
            z == (self.nanos() == 0),
    {
        self.nanos == 0
    }

    /// `self - other`, or zero when `other` is longer.
    pub fn saturating_sub(self, other: Duration) -> (d: Duration)
        ensures
            d.nanos() == if self.nanos() >= other.nanos() {
                (self.nanos() - other.nanos()) as nat
            } else {
                0nat
            },
    {
        if self.nanos >= other.nanos {
            Duration { nanos: self.nanos - other.nanos }
        } else {
            Duration { nanos: 0 }
        }
    }

    /// Whether this span is at least as long as `other`.
    pub fn at_least(self, other: Duration) -> (b: bool)
        ensures
            b == (self.nanos() >= other.nanos()),
    {
        self.nanos >= other.nanos
    }
}

#[derive(Clone, Copy, Debug, PartialEq, Eq, Structural)]
pub enum GameplayButton {
    Primary,
    Back,
    Inspect,
    Journal,
}

#[derive(Clone, Copy, Debug, PartialEq, Eq, Structural)]
pub enum DigitalInput {
    Move(Direction),
    Button(GameplayButton),
    Menu,
}

#[derive(Clone, Copy, Debug, PartialEq, Eq, Structural)]
pub enum InputAction {
    Move(Direction),
    Button(GameplayButton),
    Menu,
}

/// The semantic action a digital control stands for.
pub open spec fn action_of(input: DigitalInput) -> InputAction {
    match input {
        DigitalInput::Move(direction) => InputAction::Move(direction),
        DigitalInput::Button(button) => InputAction::Button(button),
        DigitalInput::Menu => InputAction::Menu,
    }
}

impl From<DigitalInput> for InputAction {
    fn from(value: DigitalInput) -> (action: InputAction) {
        match value {
            DigitalInput::Move(direction) => InputAction::Move(direction),
            DigitalInput::Button(button) => InputAction::Button(button),
            DigitalInput::Menu => InputAction::Menu,
        }
    }
}

impl vstd::std_specs::convert::FromSpecImpl<DigitalInput> for InputAction {
    open spec fn obeys_from_spec() -> bool {
        true
    }

    open spec fn from_spec(value: DigitalInput) -> InputAction {
        action_of(value)
    }
}

#[derive(Clone, Copy, Debug, PartialEq, Eq, Structural)]
pub struct ActionEvent {
    pub action: InputAction,
    pub repeated: bool,
}

#[derive(Clone, Copy, Debug, PartialEq, Eq, Structural)]
pub struct RepeatTiming {
    pub initial_delay: Duration,
    pub interval: Duration,
}

impl RepeatTiming {
    /// The standard timing: a first repeat after 180 ms, then every 85 ms.
    pub fn standard() -> (timing: RepeatTiming)
        ensures
            timing.initial_delay.nanos() == 180_000_000,
            timing.interval.nanos() == 85_000_000,
    {
        RepeatTiming { initial_delay: Duration::from_millis(180), interval: Duration::from_millis(85) }
    }
}

/// The abstract state of an input controller.
pub struct InputState {
    /// Held state of the four digital directions, indexed north, east, south, west.
    pub directions: Seq<bool>,
    /// Held state of the four buttons, indexed primary, back, inspect, journal.
    pub buttons: Seq<bool>,
    pub menu: bool,
    pub most_recent: Option<Direction>,
    pub axis: Option<Direction>,
    /// Time until the next repeat, when a repeat is pending.
    pub repeat_remaining: Option<nat>,
    pub initial_delay: nat,
    pub interval: nat,
    /// Events emitted and not yet drained, oldest first.
    pub events: Seq<ActionEvent>,
}

pub open spec fn direction_slot(direction: Direction) -> int {
    match direction {
        Direction::North => 0,
        Direction::East => 1,
        Direction::South => 2,
        Direction::West => 3,
    }
}

pub open spec fn button_slot(button: GameplayButton) -> int {
    match button {
        GameplayButton::Primary => 0,
        GameplayButton::Back => 1,
        GameplayButton::Inspect => 2,
        GameplayButton::Journal => 3,
    }
}

/// A direction is held by its digital control or by the movement axis.
pub open spec fn is_held(s: InputState, direction: Direction) -> bool {
    s.directions[direction_slot(direction)] || s.axis == Some(direction)
}

/// The first held direction in north, east, south, west order.
pub open spec fn first_held(s: InputState) -> Option<Direction> {
    if is_held(s, Direction::North) {
        Some(Direction::North)
    } else if is_held(s, Direction::East) {
        Some(Direction::East)
    } else if is_held(s, Direction::South) {
        Some(Direction::South)
    } else if is_held(s, Direction::West) {
        Some(Direction::West)
    } else {
        None
    }
}

/// The direction that repeats: the most recent one while it is held, else the
/// first held one.
pub open spec fn active_direction(s: InputState) -> Option<Direction> {
    match s.most_recent {
        Some(d) => if is_held(s, d) {
            Some(d)
        } else {
            first_held(s)
        },
        None => first_held(s),
    }
}

pub open spec fn emit(s: InputState, action: InputAction, repeated: bool) -> InputState {
    InputState { events: s.events.push(ActionEvent { action, repeated }), ..s }
}

/// After the most recent direction is released: forget it, and keep repeating
/// at the ordinary interval only if some other direction is still held.
pub open spec fn fall_back(s: InputState) -> InputState {
    let cleared = InputState { most_recent: None, ..s };
    InputState {
        repeat_remaining: if active_direction(cleared).is_some() {
            Some(s.interval)
        } else {
            None
        },
        ..cleared
    }
}

pub open spec fn set_direction_state(s: InputState, direction: Direction, pressed: bool) -> InputState {
    let slot = direction_slot(direction);
    if s.directions[slot] == pressed {
        s
    } else {
        let was_held = is_held(s, direction);
        let changed = InputState { directions: s.directions.update(slot, pressed), ..s };
        if pressed {
            let started = InputState {
                most_recent: Some(direction),
                repeat_remaining: Some(s.initial_delay),
                ..changed
            };
            if !was_held {
                emit(started, InputAction::Move(direction), false)
            } else {
                started
            }
        } else if changed.most_recent == Some(direction) && !is_held(changed, direction) {
            fall_back(changed)
        } else {
            changed
        }
    }
}

/// The state after a digital control changes to `pressed`. Only a press edge
/// emits an action; holding or releasing emits nothing.
pub open spec fn set_digital_state(s: InputState, input: DigitalInput, pressed: bool) -> InputState {
    match input {
        DigitalInput::Move(direction) => set_direction_state(s, direction, pressed),
        DigitalInput::Button(button) => {
            let slot = button_slot(button);
            if s.buttons[slot] == pressed {
                s
            } else {
                let changed = InputState { buttons: s.buttons.update(slot, pressed), ..s };
                if pressed {
                    emit(changed, InputAction::Button(button), false)
                } else {
                    changed
                }
            }
        },
        DigitalInput::Menu => {
            if s.menu == pressed {
                s
            } else {
                let changed = InputState { menu: pressed, ..s };
                if pressed {
                    emit(changed, InputAction::Menu, false)
                } else {
                    changed
                }
            }
        },
    }
}

/// The state after the quantized movement axis points in `direction`.
pub open spec fn set_axis_state(s: InputState, direction: Option<Direction>) -> InputState {
    if direction == s.axis {
        s
    } else {
        let previous = s.axis;
        let changed = InputState { axis: direction, ..s };
        match direction {
            Some(d) => {
                let started = InputState {
                    most_recent: Some(d),
                    repeat_remaining: Some(s.initial_delay),
                    ..changed
                };
                if previous != Some(d) && !s.directions[direction_slot(d)] {
                    emit(started, InputAction::Move(d), false)
                } else {
                    started
                }
            },
            None => if previous == changed.most_recent {
                fall_back(changed)
            } else {
                changed
            },
        }
    }
}

/// Repeat processing: while the elapsed time covers the pending delay (and
/// fewer than eight repeats were emitted), emit a repeat of the active
/// direction and wait one interval more.
pub open spec fn repeat_loop(s: InputState, elapsed: nat, remaining: nat, repeats: nat) -> InputState
    decreases 8 - repeats,
{
    if elapsed >= remaining && repeats < 8 {
        match active_direction(s) {
            None => InputState { repeat_remaining: None, ..s },
            Some(d) => repeat_loop(
                emit(s, InputAction::Move(d), true),
                (elapsed - remaining) as nat,
                s.interval,
                repeats + 1,
            ),
        }
    } else {
        InputState {
            repeat_remaining: Some(if remaining >= elapsed {
                (remaining - elapsed) as nat
            } else {
                0nat
            }),
            ..s
        }
    }
}

/// The state after `elapsed` time passes.
pub open spec fn update_state(s: InputState, elapsed: nat) -> InputState {
    match s.repeat_remaining {
        None => s,
        Some(remaining) => repeat_loop(s, elapsed, remaining, 0),
    }
}

/// The state after every control is released and pending events are discarded.
pub open spec fn cleared_state(s: InputState) -> InputState {
    InputState {
        directions: seq![false, false, false, false],
        buttons: seq![false, false, false, false],
        menu: false,
        most_recent: None,
        axis: None,
        repeat_remaining: None,
        events: Seq::empty(),
        ..s
    }
}

#[derive(Debug)]
pub struct InputController {
    digital_directions: [bool; 4],
    buttons: [bool; 4],
    menu: bool,
    most_recent_direction: Option<Direction>,
    axis_direction: Option<Direction>,
    repeat_remaining: Option<Duration>,
    repeat_timing: RepeatTiming,
    events: Vec<ActionEvent>,
}

fn direction_index(direction: Direction) -> (i: usize)
    ensures
        i == direction_slot(direction),
{
    match direction {
        Direction::North => 0,
        Direction::East => 1,
        Direction::South => 2,
        Direction::West => 3,
    }
}

fn button_index(button: GameplayButton) -> (i: usize)
    ensures
        i == button_slot(button),
{
    match button {
        GameplayButton::Primary => 0,
        GameplayButton::Back => 1,
        GameplayButton::Inspect => 2,
        GameplayButton::Journal => 3,
    }
}

impl View for InputController {
    type V = InputState;

    closed spec fn view(&self) -> InputState {
        InputState {
            directions: self.digital_directions@,
            buttons: self.buttons@,
            menu: self.menu,
            most_recent: self.most_recent_direction,
            axis: self.axis_direction,
            repeat_remaining: match self.repeat_remaining {
                Some(d) => Some(d.nanos()),
                None => None,
            },
            initial_delay: self.repeat_timing.initial_delay.nanos(),
            interval: self.repeat_timing.interval.nanos(),
            events: self.events@,
        }
    }
}

impl InputController {
    /// Well-formed controllers track exactly four directions and four buttons.
    pub closed spec fn wf(&self) -> bool {
        self@.directions.len() == 4 && self@.buttons.len() == 4
    }

    pub fn new(repeat_timing: RepeatTiming) -> (c: Self)
        requires
            repeat_timing.interval.nanos() > 0,
        ensures
            c.wf(),
            c@.directions == seq![false, false, false, false],
            c@.buttons == seq![false, false, false, false],
            !c@.menu,
            c@.most_recent.is_none(),
            c@.axis.is_none(),
            c@.repeat_remaining.is_none(),
            c@.initial_delay == repeat_timing.initial_delay.nanos(),
            c@.interval == repeat_timing.interval.nanos(),
            c@.events == Seq::<ActionEvent>::empty(),
    {
        let c = InputController {
            digital_directions: [false, false, false, false],
            buttons: [false, false, false, false],
            menu: false,
            most_recent_direction: None,
            axis_direction: None,
            repeat_remaining: None,
            repeat_timing,
            events: Vec::new(),
        };
        assert(c@.directions =~= seq![false, false, false, false]);
        assert(c@.buttons =~= seq![false, false, false, false]);
        c
    }

    /// A controller with the standard repeat timing.
    pub fn standard() -> (c: Self)
        ensures
            c.wf(),
            c@ == cleared_state(c@),
            c@.initial_delay == 180_000_000,
            c@.interval == 85_000_000,
    {
        let c = InputController::new(RepeatTiming::standard());
        assert(c@ =~= cleared_state(c@));
        c
    }

    /// Sets a digital control state. Repeated platform key-down events are safe:
    /// only the transition from released to pressed emits an action.
    pub fn set_digital(&mut self, input: DigitalInput, pressed: bool)
        requires
            old(self).wf(),
        ensures
            final(self).wf(),
            final(self)@ == set_digital_state(old(self)@, input, pressed),
    {
        match input {
            DigitalInput::Move(direction) => self.set_direction(direction, pressed),
            DigitalInput::Button(button) => {
                let index = button_index(button);
                if self.buttons[index] == pressed {
                    return;
                }
                self.buttons[index] = pressed;
                if pressed {
                    self.push(InputAction::from(input), false);
                }
            },
            DigitalInput::Menu => {
                if self.menu == pressed {
                    return;
                }
                self.menu = pressed;
                if pressed {
                    self.push(InputAction::Menu, false);
                }
            },
        }
    }

    /// Applies an already quantized movement axis: `None` inside the dead zone,
    /// otherwise the dominant cardinal direction.
    pub fn set_axis_direction(&mut self, direction: Option<Direction>)
        requires
            old(self).wf(),
        ensures
            final(self).wf(),
            final(self)@ == set_axis_state(old(self)@, direction),
    {
        if direction == self.axis_direction {
            return;
        }
        let previous = self.axis_direction;
        self.axis_direction = direction;
        match direction {
            Some(d) => {
                self.most_recent_direction = Some(d);
                self.repeat_remaining = Some(self.repeat_timing.initial_delay);
                if previous != Some(d) && !self.digital_directions[direction_index(d)] {
                    self.push(InputAction::Move(d), false);
                }
            },
            None => {
                if previous == self.most_recent_direction {
                    self.release_most_recent();
                }
            },
        }
    }

    /// Advances platform-independent repeat timing.
    pub fn update(&mut self, elapsed: Duration)
        requires
            old(self).wf(),
        ensures
            final(self).wf(),
            final(self)@ == update_state(old(self)@, elapsed.nanos()),
    {
        let mut remaining = match self.repeat_remaining {
            None => {
                return;
            },
            Some(r) => r,
        };
        let mut left = elapsed;
        let mut repeats: usize = 0;
        let ghost start = self@;
        while left.at_least(remaining) && repeats < MAX_REPEATS_PER_UPDATE
            invariant
                self.wf(),
                start == old(self)@,
                repeats <= 8,
                update_state(start, elapsed.nanos()) == repeat_loop(
                    self@,
                    left.nanos(),
                    remaining.nanos(),
                    repeats as nat,
                ),
                self@.interval == start.interval,
                self@.directions == start.directions,
                self@.axis == start.axis,
                self@.most_recent == start.most_recent,
                self@.repeat_remaining == start.repeat_remaining,
            decreases 8 - repeats,
        {
            let ghost before = self@;
            let direction = match self.active() {
                None => {
                    self.repeat_remaining = None;
                    assert(self@ =~= (InputState { repeat_remaining: None, ..before }));
                    return;
                },
                Some(d) => d,
            };
            left = left.saturating_sub(remaining);
            self.push(InputAction::Move(direction), true);
            remaining = self.repeat_timing.interval;
            repeats = repeats + 1;
        }
        self.repeat_remaining = Some(remaining.saturating_sub(left));
    }

    /// Removes and returns the pending events, oldest first.
    pub fn drain_events(&mut self) -> (events: Vec<ActionEvent>)
        requires
            old(self).wf(),
        ensures
            final(self).wf(),
            events@ == old(self)@.events,
            final(self)@ == (InputState { events: Seq::empty(), ..old(self)@ }),
    {
        let mut drained = Vec::new();
        std::mem::swap(&mut drained, &mut self.events);
        assert(self@ =~= (InputState { events: Seq::empty(), ..old(self)@ }));
        drained
    }

    pub fn next_repeat_in(&self) -> (remaining: Option<Duration>)
        ensures
            match remaining {
                Some(d) => self@.repeat_remaining == Some(d.nanos()),
                None => self@.repeat_remaining.is_none(),
            },
    {
        self.repeat_remaining
    }

    /// Releases every control and discards pending events.
    pub fn clear(&mut self)
        requires
            old(self).wf(),
        ensures
            final(self).wf(),
            final(self)@ == cleared_state(old(self)@),
    {
        self.digital_directions = [false, false, false, false];
        self.buttons = [false, false, false, false];
        self.menu = false;
        self.most_recent_direction = None;
        self.axis_direction = None;
        self.repeat_remaining = None;
        self.events = Vec::new();
        assert(self@ =~= cleared_state(old(self)@));
    }

    fn release_most_recent(&mut self)
        requires
            old(self).wf(),
        ensures
            final(self).wf(),
            final(self)@ == fall_back(old(self)@),
    {
        self.most_recent_direction = None;
        self.repeat_remaining = if self.active().is_some() {
            Some(self.repeat_timing.interval)
        } else {
            None
        };
        assert(self@ =~= fall_back(old(self)@));
    }

    fn set_direction(&mut self, direction: Direction, pressed: bool)
        requires
            old(self).wf(),
        ensures
            final(self).wf(),
            final(self)@ == set_direction_state(old(self)@, direction, pressed),
    {
        let index = direction_index(direction);
        if self.digital_directions[index] == pressed {
            return;
        }
        let was_held = self.is_direction_held(direction);
        self.digital_directions[index] = pressed;
        if pressed {
            self.most_recent_direction = Some(direction);
            self.repeat_remaining = Some(self.repeat_timing.initial_delay);
            if !was_held {
                self.push(InputAction::Move(direction), false);
            }
        } else if self.most_recent_direction == Some(direction) && !self.is_direction_held(direction) {
            self.release_most_recent();
        }
    }

    fn active(&self) -> (d: Option<Direction>)
        requires
            self.wf(),
        ensures
            d == active_direction(self@),
    {
        if let Some(d) = self.most_recent_direction {
            if self.is_direction_held(d) {
                return Some(d);
            }
        }
        if self.is_direction_held(Direction::North) {
            Some(Direction::North)
        } else if self.is_direction_held(Direction::East) {
            Some(Direction::East)
        } else if self.is_direction_held(Direction::South) {
            Some(Direction::South)
        } else if self.is_direction_held(Direction::West) {
            Some(Direction::West)
        } else {
            None
        }
    }

    fn is_direction_held(&self, direction: Direction) -> (held: bool)
        requires
            self.wf(),
        ensures
            held == is_held(self@, direction),
    {
        self.digital_directions[direction_index(direction)] || self.axis_direction == Some(direction)
    }

    fn push(&mut self, action: InputAction, repeated: bool)
        requires
            old(self).wf(),
        ensures
            final(self).wf(),
            final(self)@ == emit(old(self)@, action, repeated),
    {
        self.events.push(ActionEvent { action, repeated });
        assert(self@ =~= emit(old(self)@, action, repeated));
    }
}

} // verus!
