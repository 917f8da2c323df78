//! Host-independent pieces of the game clients: native input codes, control
//! prompts, and short player-facing descriptions.
use vstd::prelude::*;
use vstd::string::StringExecFns;

use crate::geometry::{abs_int, chebyshev_distance, distance_fits, ranged_distance, Direction, GridPos, TerrainKind};
use crate::content::{material_name, FormulaCondition};
use crate::input::{DigitalInput, GameplayButton, InputAction};
use crate::model::{ActionFailure, CombatMethod, EntityId, ItemKind, SimulationEvent, TransitionKind};
use crate::content::effect_name;
use crate::text::{
    append_chars, chars_of, decimal_digits, is_space, is_space_char, push_char, push_decimal,
    string_from_chars,
};

verus! {

/// The control a native host's input code stands for.
pub open spec fn decoded_input(code: u32) -> Option<DigitalInput> {
    if code == 0 {
        Some(DigitalInput::Move(Direction::North))
    } else if code == 1 {
        Some(DigitalInput::Move(Direction::East))
    } else if code == 2 {
        Some(DigitalInput::Move(Direction::South))
    } else if code == 3 {
        Some(DigitalInput::Move(Direction::West))
    } else if code == 4 {
        Some(DigitalInput::Button(GameplayButton::Primary))
    } else if code == 5 {
        Some(DigitalInput::Button(GameplayButton::Back))
    } else if code == 6 {
        Some(DigitalInput::Button(GameplayButton::Inspect))
    } else if code == 7 {
        Some(DigitalInput::Button(GameplayButton::Journal))
    } else if code == 8 {
        Some(DigitalInput::Menu)
    } else {
        None
    }
}

/// Decodes the input codes the native Apple host sends.
pub fn decode_input(input: u32) -> (decoded: Option<DigitalInput>)
    ensures
        decoded == decoded_input(input),
{
    match input {
        0 => Some(DigitalInput::Move(Direction::North)),
        1 => Some(DigitalInput::Move(Direction::East)),
        2 => Some(DigitalInput::Move(Direction::South)),
        3 => Some(DigitalInput::Move(Direction::West)),
        4 => Some(DigitalInput::Button(GameplayButton::Primary)),
        5 => Some(DigitalInput::Button(GameplayButton::Back)),
        6 => Some(DigitalInput::Button(GameplayButton::Inspect)),
        7 => Some(DigitalInput::Button(GameplayButton::Journal)),
        8 => Some(DigitalInput::Menu),
        _ => None,
    }
}

/// The labels a host shows for its controls.
#[derive(Clone, Copy, Debug)]
pub struct InputPrompts {
    pub movement: &'static str,
    pub vertical_navigation: &'static str,
    pub primary: &'static str,
    pub back: &'static str,
    pub inspect: &'static str,
    pub journal: &'static str,
    pub menu: &'static str,
}

impl InputPrompts {
    /// Prompts for the desktop keyboard bindings.
    pub fn desktop_keyboard() -> (prompts: Self)
        ensures
            prompts.movement@ == "WASD / ARROWS"@,
            prompts.vertical_navigation@ == "W / S / UP / DOWN"@,
            prompts.primary@ == "E / ENTER"@,
            prompts.back@ == "ESC"@,
            prompts.inspect@ == "X / L"@,
            prompts.journal@ == "J"@,
            prompts.menu@ == "P"@,
    {
        InputPrompts {
            movement: "WASD / ARROWS",
            vertical_navigation: "W / S / UP / DOWN",
            primary: "E / ENTER",
            back: "ESC",
            inspect: "X / L",
            journal: "J",
            menu: "P",
        }
    }

    pub fn legend(self) -> (s: String)
        ensures
            s@ == "MOVE  "@ + self.movement@ + "\nACT / ATTACK / STAIRS  "@ + self.primary@
                + "   INSPECT  "@ + self.inspect@ + "\nJOURNAL  "@ + self.journal@ + "   INVENTORY  "@
                + self.menu@,
    {
        let mut s = String::from_str("MOVE  ");
        s.append(self.movement);
        s.append("\nACT / ATTACK / STAIRS  ");
        s.append(self.primary);
        s.append("   INSPECT  ");
        s.append(self.inspect);
        s.append("\nJOURNAL  ");
        s.append(self.journal);
        s.append("   INVENTORY  ");
        s.append(self.menu);
        s
    }

    pub fn begin(self) -> (s: String)
        ensures
            s@ == "["@ + self.primary@ + "] BEGIN"@,
    {
        let mut s = String::from_str("[");
        s.append(self.primary);
        s.append("] BEGIN");
        s
    }

    pub fn close_journal(self) -> (s: String)
        ensures
            s@ == self.vertical_navigation@ + " PAGE   ["@ + self.inspect@ + "] REGIONAL SITUATIONS   ["@
                + self.journal@ + " / "@ + self.back@ + "] CLOSE"@,
    {
        let mut s = String::from_str(self.vertical_navigation);
        s.append(" PAGE   [");
        s.append(self.inspect);
        s.append("] REGIONAL SITUATIONS   [");
        s.append(self.journal);
        s.append(" / ");
        s.append(self.back);
        s.append("] CLOSE");
        s
    }

    pub fn region_help(self) -> (s: String)
        ensures
            s@ == self.vertical_navigation@ + " SITUATION   A / D RESPONSE   "@ + self.primary@
                + " TRACK / RESOLVE   "@ + self.inspect@ + " JOURNAL   "@ + self.back@ + " CLOSE"@,
    {
        let mut s = String::from_str(self.vertical_navigation);
        s.append(" SITUATION   A / D RESPONSE   ");
        s.append(self.primary);
        s.append(" TRACK / RESOLVE   ");
        s.append(self.inspect);
        s.append(" JOURNAL   ");
        s.append(self.back);
        s.append(" CLOSE");
        s
    }

    pub fn conversation_help(self) -> (s: String)
        ensures
            s@ == self.vertical_navigation@ + " CHOOSE   "@ + self.primary@ + " ASK   "@ + self.back@
                + " LEAVE"@,
    {
        let mut s = String::from_str(self.vertical_navigation);
        s.append(" CHOOSE   ");
        s.append(self.primary);
        s.append(" ASK   ");
        s.append(self.back);
        s.append(" LEAVE");
        s
    }

    pub fn inventory_help(self) -> (s: String)
        ensures
            s@ == self.vertical_navigation@ + " CHOOSE   A / D AMOUNT   "@ + self.primary@
                + " EQUIP / USE   "@ + self.inspect@ + " DROP   "@ + self.back@ + " / "@ + self.menu@
                + " CLOSE"@,
    {
        let mut s = String::from_str(self.vertical_navigation);
        s.append(" CHOOSE   A / D AMOUNT   ");
        s.append(self.primary);
        s.append(" EQUIP / USE   ");
        s.append(self.inspect);
        s.append(" DROP   ");
        s.append(self.back);
        s.append(" / ");
        s.append(self.menu);
        s.append(" CLOSE");
        s
    }

    pub fn trade_help(self) -> (s: String)
        ensures
            s@ == self.vertical_navigation@ + " CHOOSE   A / D AMOUNT   "@ + self.inspect@
                + " BUY / SELL   "@ + self.primary@ + " TRADE   "@ + self.back@ + " CLOSE"@,
    {
        let mut s = String::from_str(self.vertical_navigation);
        s.append(" CHOOSE   A / D AMOUNT   ");
        s.append(self.inspect);
        s.append(" BUY / SELL   ");
        s.append(self.primary);
        s.append(" TRADE   ");
        s.append(self.back);
        s.append(" CLOSE");
        s
    }

    pub fn container_help(self) -> (s: String)
        ensures
            s@ == self.vertical_navigation@ + " CHOOSE   A / D AMOUNT   "@ + self.inspect@
                + " CONTENTS / PACK   "@ + self.primary@ + " MOVE   "@ + self.back@ + " CLOSE"@,
    {
        let mut s = String::from_str(self.vertical_navigation);
        s.append(" CHOOSE   A / D AMOUNT   ");
        s.append(self.inspect);
        s.append(" CONTENTS / PACK   ");
        s.append(self.primary);
        s.append(" MOVE   ");
        s.append(self.back);
        s.append(" CLOSE");
        s
    }

    pub fn targeting_help(self) -> (s: String)
        ensures
            s@ == self.movement@ + " AIM   "@ + self.primary@ + " FIRE   "@ + self.back@ + " CANCEL"@,
    {
        let mut s = String::from_str(self.movement);
        s.append(" AIM   ");
        s.append(self.primary);
        s.append(" FIRE   ");
        s.append(self.back);
        s.append(" CANCEL");
        s
    }

    pub fn resolution_help(self) -> (s: String)
        ensures
            s@ == self.vertical_navigation@ + " CHOOSE   "@ + self.primary@ + " COMMIT   "@ + self.back@
                + " LEAVE"@,
    {
        let mut s = String::from_str(self.vertical_navigation);
        s.append(" CHOOSE   ");
        s.append(self.primary);
        s.append(" COMMIT   ");
        s.append(self.back);
        s.append(" LEAVE");
        s
    }

    pub fn resolution_continue(self) -> (s: String)
        ensures
            s@ == "["@ + self.primary@ + "] RETURN TO TOWN"@,
    {
        let mut s = String::from_str("[");
        s.append(self.primary);
        s.append("] RETURN TO TOWN");
        s
    }
}

/// Distance for the ranged cursor: tiles in any direction, diagonals included.
pub fn ranged_grid_distance(first: GridPos, second: GridPos) -> (d: i32)
    requires
        distance_fits(first, second),
    ensures
        d == chebyshev_distance(first, second),
{
    ranged_distance(first, second)
}

/// The text with leading white space removed.
pub open spec fn trim_start(s: Seq<char>) -> Seq<char>
    decreases s.len(),
{
    if s.len() > 0 && is_space(s[0]) {
        trim_start(s.drop_first())
    } else {
        s
    }
}

/// The text with trailing white space removed.
pub open spec fn trim_end(s: Seq<char>) -> Seq<char>
    decreases s.len(),
{
    if s.len() > 0 && is_space(s.last()) {
        trim_end(s.drop_last())
    } else {
        s
    }
}

pub open spec fn trim(s: Seq<char>) -> Seq<char> {
    trim_end(trim_start(s))
}

/// `". "` starts at index `i`.
pub open spec fn sentence_break_at(s: Seq<char>, i: int) -> bool {
    0 <= i && i + 1 < s.len() && s[i] == '.' && s[i + 1] == ' '
}

/// The text before the first `". "`, or all of it when there is none.
pub open spec fn before_first_break(s: Seq<char>) -> Seq<char> {
    if exists|i: int| sentence_break_at(s, i) {
        let i = choose|i: int|
            sentence_break_at(s, i) && forall|j: int| 0 <= j < i ==> !sentence_break_at(s, j);
        s.subrange(0, i)
    } else {
        s
    }
}

/// The first sentence of a text, trimmed and ending in a period.
pub open spec fn first_sentence_of(text: Seq<char>) -> Seq<char> {
    let sentence = trim(before_first_break(text));
    if sentence.len() > 0 && sentence.last() != '.' {
        sentence.push('.')
    } else {
        sentence
    }
}

pub(crate) proof fn lemma_trim_start_skip(s: Seq<char>, k: int)
    requires
        0 <= k <= s.len(),
        forall|j: int| 0 <= j < k ==> is_space(s[j]),
    ensures
        trim_start(s) == trim_start(s.subrange(k, s.len() as int)),
    decreases k,
{
    if k > 0 {
        assert(s.drop_first() =~= s.subrange(1, s.len() as int));
        lemma_trim_start_skip(s.drop_first(), k - 1);
        assert(s.drop_first().subrange(k - 1, s.drop_first().len() as int) =~= s.subrange(
            k,
            s.len() as int,
        ));
    } else {
        assert(s.subrange(0, s.len() as int) =~= s);
    }
}

proof fn lemma_trim_end_cut(s: Seq<char>, k: int)
    requires
        0 <= k <= s.len(),
        forall|j: int| k <= j < s.len() ==> is_space(s[j]),
    ensures
        trim_end(s) == trim_end(s.subrange(0, k)),
    decreases s.len() - k,
{
    if k < s.len() {
        assert(s.drop_last() =~= s.subrange(0, s.len() - 1));
        lemma_trim_end_cut(s.drop_last(), k);
        assert(s.drop_last().subrange(0, k) =~= s.subrange(0, k));
    } else {
        assert(s.subrange(0, k) =~= s);
    }
}

fn find_sentence_break(chars: &Vec<char>) -> (end: usize)
    ensures
        end <= chars@.len(),
        before_first_break(chars@) == chars@.subrange(0, end as int),
{
    let n = chars.len();
    let mut i: usize = 0;
    while i < n
        invariant
            n == chars@.len(),
            i <= n,
            forall|j: int| 0 <= j < i ==> !sentence_break_at(chars@, j),
        decreases n - i,
    {
        if i + 1 < n && chars[i] == '.' && chars[i + 1] == ' ' {
            proof {
                assert(sentence_break_at(chars@, i as int));
                let c = choose|c: int|
                    sentence_break_at(chars@, c) && forall|j: int|
                        0 <= j < c ==> !sentence_break_at(chars@, j);
                assert(c == i) by {
                    if c < i {
                    } else if c > i {
                    }
                }
            }
            return i;
        }
        i = i + 1;
    }
    proof {
        assert forall|j: int| !sentence_break_at(chars@, j) by {
            if sentence_break_at(chars@, j) {
                assert(j < i);
            }
        }
        assert(chars@.subrange(0, n as int) =~= chars@);
    }
    n
}

pub(crate) fn trimmed_range(chars: &Vec<char>, end: usize) -> (range: (usize, usize))
    requires
        end <= chars@.len(),
    ensures
        range.0 <= range.1 <= end,
        trim(chars@.subrange(0, end as int)) == chars@.subrange(range.0 as int, range.1 as int),
        range.0 < range.1 ==> !is_space(chars@[range.0 as int]),
{
    let n = chars.len();
    let mut start: usize = 0;
    while start < end && is_space_char(chars[start])
        invariant
            end <= n,
            n == chars@.len(),
            start <= end,
            forall|j: int| 0 <= j < start ==> is_space(chars@[j]),
        decreases end - start,
    {
        start = start + 1;
    }
    let mut stop: usize = end;
    while stop > start && is_space_char(chars[stop - 1])
        invariant
            end <= n,
            n == chars@.len(),
            start <= stop <= end,
            forall|j: int| stop <= j < end ==> is_space(chars@[j]),
        decreases stop - start,
    {
        stop = stop - 1;
    }
    proof {
        let p = chars@.subrange(0, end as int);
        let trimmed = chars@.subrange(start as int, stop as int);
        lemma_trim_start_skip(p, start as int);
        let q = p.subrange(start as int, end as int);
        assert(q =~= chars@.subrange(start as int, end as int));
        if start < stop {
            assert(!is_space(chars@[start as int]));
            assert(q[0] == chars@[start as int]);
            assert(trim_start(q) == q);
            lemma_trim_end_cut(q, (stop - start) as int);
            let t = q.subrange(0, (stop - start) as int);
            assert(t =~= trimmed);
            assert(t.last() == chars@[stop - 1]);
            assert(trim_end(t) == t);
        } else {
            assert forall|j: int| 0 <= j < q.len() implies is_space(q[j]) by {
                assert(q[j] == chars@[start + j]);
            }
            lemma_trim_start_skip(q, q.len() as int);
            assert(q.subrange(q.len() as int, q.len() as int) =~= Seq::<char>::empty());
            assert(trimmed =~= Seq::<char>::empty());
        }
    }
    (start, stop)
}

/// The first sentence of a text: everything before the first `". "`, trimmed of
/// white space, with a period added when it lacks one.
pub fn first_sentence(text: &str) -> (sentence: String)
    ensures
        sentence@ == first_sentence_of(text@),
{
    let chars = chars_of(text);
    let end = find_sentence_break(&chars);
    let (start, stop) = trimmed_range(&chars, end);
    let mut sentence = string_from_chars(chars.as_slice().split_at(stop).0.split_at(start).1);
    assert(sentence@ =~= chars@.subrange(start as int, stop as int));
    if stop > start && chars[stop - 1] != '.' {
        push_char(&mut sentence, '.');
    }
    sentence
}

/// Steps from the player to a target, such as "3E 2N", or "HERE".
pub open spec fn relative_steps_text(dx: int, dy: int) -> Seq<char> {
    let x_part = decimal_digits(crate::geometry::abs_int(dx) as nat) + if dx > 0 {
        seq!['E']
    } else {
        seq!['W']
    };
    let y_part = decimal_digits(crate::geometry::abs_int(dy) as nat) + if dy > 0 {
        seq!['S']
    } else {
        seq!['N']
    };
    if dx == 0 && dy == 0 {
        "HERE"@
    } else if dx == 0 {
        y_part
    } else if dy == 0 {
        x_part
    } else {
        x_part + seq![' '] + y_part
    }
}

fn abs_u64(v: i32) -> (a: u64)
    ensures
        a == crate::geometry::abs_int(v as int),
{
    if v < 0 {
        (-(v as i64)) as u64
    } else {
        v as u64
    }
}

pub fn relative_steps(dx: i32, dy: i32) -> (steps: String)
    ensures
        steps@ == relative_steps_text(dx as int, dy as int),
{
    if dx == 0 && dy == 0 {
        return String::from_str("HERE");
    }
    let mut s = String::new();
    if dx != 0 {
        push_decimal(&mut s, abs_u64(dx));
        push_char(&mut s, if dx > 0 { 'E' } else { 'W' });
    }
    if dy != 0 {
        if dx != 0 {
            push_char(&mut s, ' ');
        }
        push_decimal(&mut s, abs_u64(dy));
        push_char(&mut s, if dy > 0 { 'S' } else { 'N' });
    }
    proof {
        let x_part = decimal_digits(crate::geometry::abs_int(dx as int) as nat) + if dx > 0 {
            seq!['E']
        } else {
            seq!['W']
        };
        let y_part = decimal_digits(crate::geometry::abs_int(dy as int) as nat) + if dy > 0 {
            seq!['S']
        } else {
            seq!['N']
        };
        if dx != 0 && dy != 0 {
            assert(s@ =~= x_part + seq![' '] + y_part);
        } else if dx != 0 {
            assert(s@ =~= x_part);
        } else {
            assert(s@ =~= y_part);
        }
    }
    s
}

pub open spec fn direction_label(direction: Direction) -> Seq<char> {
    match direction {
        Direction::North => "north"@,
        Direction::East => "east"@,
        Direction::South => "south"@,
        Direction::West => "west"@,
    }
}

pub fn direction_name(direction: Direction) -> (name: &'static str)
    ensures
        name@ == direction_label(direction),
{
    match direction {
        Direction::North => "north",
        Direction::East => "east",
        Direction::South => "south",
        Direction::West => "west",
    }
}

pub open spec fn terrain_label(terrain: TerrainKind) -> Seq<char> {
    match terrain {
        TerrainKind::Grass => "grass"@,
        TerrainKind::Forest => "forest"@,
        TerrainKind::Hills => "hills"@,
        TerrainKind::Mountain => "mountains"@,
        TerrainKind::Sand => "sand"@,
        TerrainKind::Snow => "snow"@,
        TerrainKind::Swamp => "swamp"@,
        TerrainKind::Dirt => "bare earth"@,
        TerrainKind::Road => "road"@,
        TerrainKind::Ocean => "sea"@,
        TerrainKind::Water => "water"@,
        TerrainKind::Bridge => "bridge"@,
        TerrainKind::StoneFloor => "stone floor"@,
        TerrainKind::Wall => "wall"@,
        TerrainKind::Farmland => "cultivated field"@,
        TerrainKind::Rubble => "collapsed rubble"@,
        TerrainKind::StairsUp => "stairs leading upward"@,
        TerrainKind::StairsDown => "stairs leading downward"@,
    }
}

pub fn terrain_name(terrain: TerrainKind) -> (name: &'static str)
    ensures
        name@ == terrain_label(terrain),
{
    match terrain {
        TerrainKind::Grass => "grass",
        TerrainKind::Forest => "forest",
        TerrainKind::Hills => "hills",
        TerrainKind::Mountain => "mountains",
        TerrainKind::Sand => "sand",
        TerrainKind::Snow => "snow",
        TerrainKind::Swamp => "swamp",
        TerrainKind::Dirt => "bare earth",
        TerrainKind::Road => "road",
        TerrainKind::Ocean => "sea",
        TerrainKind::Water => "water",
        TerrainKind::Bridge => "bridge",
        TerrainKind::StoneFloor => "stone floor",
        TerrainKind::Wall => "wall",
        TerrainKind::Farmland => "cultivated field",
        TerrainKind::Rubble => "collapsed rubble",
        TerrainKind::StairsUp => "stairs leading upward",
        TerrainKind::StairsDown => "stairs leading downward",
    }
}

pub open spec fn landscape_label(terrain: TerrainKind) -> Seq<char> {
    match terrain {
        TerrainKind::Grass => "Grasslands"@,
        TerrainKind::Forest => "Deep Forest"@,
        TerrainKind::Hills => "Highlands"@,
        TerrainKind::Mountain => "Mountain Range"@,
        TerrainKind::Sand => "Coast or Drylands"@,
        TerrainKind::Snow => "Tundra"@,
        TerrainKind::Swamp => "Wetlands"@,
        TerrainKind::Road => "Regional Road"@,
        TerrainKind::Ocean => "Open Sea"@,
        TerrainKind::Water => "River or Lake"@,
        TerrainKind::Bridge => "River Crossing"@,
        TerrainKind::StoneFloor | TerrainKind::StairsUp => "Settlement"@,
        TerrainKind::Rubble => "Ruined Road"@,
        TerrainKind::Dirt | TerrainKind::Farmland => "Cultivated Lands"@,
        TerrainKind::Wall | TerrainKind::StairsDown => "Regional Wilds"@,
    }
}

/// The regional map's name for the landscape a terrain cell stands for.
pub fn regional_landscape_name(terrain: TerrainKind) -> (name: &'static str)
    ensures
        name@ == landscape_label(terrain),
{
    match terrain {
        TerrainKind::Grass => "Grasslands",
        TerrainKind::Forest => "Deep Forest",
        TerrainKind::Hills => "Highlands",
        TerrainKind::Mountain => "Mountain Range",
        TerrainKind::Sand => "Coast or Drylands",
        TerrainKind::Snow => "Tundra",
        TerrainKind::Swamp => "Wetlands",
        TerrainKind::Road => "Regional Road",
        TerrainKind::Ocean => "Open Sea",
        TerrainKind::Water => "River or Lake",
        TerrainKind::Bridge => "River Crossing",
        TerrainKind::StoneFloor | TerrainKind::StairsUp => "Settlement",
        TerrainKind::Rubble => "Ruined Road",
        TerrainKind::Dirt | TerrainKind::Farmland => "Cultivated Lands",
        TerrainKind::Wall | TerrainKind::StairsDown => "Regional Wilds",
    }
}

/// A calendar month is due once the turn count reaches the next month's turn.
pub fn calendar_month_due(turn: u64, next_month_turn: u64) -> (due: bool)
    ensures
        due == (turn >= next_month_turn),
{
    turn >= next_month_turn
}

/// The words of a text: maximal runs of non-white-space characters, in order.
pub open spec fn words(s: Seq<char>) -> Seq<Seq<char>>
    decreases s.len(),
{
    if s.len() == 0 {
        Seq::empty()
    } else {
        let previous = words(s.drop_last());
        let c = s.last();
        if is_space(c) {
            previous
        } else if s.len() >= 2 && !is_space(s[s.len() - 2]) {
            previous.update(previous.len() - 1, previous.last().push(c))
        } else {
            previous.push(seq![c])
        }
    }
}

/// Words joined by single spaces.
pub open spec fn join_words(ws: Seq<Seq<char>>) -> Seq<char>
    decreases ws.len(),
{
    if ws.len() == 0 {
        Seq::empty()
    } else if ws.len() == 1 {
        ws[0]
    } else {
        join_words(ws.drop_last()) + seq![' '] + ws.last()
    }
}

pub open spec fn is_terminal_punctuation(c: char) -> bool {
    c == '.' || c == '!' || c == '?'
}

/// The text without its trailing sentence punctuation.
pub open spec fn trim_terminal_punctuation(s: Seq<char>) -> Seq<char>
    decreases s.len(),
{
    if s.len() > 0 && is_terminal_punctuation(s.last()) {
        trim_terminal_punctuation(s.drop_last())
    } else {
        s
    }
}

/// The first `max_words` words of a notification, without closing punctuation,
/// marked with an ellipsis when words were left out.
pub open spec fn compact_text(text: Seq<char>, max_words: nat) -> Seq<char> {
    let ws = words(text);
    let kept = if ws.len() > max_words {
        ws.take(max_words as int)
    } else {
        ws
    };
    trim_terminal_punctuation(join_words(kept)) + if ws.len() > max_words {
        seq!['…']
    } else {
        Seq::<char>::empty()
    }
}

proof fn lemma_words_nonempty(s: Seq<char>)
    requires
        s.len() > 0,
        !is_space(s.last()),
    ensures
        words(s).len() > 0,
    decreases s.len(),
{
    if s.len() >= 2 && !is_space(s[s.len() - 2]) {
        lemma_words_nonempty(s.drop_last());
    }
}

spec fn word_views(ws: Seq<Vec<char>>) -> Seq<Seq<char>> {
    ws.map_values(|w: Vec<char>| w@)
}

fn split_words(chars: &Vec<char>) -> (ws: Vec<Vec<char>>)
    ensures
        word_views(ws@) == words(chars@),
{
    let n = chars.len();
    let mut ws: Vec<Vec<char>> = Vec::new();
    let mut i: usize = 0;
    while i < n
        invariant
            n == chars@.len(),
            i <= n,
            word_views(ws@) == words(chars@.subrange(0, i as int)),
        decreases n - i,
    {
        let c = chars[i];
        let ghost prefix = chars@.subrange(0, i as int);
        let ghost next = chars@.subrange(0, i + 1);
        assert(next.drop_last() =~= prefix);
        if is_space_char(c) {
        } else if i >= 1 && !is_space_char(chars[i - 1]) {
            proof {
                lemma_words_nonempty(prefix);
            }
            let mut last = ws.pop().unwrap();
            last.push(c);
            ws.push(last);
            assert(word_views(ws@) =~= words(prefix).update(
                words(prefix).len() - 1,
                words(prefix).last().push(c),
            ));
        } else {
            let mut word = Vec::new();
            word.push(c);
            ws.push(word);
            assert(word_views(ws@) =~= words(prefix).push(seq![c]));
        }
        i = i + 1;
    }
    assert(chars@.subrange(0, n as int) =~= chars@);
    ws
}

/// Shortens a notification to its first `max_words` words.
pub fn compact_notification(text: &str, max_words: usize) -> (compact: String)
    ensures
        compact@ == compact_text(text@, max_words as nat),
{
    let chars = chars_of(text);
    let ws = split_words(&chars);
    let count = if ws.len() > max_words {
        max_words
    } else {
        ws.len()
    };
    let ghost kept = words(text@).take(count as int);
    let mut joined: Vec<char> = Vec::new();
    let mut k: usize = 0;
    while k < count
        invariant
            count <= ws@.len(),
            word_views(ws@) == words(text@),
            k <= count,
            joined@ == join_words(words(text@).take(k as int)),
        decreases count - k,
    {
        let ghost before = words(text@).take(k as int);
        let ghost after = words(text@).take(k + 1);
        assert(after.drop_last() =~= before);
        if k > 0 {
            joined.push(' ');
        }
        let mut j: usize = 0;
        let ghost base = joined@;
        while j < ws[k].len()
            invariant
                k < ws@.len(),
                j <= ws@[k as int]@.len(),
                joined@ == base + ws@[k as int]@.subrange(0, j as int),
            decreases ws@[k as int]@.len() - j,
        {
            joined.push(ws[k][j]);
            j = j + 1;
            assert(joined@ =~= base + ws@[k as int]@.subrange(0, j as int));
        }
        assert(ws@[k as int]@.subrange(0, j as int) =~= ws@[k as int]@);
        assert(word_views(ws@)[k as int] == ws@[k as int]@);
        assert(after.last() == ws@[k as int]@);
        if k > 0 {
            assert(joined@ =~= join_words(before) + seq![' '] + after.last());
        } else {
            assert(joined@ =~= after.last());
        }
        k = k + 1;
    }
    let mut end = joined.len();
    assert(joined@.subrange(0, end as int) =~= joined@);
    while end > 0 && (joined[end - 1] == '.' || joined[end - 1] == '!' || joined[end - 1] == '?')
        invariant
            end <= joined@.len(),
            trim_terminal_punctuation(joined@) == trim_terminal_punctuation(
                joined@.subrange(0, end as int),
            ),
        decreases end,
    {
        assert(joined@.subrange(0, end as int).drop_last() =~= joined@.subrange(0, end - 1));
        end = end - 1;
    }
    assert(trim_terminal_punctuation(joined@.subrange(0, end as int)) == joined@.subrange(0, end as int));
    let mut compact = string_from_chars(joined.as_slice().split_at(end).0);
    if ws.len() > max_words {
        push_char(&mut compact, '…');
    }
    proof {
        if words(text@).len() <= max_words {
            assert(kept =~= words(text@));
        }
    }
    compact
}


/// The physical keys the desktop client binds; every other key is `Other`.
#[derive(Clone, Copy, Debug, PartialEq, Eq, Structural)]
pub enum KeyCode {
    ArrowUp,
    ArrowRight,
    ArrowDown,
    ArrowLeft,
    KeyW,
    KeyD,
    KeyS,
    KeyA,
    Enter,
    KeyE,
    Space,
    Escape,
    KeyQ,
    KeyX,
    KeyL,
    KeyJ,
    KeyP,
    Other,
}

/// The control a key stands for: arrows and WASD move; Enter, E and Space act;
/// Escape and Q go back; X and L inspect; J opens the journal; P the menu.
pub open spec fn key_binding(key: KeyCode) -> Option<DigitalInput> {
    match key {
        KeyCode::ArrowUp | KeyCode::KeyW => Some(DigitalInput::Move(Direction::North)),
        KeyCode::ArrowRight | KeyCode::KeyD => Some(DigitalInput::Move(Direction::East)),
        KeyCode::ArrowDown | KeyCode::KeyS => Some(DigitalInput::Move(Direction::South)),
        KeyCode::ArrowLeft | KeyCode::KeyA => Some(DigitalInput::Move(Direction::West)),
        KeyCode::Enter | KeyCode::KeyE | KeyCode::Space => Some(DigitalInput::Button(GameplayButton::Primary)),
        KeyCode::Escape | KeyCode::KeyQ => Some(DigitalInput::Button(GameplayButton::Back)),
        KeyCode::KeyX | KeyCode::KeyL => Some(DigitalInput::Button(GameplayButton::Inspect)),
        KeyCode::KeyJ => Some(DigitalInput::Button(GameplayButton::Journal)),
        KeyCode::KeyP => Some(DigitalInput::Menu),
        KeyCode::Other => None,
    }
}

/// Maps a key press to the device-neutral control it stands for.
pub fn keyboard_input(key: KeyCode) -> (input: Option<DigitalInput>)
    ensures
        input == key_binding(key),
{
    match key {
        KeyCode::ArrowUp | KeyCode::KeyW => Some(DigitalInput::Move(Direction::North)),
        KeyCode::ArrowRight | KeyCode::KeyD => Some(DigitalInput::Move(Direction::East)),
        KeyCode::ArrowDown | KeyCode::KeyS => Some(DigitalInput::Move(Direction::South)),
        KeyCode::ArrowLeft | KeyCode::KeyA => Some(DigitalInput::Move(Direction::West)),
        KeyCode::Enter | KeyCode::KeyE | KeyCode::Space => Some(DigitalInput::Button(GameplayButton::Primary)),
        KeyCode::Escape | KeyCode::KeyQ => Some(DigitalInput::Button(GameplayButton::Back)),
        KeyCode::KeyX | KeyCode::KeyL => Some(DigitalInput::Button(GameplayButton::Inspect)),
        KeyCode::KeyJ => Some(DigitalInput::Button(GameplayButton::Journal)),
        KeyCode::KeyP => Some(DigitalInput::Menu),
        KeyCode::Other => None,
    }
}


/// The name `derive(Debug)` gives each formula condition: its variant name.
pub open spec fn condition_variant(condition: FormulaCondition) -> Seq<char> {
    match condition {
        FormulaCondition::CleanWater => "CleanWater"@,
        FormulaCondition::DirectSunlight => "DirectSunlight"@,
        FormulaCondition::NightSky => "NightSky"@,
        FormulaCondition::ExistingFlame => "ExistingFlame"@,
    }
}

/// The sentence that tells the player why an action failed.
pub open spec fn failure_message(reason: ActionFailure) -> Seq<char> {
    match reason {
        ActionFailure::InvalidTarget => "There is no valid target."@,
        ActionFailure::OutOfRange => "The target is out of range."@,
        ActionFailure::LineBlocked => "Something blocks the shot."@,
        ActionFailure::NoWeapon => "No suitable weapon is equipped."@,
        ActionFailure::NoAmmunition => "You have no matching ammunition."@,
        ActionFailure::ItemNotCarried => "You are not carrying that item."@,
        ActionFailure::ItemCannotBeUsed => "That item cannot be used this way."@,
        ActionFailure::AlreadyAtFullHealth => "You are already at full health."@,
        ActionFailure::UnknownFormula => "You have not reconstructed that formula."@,
        ActionFailure::MissingReagent(material) => "The formula requires "@ + material_name(material) + "."@,
        ActionFailure::MagicalConditionUnmet(condition) => "The formula's "@ + condition_variant(condition)
            + " condition is not satisfied."@,
        ActionFailure::NoTransition => "There are no stairs or passage here."@,
        ActionFailure::QuestNotReady => "That quest cannot be completed here yet."@,
        ActionFailure::ExperimentFailed => "The reagents react, but no stable formula emerges under these conditions."@,
        ActionFailure::ContainerLocked => "The container is locked."@,
        ActionFailure::WrongKey => "That key does not fit the lock."@,
        ActionFailure::ContainerFull => "The container cannot hold any more."@,
        ActionFailure::NotAContainer => "That is not a usable container."@,
        ActionFailure::AlreadySatisfied => "You do not need that right now."@,
        ActionFailure::InvalidQuantity => "That stack does not contain that many."@,
    }
}

fn condition_variant_text(condition: FormulaCondition) -> (name: &'static str)
    ensures
        name@ == condition_variant(condition),
{
    match condition {
        FormulaCondition::CleanWater => "CleanWater",
        FormulaCondition::DirectSunlight => "DirectSunlight",
        FormulaCondition::NightSky => "NightSky",
        FormulaCondition::ExistingFlame => "ExistingFlame",
    }
}

fn framed(prefix: &str, middle: &str, suffix: &str) -> (text: String)
    ensures
        text@ == prefix@ + middle@ + suffix@,
{
    let mut text = prefix.to_owned();
    append_chars(&mut text, chars_of(middle).as_slice());
    append_chars(&mut text, chars_of(suffix).as_slice());
    text
}

/// Tells the player why an action failed.
pub fn action_failure_text(reason: ActionFailure) -> (text: String)
    ensures
        text@ == failure_message(reason),
{
    match reason {
        ActionFailure::InvalidTarget => "There is no valid target.".to_owned(),
        ActionFailure::OutOfRange => "The target is out of range.".to_owned(),
        ActionFailure::LineBlocked => "Something blocks the shot.".to_owned(),
        ActionFailure::NoWeapon => "No suitable weapon is equipped.".to_owned(),
        ActionFailure::NoAmmunition => "You have no matching ammunition.".to_owned(),
        ActionFailure::ItemNotCarried => "You are not carrying that item.".to_owned(),
        ActionFailure::ItemCannotBeUsed => "That item cannot be used this way.".to_owned(),
        ActionFailure::AlreadyAtFullHealth => "You are already at full health.".to_owned(),
        ActionFailure::UnknownFormula => "You have not reconstructed that formula.".to_owned(),
        ActionFailure::MissingReagent(material) => framed("The formula requires ", material.name(), "."),
        ActionFailure::MagicalConditionUnmet(condition) => framed(
            "The formula's ",
            condition_variant_text(condition),
            " condition is not satisfied.",
        ),
        ActionFailure::NoTransition => "There are no stairs or passage here.".to_owned(),
        ActionFailure::QuestNotReady => "That quest cannot be completed here yet.".to_owned(),
        ActionFailure::ExperimentFailed => "The reagents react, but no stable formula emerges under these conditions.".to_owned(),
        ActionFailure::ContainerLocked => "The container is locked.".to_owned(),
        ActionFailure::WrongKey => "That key does not fit the lock.".to_owned(),
        ActionFailure::ContainerFull => "The container cannot hold any more.".to_owned(),
        ActionFailure::NotAContainer => "That is not a usable container.".to_owned(),
        ActionFailure::AlreadySatisfied => "You do not need that right now.".to_owned(),
        ActionFailure::InvalidQuantity => "That stack does not contain that many.".to_owned(),
    }
}


/// The views of the desktop client.
#[derive(Clone, Copy, Debug, PartialEq, Eq, Structural)]
pub enum UiMode {
    Briefing,
    Exploration,
    Journal,
    Region,
    Inventory,
    Container,
    Trade,
    Conversation,
    Targeting,
    Resolution,
}

/// What the client carries out for one action; a step of `-1` or `1` moves a
/// selection or an amount back or forward.
#[derive(Clone, Copy, Debug, PartialEq, Eq, Structural)]
pub enum UiEffect {
    /// The action means nothing in this view.
    Ignored,
    /// Forget held controls; the view itself changes as the step says.
    ClearInput,
    /// Leave the briefing: forget held controls and note the start of the investigation.
    BeginInvestigation,
    TurnJournalPage(i8),
    OpenRegionView,
    /// Forget held controls and note that the journal closed.
    CloseJournal,
    SelectRegionalGoal(i8),
    SelectRegionalOption(i8),
    CommitRegionalGoal,
    SelectInventoryItem(i8),
    AdjustInventoryQuantity(i8),
    ActivateInventoryItem,
    DropInventoryItem,
    SelectContainerItem(i8),
    AdjustContainerQuantity(i8),
    SwitchContainerSide,
    TransferContainerItem,
    CloseContainer,
    SelectTradeItem(i8),
    AdjustTradeQuantity(i8),
    SwitchTradeDirection,
    ExecuteTrade,
    CloseTrade,
    SelectConversationTopic(i8),
    AskConversationTopic,
    CloseConversation,
    MoveTargetCursor(Direction),
    FireAtTargetCursor,
    CloseTargeting,
    SelectResolution(i8),
    CommitResolution,
    CloseResolution,
    /// Step the player; the flag is set for a fresh press rather than a repeat.
    MovePlayer(Direction, bool),
    Interact,
    TogglePause,
    OpenInventory,
    Inspect,
    /// Turn the journal to its first page and forget held controls.
    OpenJournal,
}

/// What an action does in each view: the view the client is in afterwards (as
/// far as this step decides it) and the effect it carries out. In the
/// resolution view, `resolved` tells whether the crisis already has an outcome.
pub open spec fn ui_step_spec(mode: UiMode, action: InputAction, repeated: bool, resolved: bool) -> (UiMode, UiEffect) {
    match mode {
            UiMode::Briefing => match action {
                InputAction::Button(GameplayButton::Primary) => (UiMode::Exploration, UiEffect::BeginInvestigation),
                InputAction::Button(GameplayButton::Back) => (UiMode::Exploration, UiEffect::BeginInvestigation),
                InputAction::Menu => (UiMode::Exploration, UiEffect::BeginInvestigation),
                _ => (mode, UiEffect::Ignored),
            },
            UiMode::Journal => match action {
                InputAction::Move(Direction::North) => (mode, UiEffect::TurnJournalPage(-1i8)),
                InputAction::Move(Direction::South) => (mode, UiEffect::TurnJournalPage(1i8)),
                InputAction::Button(GameplayButton::Inspect) => (mode, UiEffect::OpenRegionView),
                InputAction::Button(GameplayButton::Back) => (UiMode::Exploration, UiEffect::CloseJournal),
                InputAction::Button(GameplayButton::Journal) => (UiMode::Exploration, UiEffect::CloseJournal),
                InputAction::Menu => (UiMode::Exploration, UiEffect::CloseJournal),
                _ => (mode, UiEffect::Ignored),
            },
            UiMode::Region => match action {
                InputAction::Move(Direction::North) => (mode, UiEffect::SelectRegionalGoal(-1i8)),
                InputAction::Move(Direction::South) => (mode, UiEffect::SelectRegionalGoal(1i8)),
                InputAction::Move(Direction::West) => (mode, UiEffect::SelectRegionalOption(-1i8)),
                InputAction::Move(Direction::East) => (mode, UiEffect::SelectRegionalOption(1i8)),
                InputAction::Button(GameplayButton::Primary) => (mode, UiEffect::CommitRegionalGoal),
                InputAction::Button(GameplayButton::Inspect) => (UiMode::Journal, UiEffect::ClearInput),
                InputAction::Button(GameplayButton::Journal) => (UiMode::Journal, UiEffect::ClearInput),
                InputAction::Button(GameplayButton::Back) => (UiMode::Exploration, UiEffect::ClearInput),
                InputAction::Menu => (UiMode::Exploration, UiEffect::ClearInput),
                _ => (mode, UiEffect::Ignored),
            },
            UiMode::Inventory => match action {
                InputAction::Move(Direction::North) => (mode, UiEffect::SelectInventoryItem(-1i8)),
                InputAction::Move(Direction::South) => (mode, UiEffect::SelectInventoryItem(1i8)),
                InputAction::Move(Direction::West) => (mode, UiEffect::AdjustInventoryQuantity(-1i8)),
                InputAction::Move(Direction::East) => (mode, UiEffect::AdjustInventoryQuantity(1i8)),
                InputAction::Button(GameplayButton::Primary) => (mode, UiEffect::ActivateInventoryItem),
                InputAction::Button(GameplayButton::Inspect) => (mode, UiEffect::DropInventoryItem),
                InputAction::Button(GameplayButton::Back) => (UiMode::Exploration, UiEffect::ClearInput),
                InputAction::Menu => (UiMode::Exploration, UiEffect::ClearInput),
                _ => (mode, UiEffect::Ignored),
            },
            UiMode::Container => match action {
                InputAction::Move(Direction::North) => (mode, UiEffect::SelectContainerItem(-1i8)),
                InputAction::Move(Direction::South) => (mode, UiEffect::SelectContainerItem(1i8)),
                InputAction::Move(Direction::West) => (mode, UiEffect::AdjustContainerQuantity(-1i8)),
                InputAction::Move(Direction::East) => (mode, UiEffect::AdjustContainerQuantity(1i8)),
                InputAction::Button(GameplayButton::Inspect) => (mode, UiEffect::SwitchContainerSide),
                InputAction::Button(GameplayButton::Primary) => (mode, UiEffect::TransferContainerItem),
                InputAction::Button(GameplayButton::Back) => (mode, UiEffect::CloseContainer),
                InputAction::Menu => (mode, UiEffect::CloseContainer),
                _ => (mode, UiEffect::Ignored),
            },
            UiMode::Trade => match action {
                InputAction::Move(Direction::North) => (mode, UiEffect::SelectTradeItem(-1i8)),
                InputAction::Move(Direction::South) => (mode, UiEffect::SelectTradeItem(1i8)),
                InputAction::Move(Direction::West) => (mode, UiEffect::AdjustTradeQuantity(-1i8)),
                InputAction::Move(Direction::East) => (mode, UiEffect::AdjustTradeQuantity(1i8)),
                InputAction::Button(GameplayButton::Inspect) => (mode, UiEffect::SwitchTradeDirection),
                InputAction::Button(GameplayButton::Primary) => (mode, UiEffect::ExecuteTrade),
                InputAction::Button(GameplayButton::Back) => (mode, UiEffect::CloseTrade),
                InputAction::Menu => (mode, UiEffect::CloseTrade),
                _ => (mode, UiEffect::Ignored),
            },
            UiMode::Conversation => match action {
                InputAction::Move(Direction::North) => (mode, UiEffect::SelectConversationTopic(-1i8)),
                InputAction::Move(Direction::South) => (mode, UiEffect::SelectConversationTopic(1i8)),
                InputAction::Button(GameplayButton::Primary) => (mode, UiEffect::AskConversationTopic),
                InputAction::Button(GameplayButton::Back) => (mode, UiEffect::CloseConversation),
                InputAction::Menu => (mode, UiEffect::CloseConversation),
                _ => (mode, UiEffect::Ignored),
            },
            UiMode::Targeting => match action {
                InputAction::Move(direction) => (mode, UiEffect::MoveTargetCursor(direction)),
                InputAction::Button(GameplayButton::Primary) => (mode, UiEffect::FireAtTargetCursor),
                InputAction::Button(GameplayButton::Back) => (mode, UiEffect::CloseTargeting),
                InputAction::Menu => (mode, UiEffect::CloseTargeting),
                _ => (mode, UiEffect::Ignored),
            },
            UiMode::Resolution => if resolved {
                match action {
                    InputAction::Button(GameplayButton::Primary) => (mode, UiEffect::CloseResolution),
                    InputAction::Button(GameplayButton::Back) => (mode, UiEffect::CloseResolution),
                    InputAction::Menu => (mode, UiEffect::CloseResolution),
                    _ => (mode, UiEffect::Ignored),
                }
            } else {
                match action {
                    InputAction::Move(Direction::North) => (mode, UiEffect::SelectResolution(-1i8)),
                    InputAction::Move(Direction::South) => (mode, UiEffect::SelectResolution(1i8)),
                    InputAction::Button(GameplayButton::Primary) => (mode, UiEffect::CommitResolution),
                    InputAction::Button(GameplayButton::Back) => (mode, UiEffect::CloseResolution),
                    InputAction::Menu => (mode, UiEffect::CloseResolution),
                    _ => (mode, UiEffect::Ignored),
                }
            },
            UiMode::Exploration => match action {
                InputAction::Move(direction) => (mode, UiEffect::MovePlayer(direction, !repeated)),
                InputAction::Button(GameplayButton::Primary) => (mode, UiEffect::Interact),
                InputAction::Button(GameplayButton::Back) => (mode, UiEffect::TogglePause),
                InputAction::Menu => (mode, UiEffect::OpenInventory),
                InputAction::Button(GameplayButton::Inspect) => (mode, UiEffect::Inspect),
                InputAction::Button(GameplayButton::Journal) => (UiMode::Journal, UiEffect::OpenJournal),
            },
        }
}

/// Decides what one action does in the current view.
pub fn ui_step(mode: UiMode, action: InputAction, repeated: bool, resolved: bool) -> (step: (UiMode, UiEffect))
    ensures
        step == ui_step_spec(mode, action, repeated, resolved),
{
    match mode {
            UiMode::Briefing => match action {
                InputAction::Button(GameplayButton::Primary) => (UiMode::Exploration, UiEffect::BeginInvestigation),
                InputAction::Button(GameplayButton::Back) => (UiMode::Exploration, UiEffect::BeginInvestigation),
                InputAction::Menu => (UiMode::Exploration, UiEffect::BeginInvestigation),
                _ => (mode, UiEffect::Ignored),
            },
            UiMode::Journal => match action {
                InputAction::Move(Direction::North) => (mode, UiEffect::TurnJournalPage(-1i8)),
                InputAction::Move(Direction::South) => (mode, UiEffect::TurnJournalPage(1i8)),
                InputAction::Button(GameplayButton::Inspect) => (mode, UiEffect::OpenRegionView),
                InputAction::Button(GameplayButton::Back) => (UiMode::Exploration, UiEffect::CloseJournal),
                InputAction::Button(GameplayButton::Journal) => (UiMode::Exploration, UiEffect::CloseJournal),
                InputAction::Menu => (UiMode::Exploration, UiEffect::CloseJournal),
                _ => (mode, UiEffect::Ignored),
            },
            UiMode::Region => match action {
                InputAction::Move(Direction::North) => (mode, UiEffect::SelectRegionalGoal(-1i8)),
                InputAction::Move(Direction::South) => (mode, UiEffect::SelectRegionalGoal(1i8)),
                InputAction::Move(Direction::West) => (mode, UiEffect::SelectRegionalOption(-1i8)),
                InputAction::Move(Direction::East) => (mode, UiEffect::SelectRegionalOption(1i8)),
                InputAction::Button(GameplayButton::Primary) => (mode, UiEffect::CommitRegionalGoal),
                InputAction::Button(GameplayButton::Inspect) => (UiMode::Journal, UiEffect::ClearInput),
                InputAction::Button(GameplayButton::Journal) => (UiMode::Journal, UiEffect::ClearInput),
                InputAction::Button(GameplayButton::Back) => (UiMode::Exploration, UiEffect::ClearInput),
                InputAction::Menu => (UiMode::Exploration, UiEffect::ClearInput),
                _ => (mode, UiEffect::Ignored),
            },
            UiMode::Inventory => match action {
                InputAction::Move(Direction::North) => (mode, UiEffect::SelectInventoryItem(-1i8)),
                InputAction::Move(Direction::South) => (mode, UiEffect::SelectInventoryItem(1i8)),
                InputAction::Move(Direction::West) => (mode, UiEffect::AdjustInventoryQuantity(-1i8)),
                InputAction::Move(Direction::East) => (mode, UiEffect::AdjustInventoryQuantity(1i8)),
                InputAction::Button(GameplayButton::Primary) => (mode, UiEffect::ActivateInventoryItem),
                InputAction::Button(GameplayButton::Inspect) => (mode, UiEffect::DropInventoryItem),
                InputAction::Button(GameplayButton::Back) => (UiMode::Exploration, UiEffect::ClearInput),
                InputAction::Menu => (UiMode::Exploration, UiEffect::ClearInput),
                _ => (mode, UiEffect::Ignored),
            },
            UiMode::Container => match action {
                InputAction::Move(Direction::North) => (mode, UiEffect::SelectContainerItem(-1i8)),
                InputAction::Move(Direction::South) => (mode, UiEffect::SelectContainerItem(1i8)),
                InputAction::Move(Direction::West) => (mode, UiEffect::AdjustContainerQuantity(-1i8)),
                InputAction::Move(Direction::East) => (mode, UiEffect::AdjustContainerQuantity(1i8)),
                InputAction::Button(GameplayButton::Inspect) => (mode, UiEffect::SwitchContainerSide),
                InputAction::Button(GameplayButton::Primary) => (mode, UiEffect::TransferContainerItem),
                InputAction::Button(GameplayButton::Back) => (mode, UiEffect::CloseContainer),
                InputAction::Menu => (mode, UiEffect::CloseContainer),
                _ => (mode, UiEffect::Ignored),
            },
            UiMode::Trade => match action {
                InputAction::Move(Direction::North) => (mode, UiEffect::SelectTradeItem(-1i8)),
                InputAction::Move(Direction::South) => (mode, UiEffect::SelectTradeItem(1i8)),
                InputAction::Move(Direction::West) => (mode, UiEffect::AdjustTradeQuantity(-1i8)),
                InputAction::Move(Direction::East) => (mode, UiEffect::AdjustTradeQuantity(1i8)),
                InputAction::Button(GameplayButton::Inspect) => (mode, UiEffect::SwitchTradeDirection),
                InputAction::Button(GameplayButton::Primary) => (mode, UiEffect::ExecuteTrade),
                InputAction::Button(GameplayButton::Back) => (mode, UiEffect::CloseTrade),
                InputAction::Menu => (mode, UiEffect::CloseTrade),
                _ => (mode, UiEffect::Ignored),
            },
            UiMode::Conversation => match action {
                InputAction::Move(Direction::North) => (mode, UiEffect::SelectConversationTopic(-1i8)),
                InputAction::Move(Direction::South) => (mode, UiEffect::SelectConversationTopic(1i8)),
                InputAction::Button(GameplayButton::Primary) => (mode, UiEffect::AskConversationTopic),
                InputAction::Button(GameplayButton::Back) => (mode, UiEffect::CloseConversation),
                InputAction::Menu => (mode, UiEffect::CloseConversation),
                _ => (mode, UiEffect::Ignored),
            },
            UiMode::Targeting => match action {
                InputAction::Move(direction) => (mode, UiEffect::MoveTargetCursor(direction)),
                InputAction::Button(GameplayButton::Primary) => (mode, UiEffect::FireAtTargetCursor),
                InputAction::Button(GameplayButton::Back) => (mode, UiEffect::CloseTargeting),
                InputAction::Menu => (mode, UiEffect::CloseTargeting),
                _ => (mode, UiEffect::Ignored),
            },
            UiMode::Resolution => if resolved {
                match action {
                    InputAction::Button(GameplayButton::Primary) => (mode, UiEffect::CloseResolution),
                    InputAction::Button(GameplayButton::Back) => (mode, UiEffect::CloseResolution),
                    InputAction::Menu => (mode, UiEffect::CloseResolution),
                    _ => (mode, UiEffect::Ignored),
                }
            } else {
                match action {
                    InputAction::Move(Direction::North) => (mode, UiEffect::SelectResolution(-1i8)),
                    InputAction::Move(Direction::South) => (mode, UiEffect::SelectResolution(1i8)),
                    InputAction::Button(GameplayButton::Primary) => (mode, UiEffect::CommitResolution),
                    InputAction::Button(GameplayButton::Back) => (mode, UiEffect::CloseResolution),
                    InputAction::Menu => (mode, UiEffect::CloseResolution),
                    _ => (mode, UiEffect::Ignored),
                }
            },
            UiMode::Exploration => match action {
                InputAction::Move(direction) => (mode, UiEffect::MovePlayer(direction, !repeated)),
                InputAction::Button(GameplayButton::Primary) => (mode, UiEffect::Interact),
                InputAction::Button(GameplayButton::Back) => (mode, UiEffect::TogglePause),
                InputAction::Menu => (mode, UiEffect::OpenInventory),
                InputAction::Button(GameplayButton::Inspect) => (mode, UiEffect::Inspect),
                InputAction::Button(GameplayButton::Journal) => (UiMode::Journal, UiEffect::OpenJournal),
            },
        }
}


/// The decimal form of a signed number: a minus sign before the digits of a
/// negative one.
pub open spec fn signed_digits(n: int) -> Seq<char> {
    if n < 0 {
        seq!['-'] + decimal_digits((-n) as nat)
    } else {
        decimal_digits(n as nat)
    }
}

/// How the player's own blow is told.
pub open spec fn player_blow_verb(method: CombatMethod) -> Seq<char> {
    match method {
        CombatMethod::Melee => "strike"@,
        CombatMethod::Ranged => "hit"@,
        CombatMethod::Magic => "sear"@,
        CombatMethod::Retaliation => "retaliate against"@,
    }
}

/// How a blow against the player is told.
pub open spec fn foe_blow_verb(method: CombatMethod) -> Seq<char> {
    match method {
        CombatMethod::Melee => "strikes"@,
        CombatMethod::Ranged => "hits"@,
        CombatMethod::Magic => "sears"@,
        CombatMethod::Retaliation => "strikes"@,
    }
}

/// Consumables, food and drink: the items whose use the log reports.
pub open spec fn is_provision(kind: Option<ItemKind>) -> bool {
    match kind {
        Some(ItemKind::Consumable { .. }) | Some(ItemKind::Food { .. }) | Some(ItemKind::Drink { .. }) => true,
        _ => false,
    }
}

/// The message-log line for an event of the world, if it has one. `first`
/// names the event's first subject (the attacker, the defeated, the item, the
/// container, the formula, the healer or the quest) and `second` the other
/// party of a blow or a defeat. `kind` is the kind of the item the event
/// names, where that item still exists: a consumed item is told of only when
/// it is one of the player's own consumables, food or drink.
pub open spec fn event_text(
    event: SimulationEvent,
    player: EntityId,
    first: Seq<char>,
    second: Seq<char>,
    kind: Option<ItemKind>,
) -> Option<Seq<char>> {
    match event {
        SimulationEvent::Damaged { attacker, target, amount, remaining_health, method } => Some(
            if attacker == player {
                "You "@ + player_blow_verb(method) + " "@ + second + " for "@ + signed_digits(amount as int) + "; "@
                    + signed_digits(remaining_health as int) + " health remains."@
            } else if target == player {
                first + " "@ + foe_blow_verb(method) + " you for "@ + signed_digits(amount as int) + "; you have "@
                    + signed_digits(remaining_health as int) + " health."@
            } else {
                first + " hits "@ + second + " for "@ + signed_digits(amount as int) + "; "@ + signed_digits(
                    remaining_health as int,
                ) + " health remains."@
            },
        ),
        SimulationEvent::Defeated { entity, by } => Some(
            if entity == player {
                "You are defeated by "@ + second + "."@
            } else if by == player {
                first + " is defeated by you."@
            } else {
                first + " is defeated by "@ + second + "."@
            },
        ),
        SimulationEvent::ItemEquipped { owner, .. } => if owner == player {
            Some("You equip "@ + first + "."@)
        } else {
            None
        },
        SimulationEvent::ItemTransferred { to, .. } => if to == player {
            Some("You receive "@ + first + "."@)
        } else {
            None
        },
        SimulationEvent::ItemQuantityTransferred { quantity, to, .. } => if to == player {
            Some("You receive "@ + first + " x"@ + decimal_digits(quantity as nat) + "."@)
        } else {
            None
        },
        SimulationEvent::ItemConsumed { owner, remaining, .. } => if owner == player && is_provision(kind) {
            Some(first + ": "@ + decimal_digits(remaining as nat) + " remaining."@)
        } else {
            None
        },
        SimulationEvent::ContainerOpened { .. } => None,
        SimulationEvent::ContainerUnlocked { .. } => Some("You unlock the "@ + first + "."@),
        SimulationEvent::ItemDropped { .. } => Some("You drop "@ + first + "."@),
        SimulationEvent::ItemRead { newly_learned, .. } => Some(
            if newly_learned {
                "You read "@ + first + " and record what you learned."@
            } else {
                "You reread "@ + first + "."@
            },
        ),
        SimulationEvent::NeedsChanged { .. } => None,
        SimulationEvent::FormulaLearned { .. } => Some(
            "You reconstruct "@ + first + ". Its reagents and condition are now recorded."@,
        ),
        SimulationEvent::SpellCast { effect, .. } => Some("You perform "@ + first + ": "@ + effect_name(effect) + "."@),
        SimulationEvent::Healed { entity, amount, health } => if entity == player {
            Some("You recover "@ + signed_digits(amount as int) + " health and now have "@ + signed_digits(health as int) + "."@)
        } else {
            None
        },
        SimulationEvent::RevivedAtHealer { entity, health, .. } => if entity == player {
            Some("You awaken beside "@ + first + ", restored to "@ + signed_digits(health as int) + " health."@)
        } else {
            None
        },
        SimulationEvent::Traversed { kind, destination } => Some(
            "You "@ + match kind {
                TransitionKind::Descend => "descend"@,
                TransitionKind::Ascend => "ascend"@,
            } + " to depth "@ + decimal_digits(abs_int(destination.grid.z as int) as nat) + "."@,
        ),
        SimulationEvent::ExperienceGained { amount, total } => Some(
            "You gain "@ + decimal_digits(amount as nat) + " experience ("@ + decimal_digits(total as nat) + " total)."@,
        ),
        SimulationEvent::LevelGained { level, max_health, attack_bonus } => Some(
            "You reach level "@ + decimal_digits(level as nat) + ": health "@ + signed_digits(max_health as int)
                + ", attack bonus +"@ + signed_digits(attack_bonus as int) + "."@,
        ),
        SimulationEvent::QuestAdvanced { objective, .. } => Some(
            first + ": objective "@ + decimal_digits((objective + 1) as nat) + " completed."@,
        ),
        SimulationEvent::QuestReadyToTurnIn { .. } => Some(first + ": return to the quest giver."@),
        SimulationEvent::QuestCompleted { .. } => Some(first + " completed."@),
        SimulationEvent::ActionFailed(reason) => Some(failure_message(reason)),
    }
}

fn add_text(s: &mut String, t: &str)
    ensures
        final(s)@ == old(s)@ + t@,
{
    append_chars(s, chars_of(t).as_slice());
}

fn add_signed(s: &mut String, n: i32)
    ensures
        final(s)@ == old(s)@ + signed_digits(n as int),
{
    if n < 0 {
        push_char(s, '-');
        let magnitude = (0 - n as i64) as u64;
        push_decimal(s, magnitude);
        assert(s@ =~= old(s)@ + signed_digits(n as int));
    } else {
        push_decimal(s, n as u64);
    }
}

fn player_blow_word(method: CombatMethod) -> (word: &'static str)
    ensures
        word@ == player_blow_verb(method),
{
    match method {
        CombatMethod::Melee => "strike",
        CombatMethod::Ranged => "hit",
        CombatMethod::Magic => "sear",
        CombatMethod::Retaliation => "retaliate against",
    }
}

fn foe_blow_word(method: CombatMethod) -> (word: &'static str)
    ensures
        word@ == foe_blow_verb(method),
{
    match method {
        CombatMethod::Melee => "strikes",
        CombatMethod::Ranged => "hits",
        CombatMethod::Magic => "sears",
        CombatMethod::Retaliation => "strikes",
    }
}

/// The message-log line for an event, if it has one (see `event_text`).
#[verifier::rlimit(40)]
pub fn event_message(
    event: &SimulationEvent,
    player: EntityId,
    first: &str,
    second: &str,
    kind: Option<ItemKind>,
) -> (message: Option<String>)
    requires
        event matches SimulationEvent::QuestAdvanced { objective, .. } ==> objective < usize::MAX,
    ensures
        match event_text(*event, player, first@, second@, kind) {
            Some(text) => message matches Some(m) && m@ == text,
            None => message is None,
        },
{
    match *event {
        SimulationEvent::Damaged { attacker, target, amount, remaining_health, method } => {
            let mut s = String::new();
            if attacker == player {
                add_text(&mut s, "You ");
                add_text(&mut s, player_blow_word(method));
                add_text(&mut s, " ");
                add_text(&mut s, second);
                add_text(&mut s, " for ");
                add_signed(&mut s, amount as i32);
                add_text(&mut s, "; ");
                add_signed(&mut s, remaining_health as i32);
                add_text(&mut s, " health remains.");
            } else if target == player {
                add_text(&mut s, first);
                add_text(&mut s, " ");
                add_text(&mut s, foe_blow_word(method));
                add_text(&mut s, " you for ");
                add_signed(&mut s, amount as i32);
                add_text(&mut s, "; you have ");
                add_signed(&mut s, remaining_health as i32);
                add_text(&mut s, " health.");
            } else {
                add_text(&mut s, first);
                add_text(&mut s, " hits ");
                add_text(&mut s, second);
                add_text(&mut s, " for ");
                add_signed(&mut s, amount as i32);
                add_text(&mut s, "; ");
                add_signed(&mut s, remaining_health as i32);
                add_text(&mut s, " health remains.");
            }
            Some(s)
        },
        SimulationEvent::Defeated { entity, by } => {
            let mut s = String::new();
            if entity == player {
                add_text(&mut s, "You are defeated by ");
                add_text(&mut s, second);
                add_text(&mut s, ".");
            } else if by == player {
                add_text(&mut s, first);
                add_text(&mut s, " is defeated by you.");
            } else {
                add_text(&mut s, first);
                add_text(&mut s, " is defeated by ");
                add_text(&mut s, second);
                add_text(&mut s, ".");
            }
            Some(s)
        },
        SimulationEvent::ItemEquipped { owner, .. } => {
            if owner == player {
                let mut s = String::new();
                add_text(&mut s, "You equip ");
                add_text(&mut s, first);
                add_text(&mut s, ".");
                Some(s)
            } else {
                None
            }
        },
        SimulationEvent::ItemTransferred { to, .. } => {
            if to == player {
                let mut s = String::new();
                add_text(&mut s, "You receive ");
                add_text(&mut s, first);
                add_text(&mut s, ".");
                Some(s)
            } else {
                None
            }
        },
        SimulationEvent::ItemQuantityTransferred { quantity, to, .. } => {
            if to == player {
                let mut s = String::new();
                add_text(&mut s, "You receive ");
                add_text(&mut s, first);
                add_text(&mut s, " x");
                push_decimal(&mut s, quantity as u64);
                add_text(&mut s, ".");
                Some(s)
            } else {
                None
            }
        },
        SimulationEvent::ItemConsumed { owner, remaining, .. } => {
            let provision = match kind {
                Some(ItemKind::Consumable { .. }) | Some(ItemKind::Food { .. }) | Some(ItemKind::Drink { .. }) => true,
                _ => false,
            };
            if owner == player && provision {
                let mut s = String::new();
                add_text(&mut s, first);
                add_text(&mut s, ": ");
                push_decimal(&mut s, remaining as u64);
                add_text(&mut s, " remaining.");
                Some(s)
            } else {
                None
            }
        },
        SimulationEvent::ContainerOpened { .. } => None,
        SimulationEvent::ContainerUnlocked { .. } => {
            let mut s = String::new();
            add_text(&mut s, "You unlock the ");
            add_text(&mut s, first);
            add_text(&mut s, ".");
            Some(s)
        },
        SimulationEvent::ItemDropped { .. } => {
            let mut s = String::new();
            add_text(&mut s, "You drop ");
            add_text(&mut s, first);
            add_text(&mut s, ".");
            Some(s)
        },
        SimulationEvent::ItemRead { newly_learned, .. } => {
            let mut s = String::new();
            if newly_learned {
                add_text(&mut s, "You read ");
                add_text(&mut s, first);
                add_text(&mut s, " and record what you learned.");
            } else {
                add_text(&mut s, "You reread ");
                add_text(&mut s, first);
                add_text(&mut s, ".");
            }
            Some(s)
        },
        SimulationEvent::NeedsChanged { .. } => None,
        SimulationEvent::FormulaLearned { .. } => {
            let mut s = String::new();
            add_text(&mut s, "You reconstruct ");
            add_text(&mut s, first);
            add_text(&mut s, ". Its reagents and condition are now recorded.");
            Some(s)
        },
        SimulationEvent::SpellCast { effect, .. } => {
            let mut s = String::new();
            add_text(&mut s, "You perform ");
            add_text(&mut s, first);
            add_text(&mut s, ": ");
            add_text(&mut s, effect.name());
            add_text(&mut s, ".");
            Some(s)
        },
        SimulationEvent::Healed { entity, amount, health } => {
            if entity == player {
                let mut s = String::new();
                add_text(&mut s, "You recover ");
                add_signed(&mut s, amount as i32);
                add_text(&mut s, " health and now have ");
                add_signed(&mut s, health as i32);
                add_text(&mut s, ".");
                Some(s)
            } else {
                None
            }
        },
        SimulationEvent::RevivedAtHealer { entity, health, .. } => {
            if entity == player {
                let mut s = String::new();
                add_text(&mut s, "You awaken beside ");
                add_text(&mut s, first);
                add_text(&mut s, ", restored to ");
                add_signed(&mut s, health as i32);
                add_text(&mut s, " health.");
                Some(s)
            } else {
                None
            }
        },
        SimulationEvent::Traversed { kind, destination } => {
            let mut s = String::new();
            add_text(&mut s, "You ");
            add_text(
                &mut s,
                match kind {
                    TransitionKind::Descend => "descend",
                    TransitionKind::Ascend => "ascend",
                },
            );
            add_text(&mut s, " to depth ");
            let z = destination.grid.z as i64;
            let depth: u64 = if z < 0 {
                (0 - z) as u64
            } else {
                z as u64
            };
            push_decimal(&mut s, depth);
            add_text(&mut s, ".");
            Some(s)
        },
        SimulationEvent::ExperienceGained { amount, total } => {
            let mut s = String::new();
            add_text(&mut s, "You gain ");
            push_decimal(&mut s, amount as u64);
            add_text(&mut s, " experience (");
            push_decimal(&mut s, total as u64);
            add_text(&mut s, " total).");
            Some(s)
        },
        SimulationEvent::LevelGained { level, max_health, attack_bonus } => {
            let mut s = String::new();
            add_text(&mut s, "You reach level ");
            push_decimal(&mut s, level as u64);
            add_text(&mut s, ": health ");
            add_signed(&mut s, max_health as i32);
            add_text(&mut s, ", attack bonus +");
            add_signed(&mut s, attack_bonus as i32);
            add_text(&mut s, ".");
            Some(s)
        },
        SimulationEvent::QuestAdvanced { objective, .. } => {
            let mut s = String::new();
            add_text(&mut s, first);
            add_text(&mut s, ": objective ");
            push_decimal(&mut s, (objective + 1) as u64);
            add_text(&mut s, " completed.");
            Some(s)
        },
        SimulationEvent::QuestReadyToTurnIn { .. } => {
            let mut s = String::new();
            add_text(&mut s, first);
            add_text(&mut s, ": return to the quest giver.");
            Some(s)
        },
        SimulationEvent::QuestCompleted { .. } => {
            let mut s = String::new();
            add_text(&mut s, first);
            add_text(&mut s, " completed.");
            Some(s)
        },
        SimulationEvent::ActionFailed(reason) => Some(action_failure_text(reason)),
    }
}

} // verus!
