//! The lab's line protocol. A line is either a compact shell command
//! (`move west 12`) or a small JSON object (`{"command":"observe","radius":20}`);
//! both are read into a [`LabCommand`].
use vstd::prelude::*;

use crate::client::{lemma_trim_start_skip, trim, trim_start, trimmed_range};
use crate::content::FormulaId;
use crate::geometry::Direction;
use crate::lab::DEFAULT_SEED;
use crate::model::ItemId;
use crate::text::{
    append_chars, ascii_lower, ascii_lower_char, chars_of, is_space, is_space_char,
    string_from_chars,
};

verus! {

/// How a request for material aid was settled.
#[derive(Clone, Copy, Debug, PartialEq, Eq, Structural)]
pub enum AidResolutionKind {
    ReleasedByConsent,
    Purchased,
    TakenWithoutConsent,
    AlternativeTreatment,
}

/// One request of the lab protocol.
#[derive(Clone, Debug, PartialEq, Eq)]
pub enum LabCommand {
    Help,
    Reset { seed: u64 },
    Observe { radius: i32 },
    Metrics,
    World,
    Goals,
    Objectives,
    Move { direction: Direction, count: u32 },
    Wait { turns: u32 },
    Interact,
    Inspect,
    Study,
    Experiment { first: ItemId, second: ItemId },
    Cast { formula: FormulaId },
    Explore { turns: u32 },
    Goto { target: String, maximum_turns: u32 },
    PursueGoal { goal_index: usize, option_index: usize, maximum_turns: u32 },
    ResolveAid { approach: AidResolutionKind, maximum_turns: u32 },
    PlaySlice { resolution_index: usize, maximum_turns: u32 },
    Quit,
}

/// A [`LabCommand`] with its landmark name taken as a character sequence.
pub enum CommandView {
    Help,
    Reset { seed: u64 },
    Observe { radius: i32 },
    Metrics,
    World,
    Goals,
    Objectives,
    Move { direction: Direction, count: u32 },
    Wait { turns: u32 },
    Interact,
    Inspect,
    Study,
    Experiment { first: ItemId, second: ItemId },
    Cast { formula: FormulaId },
    Explore { turns: u32 },
    Goto { target: Seq<char>, maximum_turns: u32 },
    PursueGoal { goal_index: usize, option_index: usize, maximum_turns: u32 },
    ResolveAid { approach: AidResolutionKind, maximum_turns: u32 },
    PlaySlice { resolution_index: usize, maximum_turns: u32 },
    Quit,
}

impl View for LabCommand {
    type V = CommandView;

    open spec fn view(&self) -> CommandView {
        match self {
            LabCommand::Help => CommandView::Help,
            LabCommand::Reset { seed } => CommandView::Reset { seed: *seed },
            LabCommand::Observe { radius } => CommandView::Observe { radius: *radius },
            LabCommand::Metrics => CommandView::Metrics,
            LabCommand::World => CommandView::World,
            LabCommand::Goals => CommandView::Goals,
            LabCommand::Objectives => CommandView::Objectives,
            LabCommand::Move { direction, count } => CommandView::Move {
                direction: *direction,
                count: *count,
            },
            LabCommand::Wait { turns } => CommandView::Wait { turns: *turns },
            LabCommand::Interact => CommandView::Interact,
            LabCommand::Inspect => CommandView::Inspect,
            LabCommand::Study => CommandView::Study,
            LabCommand::Experiment { first, second } => CommandView::Experiment {
                first: *first,
                second: *second,
            },
            LabCommand::Cast { formula } => CommandView::Cast { formula: *formula },
            LabCommand::Explore { turns } => CommandView::Explore { turns: *turns },
            LabCommand::Goto { target, maximum_turns } => CommandView::Goto {
                target: target@,
                maximum_turns: *maximum_turns,
            },
            LabCommand::PursueGoal { goal_index, option_index, maximum_turns } =>
                CommandView::PursueGoal {
                goal_index: *goal_index,
                option_index: *option_index,
                maximum_turns: *maximum_turns,
            },
            LabCommand::ResolveAid { approach, maximum_turns } => CommandView::ResolveAid {
                approach: *approach,
                maximum_turns: *maximum_turns,
            },
            LabCommand::PlaySlice { resolution_index, maximum_turns } => CommandView::PlaySlice {
                resolution_index: *resolution_index,
                maximum_turns: *maximum_turns,
            },
            LabCommand::Quit => CommandView::Quit,
        }
    }
}

/// A parse result, with the command and the error message taken by their views.
pub open spec fn reply_view(reply: Result<LabCommand, String>) -> Result<CommandView, Seq<char>> {
    match reply {
        Ok(command) => Ok(command@),
        Err(message) => Err(message@),
    }
}

/// The `Debug` rendering of a string: the text in double quotes, with quotes,
/// backslashes and unprintable characters escaped.
pub uninterp spec fn debug_quoted(s: Seq<char>) -> Seq<char>;

/// Renders a string with `Debug` (`format!("{:?}", s)`); the result is named
/// [`debug_quoted`] of the text, and nothing more is claimed of its characters.
#[verifier::external_body]
fn debug_text(s: &str) -> (quoted: String)
    ensures
        quoted@ == debug_quoted(s@),
{
    format!("{:?}", s)
}

/// `prefix`, the quoted word, then `suffix`.
fn quoted_message(prefix: &str, word: &Vec<char>, suffix: &str) -> (message: String)
    ensures
        message@ == prefix@ + debug_quoted(word@) + suffix@,
{
        let text = string_from_chars(word.as_slice());
        let quoted = debug_text(text.as_str());
        framed_message(prefix, quoted.as_str(), suffix)
    }

    /// An error message around an already quoted word: `prefix`, `quoted`, then
    /// `suffix`, joined as they are.
    pub fn framed_message(prefix: &str, quoted: &str, suffix: &str) -> (message: String)
        ensures
            message@ == prefix@ + quoted@ + suffix@,
    {
        let mut message = prefix.to_owned();
        let quoted_chars = chars_of(quoted);
        append_chars(&mut message, quoted_chars.as_slice());
        let suffix_chars = chars_of(suffix);
        append_chars(&mut message, suffix_chars.as_slice());
        message
    }

// ---------------------------------------------------------------------------
// Words

/// ASCII lower-casing of a whole word.
pub open spec fn lowered(word: Seq<char>) -> Seq<char> {
    word.map_values(|c: char| ascii_lower(c))
}

/// One step of splitting on white space: the finished words and the word in progress.
pub open spec fn split_step(state: (Seq<Seq<char>>, Seq<char>), c: char) -> (
    Seq<Seq<char>>,
    Seq<char>,
) {
    if is_space(c) {
        if state.1.len() > 0 {
            (state.0.push(state.1), Seq::empty())
        } else {
            state
        }
    } else {
        (state.0, state.1.push(c))
    }
}

/// Splitting a text on white space, read from the left.
pub open spec fn split_scan(s: Seq<char>) -> (Seq<Seq<char>>, Seq<char>)
    decreases s.len(),
{
    if s.len() == 0 {
        (Seq::empty(), Seq::empty())
    } else {
        split_step(split_scan(s.drop_last()), s.last())
    }
}

/// The maximal runs of non-white-space characters of a text, in order.
pub open spec fn words_of(s: Seq<char>) -> Seq<Seq<char>> {
    let state = split_scan(s);
    if state.1.len() > 0 {
        state.0.push(state.1)
    } else {
        state.0
    }
}

/// Words joined with single spaces.
pub open spec fn joined(words: Seq<Seq<char>>) -> Seq<char>
    decreases words.len(),
{
    if words.len() == 0 {
        Seq::empty()
    } else if words.len() == 1 {
        words[0]
    } else {
        joined(words.drop_last()) + seq![' '] + words.last()
    }
}

fn split_words(s: &Vec<char>) -> (words: Vec<Vec<char>>)
    ensures
        words@.len() == words_of(s@).len(),
        forall|k: int| 0 <= k < words@.len() ==> (#[trigger] words@[k])@ == words_of(s@)[k],
{
    let n = s.len();
    let mut done: Vec<Vec<char>> = Vec::new();
    let mut current: Vec<char> = Vec::new();
    let mut i: usize = 0;
    while i < n
        invariant
            n == s@.len(),
            i <= n,
            done@.len() == split_scan(s@.take(i as int)).0.len(),
            forall|k: int|
                0 <= k < done@.len() ==> (#[trigger] done@[k])@ == split_scan(
                    s@.take(i as int),
                ).0[k],
            current@ == split_scan(s@.take(i as int)).1,
        decreases n - i,
    {
        proof {
            assert(s@.take(i + 1).drop_last() =~= s@.take(i as int));
            assert(s@.take(i + 1).last() == s@[i as int]);
        }
        let c = s[i];
        if is_space_char(c) {
            if current.len() > 0 {
                done.push(current);
                current = Vec::new();
                proof {
                    assert(current@ =~= Seq::<char>::empty());
                }
            }
        } else {
            current.push(c);
        }
        i = i + 1;
    }
    proof {
        assert(s@.take(n as int) =~= s@);
    }
    if current.len() > 0 {
        done.push(current);
    }
    done
}

fn join_words(words: &Vec<Vec<char>>, from: usize) -> (text: String)
    requires
        from <= words@.len(),
    ensures
        text@ == joined(words@.subrange(from as int, words@.len() as int).map_values(
            |w: Vec<char>| w@,
        )),
{
    let ghost views = words@.map_values(|w: Vec<char>| w@);
    let mut text = String::new();
    let mut i: usize = from;
    while i < words.len()
        invariant
            from <= i <= words@.len(),
            views == words@.map_values(|w: Vec<char>| w@),
            text@ == joined(views.subrange(from as int, i as int)),
        decreases words@.len() - i,
    {
        let ghost before = text@;
        if i > from {
            crate::text::push_char(&mut text, ' ');
        }
        append_chars(&mut text, words[i].as_slice());
        proof {
            let part = views.subrange(from as int, i + 1);
            assert(part.drop_last() =~= views.subrange(from as int, i as int));
            assert(part.last() == words@[i as int]@);
            if i == from {
                assert(part.len() == 1);
                assert(text@ =~= part[0]);
            } else {
                assert(text@ =~= joined(part.drop_last()) + seq![' '] + part.last());
            }
        }
        i = i + 1;
    }
    proof {
        assert(words@.subrange(from as int, words@.len() as int).map_values(|w: Vec<char>| w@)
            =~= views.subrange(from as int, words@.len() as int));
    }
    text
}

pub(crate) fn lower_word(word: &Vec<char>) -> (lower: Vec<char>)
    ensures
        lower@ == lowered(word@),
{
    let mut lower: Vec<char> = Vec::new();
    let mut i: usize = 0;
    while i < word.len()
        invariant
            i <= word@.len(),
            lower@ == lowered(word@.take(i as int)),
        decreases word@.len() - i,
    {
        lower.push(ascii_lower_char(word[i]));
        i = i + 1;
        assert(lower@ =~= lowered(word@.take(i as int)));
    }
    assert(word@.take(word@.len() as int) =~= word@);
    lower
}

/// Whether a word spells exactly the given text.
fn spells(word: &Vec<char>, text: &str) -> (same: bool)
    ensures
        same == (word@ == text@),
{
    let expected = chars_of(text);
    if word.len() != expected.len() {
        return false;
    }
    let mut i: usize = 0;
    while i < word.len()
        invariant
            i <= word@.len(),
            word@.len() == expected@.len(),
            expected@ == text@,
            forall|j: int| 0 <= j < i ==> word@[j] == expected@[j],
        decreases word@.len() - i,
    {
        if word[i] != expected[i] {
            return false;
        }
        i = i + 1;
    }
    assert(word@ =~= expected@);
    true
}

fn copy_range(chars: &Vec<char>, start: usize, end: usize) -> (part: Vec<char>)
    requires
        start <= end <= chars@.len(),
    ensures
        part@ == chars@.subrange(start as int, end as int),
{
    let mut part: Vec<char> = Vec::new();
    let mut i: usize = start;
    while i < end
        invariant
            start <= i <= end,
            end <= chars@.len(),
            part@ == chars@.subrange(start as int, i as int),
        decreases end - i,
    {
        part.push(chars[i]);
        i = i + 1;
        assert(part@ =~= chars@.subrange(start as int, i as int));
    }
    part
}

// ---------------------------------------------------------------------------
// Numbers

/// Why a text is not an unsigned integer of the wanted size.
#[derive(Clone, Copy, Debug, PartialEq, Eq, Structural)]
pub enum NumberError {
    Empty,
    InvalidDigit,
    PosOverflow,
}

/// The message that names each failure.
pub open spec fn number_error_message(error: NumberError) -> Seq<char> {
    match error {
        NumberError::Empty => "cannot parse integer from empty string"@,
        NumberError::InvalidDigit => "invalid digit found in string"@,
        NumberError::PosOverflow => "number too large to fit in target type"@,
    }
}

fn number_error_text(error: NumberError) -> (message: String)
    ensures
        message@ == number_error_message(error),
{
    match error {
        NumberError::Empty => "cannot parse integer from empty string".to_owned(),
        NumberError::InvalidDigit => "invalid digit found in string".to_owned(),
        NumberError::PosOverflow => "number too large to fit in target type".to_owned(),
    }
}

/// The value of one digit, in base 16 when `hex` and in base 10 otherwise.
pub open spec fn digit_value(c: char, hex: bool) -> Option<nat> {
    if '0' <= c && c <= '9' {
        Some(((c as int) - 48) as nat)
    } else if hex && 'a' <= c && c <= 'f' {
        Some(((c as int) - 87) as nat)
    } else if hex && 'A' <= c && c <= 'F' {
        Some(((c as int) - 55) as nat)
    } else {
        None
    }
}

/// The digits read from the left; the first bad digit or the first step past
/// `max` decides the error.
pub open spec fn accumulated(s: Seq<char>, hex: bool, max: nat) -> Result<nat, NumberError>
    decreases s.len(),
{
    if s.len() == 0 {
        Ok(0)
    } else {
        match accumulated(s.drop_last(), hex, max) {
            Err(error) => Err(error),
            Ok(value) => match digit_value(s.last(), hex) {
                None => Err(NumberError::InvalidDigit),
                Some(digit) => {
                    let next = if hex {
                        value * 16 + digit
                    } else {
                        value * 10 + digit
                    };
                    if next > max {
                        Err(NumberError::PosOverflow)
                    } else {
                        Ok(next)
                    }
                },
            },
        }
    }
}

/// An unsigned integer of at most `max`, with an optional leading `+`.
pub open spec fn unsigned_value(s: Seq<char>, hex: bool, max: nat) -> Result<nat, NumberError> {
    if s.len() == 0 {
        Err(NumberError::Empty)
    } else if s.len() == 1 && (s[0] == '+' || s[0] == '-') {
        Err(NumberError::InvalidDigit)
    } else if s[0] == '+' {
        accumulated(s.drop_first(), hex, max)
    } else {
        accumulated(s, hex, max)
    }
}

proof fn lemma_accumulated_error_stays(s: Seq<char>, hex: bool, max: nat, k: int, j: int)
    requires
        0 <= k <= j <= s.len(),
        accumulated(s.take(k), hex, max) is Err,
    ensures
        accumulated(s.take(j), hex, max) == accumulated(s.take(k), hex, max),
    decreases j - k,
{
    if j > k {
        lemma_accumulated_error_stays(s, hex, max, k, j - 1);
        assert(s.take(j).drop_last() =~= s.take(j - 1));
    }
}

fn digit_of(c: char, hex: bool) -> (digit: Option<u64>)
    ensures
        match digit_value(c, hex) {
            Some(d) => digit == Some(d as u64),
            None => digit is None,
        },
{
    if '0' <= c && c <= '9' {
        Some((c as u64) - 48)
    } else if hex && 'a' <= c && c <= 'f' {
        Some((c as u64) - 87)
    } else if hex && 'A' <= c && c <= 'F' {
        Some((c as u64) - 55)
    } else {
        None
    }
}

fn accumulate(digits: &Vec<char>, hex: bool, max: u64) -> (result: Result<u64, NumberError>)
    ensures
        match accumulated(digits@, hex, max as nat) {
            Ok(v) => result == Ok::<u64, NumberError>(v as u64),
            Err(e) => result == Err::<u64, NumberError>(e),
        },
{
    let n = digits.len();
    let mut value: u64 = 0;
    let mut i: usize = 0;
    while i < n
        invariant
            n == digits@.len(),
            i <= n,
            value <= max,
            accumulated(digits@.take(i as int), hex, max as nat) == Ok::<nat, NumberError>(
                value as nat,
            ),
        decreases n - i,
    {
        proof {
            assert(digits@.take(i + 1).drop_last() =~= digits@.take(i as int));
            assert(digits@.take(i + 1).last() == digits@[i as int]);
        }
        match digit_of(digits[i], hex) {
            None => {
                proof {
                    lemma_accumulated_error_stays(digits@, hex, max as nat, i + 1, n as int);
                    assert(digits@.take(n as int) =~= digits@);
                }
                return Err(NumberError::InvalidDigit);
            },
            Some(d) => {
                let base: u128 = if hex {
                    16
                } else {
                    10
                };
                let next: u128 = (value as u128) * base + (d as u128);
                if next > max as u128 {
                    proof {
                        lemma_accumulated_error_stays(digits@, hex, max as nat, i + 1, n as int);
                        assert(digits@.take(n as int) =~= digits@);
                    }
                    return Err(NumberError::PosOverflow);
                }
                value = next as u64;
            },
        }
        i = i + 1;
    }
    proof {
        assert(digits@.take(n as int) =~= digits@);
    }
    Ok(value)
}

fn parse_unsigned(text: &Vec<char>, hex: bool, max: u64) -> (result: Result<u64, NumberError>)
    ensures
        match unsigned_value(text@, hex, max as nat) {
            Ok(v) => result == Ok::<u64, NumberError>(v as u64),
            Err(e) => result == Err::<u64, NumberError>(e),
        },
{
    let n = text.len();
    if n == 0 {
        return Err(NumberError::Empty);
    }
    if n == 1 && (text[0] == '+' || text[0] == '-') {
        return Err(NumberError::InvalidDigit);
    }
    if text[0] == '+' {
        let body = copy_range(text, 1, n);
        assert(body@ =~= text@.drop_first());
        accumulate(&body, hex, max)
    } else {
        accumulate(text, hex, max)
    }
}

/// A word read as a `u64`: hexadecimal after a leading `0x`, decimal otherwise,
/// failing with the message of the first problem met.
pub open spec fn parsed_u64(word: Seq<char>) -> Result<u64, Seq<char>> {
    let value = if word.len() >= 2 && word[0] == '0' && word[1] == 'x' {
        unsigned_value(word.skip(2), true, u64::MAX as nat)
    } else {
        unsigned_value(word, false, u64::MAX as nat)
    };
    match value {
        Ok(v) => Ok(v as u64),
        Err(e) => Err(number_error_message(e)),
    }
}

fn parse_u64(word: &Vec<char>) -> (result: Result<u64, String>)
    ensures
        match result {
            Ok(v) => parsed_u64(word@) == Ok::<u64, Seq<char>>(v),
            Err(m) => parsed_u64(word@) == Err::<u64, Seq<char>>(m@),
        },
{
    let value = if word.len() >= 2 && word[0] == '0' && word[1] == 'x' {
        let digits = copy_range(word, 2, word.len());
        assert(digits@ =~= word@.skip(2));
        parse_unsigned(&digits, true, u64::MAX)
    } else {
        parse_unsigned(word, false, u64::MAX)
    };
    match value {
        Ok(v) => Ok(v),
        Err(e) => Err(number_error_text(e)),
    }
}

/// The `index`-th word read as a decimal `u32`, or `default` when it is missing
/// or is not one.
pub open spec fn word_number(words: Seq<Seq<char>>, index: int, default: u32) -> u32 {
    if 0 <= index < words.len() {
        match unsigned_value(words[index], false, u32::MAX as nat) {
            Ok(v) => v as u32,
            Err(_) => default,
        }
    } else {
        default
    }
}

fn number_at(words: &Vec<Vec<char>>, index: usize, default: u32) -> (n: u32)
    ensures
        n == word_number(words@.map_values(|w: Vec<char>| w@), index as int, default),
{
    let ghost views = words@.map_values(|w: Vec<char>| w@);
    if index < words.len() {
        assert(views[index as int] == words@[index as int]@);
        match parse_unsigned(&words[index], false, u32::MAX as u64) {
            Ok(v) => v as u32,
            Err(_) => default,
        }
    } else {
        default
    }
}

/// `value` limited to `low..=high`.
pub open spec fn clamped(value: int, low: int, high: int) -> int {
    if value < low {
        low
    } else if value > high {
        high
    } else {
        value
    }
}

fn clamp_u64(value: u64, low: u64, high: u64) -> (c: u64)
    requires
        low <= high,
    ensures
        c == clamped(value as int, low as int, high as int),
{
    if value < low {
        low
    } else if value > high {
        high
    } else {
        value
    }
}


// ---------------------------------------------------------------------------
// JSON fields

/// `pattern` stands in `s` at index `i`.
pub open spec fn occurs_at(s: Seq<char>, pattern: Seq<char>, i: int) -> bool {
    0 <= i && i + pattern.len() <= s.len() && s.subrange(i, i + pattern.len()) == pattern
}

/// The first index at or after `i` where `pattern` stands in `s`.
pub open spec fn find_from(s: Seq<char>, pattern: Seq<char>, i: int) -> Option<int>
    decreases s.len() + 1 - i,
{
    if i < 0 || i + pattern.len() > s.len() {
        None
    } else if occurs_at(s, pattern, i) {
        Some(i)
    } else {
        find_from(s, pattern, i + 1)
    }
}

fn stands_at(s: &Vec<char>, pattern: &Vec<char>, i: usize) -> (found: bool)
    requires
        i + pattern@.len() <= s@.len(),
    ensures
        found == occurs_at(s@, pattern@, i as int),
{
    let n = s.len();
    let mut j: usize = 0;
    while j < pattern.len()
        invariant
            n == s@.len(),
            j <= pattern@.len(),
            i + pattern@.len() <= s@.len(),
            forall|k: int| 0 <= k < j ==> s@[i + k] == pattern@[k],
        decreases pattern@.len() - j,
    {
        if s[i + j] != pattern[j] {
            proof {
                assert(s@.subrange(i as int, i + pattern@.len())[j as int] != pattern@[j as int]);
            }
            return false;
        }
        j = j + 1;
    }
    assert(s@.subrange(i as int, i + pattern@.len()) =~= pattern@);
    true
}

pub(crate) fn find_first(s: &Vec<char>, pattern: &Vec<char>) -> (found: Option<usize>)
    ensures
        match find_from(s@, pattern@, 0) {
            Some(i) => found == Some(i as usize) && occurs_at(s@, pattern@, i),
            None => found is None,
        },
{
    let n = s.len();
    if pattern.len() > n {
        return None;
    }
    if pattern.len() == 0 {
        assert(s@.subrange(0, 0) =~= pattern@);
        return Some(0);
    }
    let mut i: usize = 0;
    while i <= n - pattern.len()
        invariant
            n == s@.len(),
            0 < pattern@.len() <= s@.len(),
            i <= s@.len() - pattern@.len() + 1,
            find_from(s@, pattern@, 0) == find_from(s@, pattern@, i as int),
        decreases s@.len() - pattern@.len() + 1 - i,
    {
        if stands_at(s, pattern, i) {
            return Some(i);
        }
        i = i + 1;
    }
    None
}

fn quote_marker(field: &str) -> (marker: Vec<char>)
    ensures
        marker@ == seq!['"'] + field@ + seq!['"'],
{
    let name = chars_of(field);
    let mut marker: Vec<char> = Vec::new();
    marker.push('"');
    let mut i: usize = 0;
    while i < name.len()
        invariant
            i <= name@.len(),
            marker@ == seq!['"'] + name@.take(i as int),
        decreases name@.len() - i,
    {
        marker.push(name[i]);
        i = i + 1;
        assert(marker@ =~= seq!['"'] + name@.take(i as int));
    }
    marker.push('"');
    assert(name@.take(name@.len() as int) =~= name@);
    marker
}

fn skip_spaces(s: &Vec<char>) -> (rest: Vec<char>)
    ensures
        rest@ == trim_start(s@),
{
    let mut k: usize = 0;
    while k < s.len() && is_space_char(s[k])
        invariant
            k <= s@.len(),
            forall|j: int| 0 <= j < k ==> is_space(s@[j]),
        decreases s@.len() - k,
    {
        k = k + 1;
    }
    let rest = copy_range(s, k, s.len());
    proof {
        lemma_trim_start_skip(s@, k as int);
    }
    rest
}

/// What follows the first `"field"` and the first `:` after it, without its
/// leading white space.
pub open spec fn after_field(input: Seq<char>, field: Seq<char>) -> Option<Seq<char>> {
    let marker = seq!['"'] + field + seq!['"'];
    match find_from(input, marker, 0) {
        None => None,
        Some(i) => {
            let rest = input.skip(i + marker.len());
            match find_from(rest, seq![':'], 0) {
                None => None,
                Some(j) => Some(trim_start(rest.skip(j + 1))),
            }
        },
    }
}

/// The text of a string field: what lies between the opening quote after the
/// field's colon and the next quote.
pub open spec fn json_string_value(input: Seq<char>, field: Seq<char>) -> Option<Seq<char>> {
    match after_field(input, field) {
        None => None,
        Some(rest) => if rest.len() > 0 && rest[0] == '"' {
            let body = rest.drop_first();
            match find_from(body, seq!['"'], 0) {
                None => None,
                Some(k) => Some(body.take(k)),
            }
        } else {
            None
        },
    }
}

/// The number of leading ASCII digits.
pub open spec fn digit_run(s: Seq<char>) -> nat
    decreases s.len(),
{
    if s.len() > 0 && '0' <= s[0] && s[0] <= '9' {
        1 + digit_run(s.drop_first())
    } else {
        0
    }
}

/// The value of a number field: the ASCII digits after the field's colon, when
/// there are some and they fit in a `u64`.
pub open spec fn json_u64_value(input: Seq<char>, field: Seq<char>) -> Option<u64> {
    match after_field(input, field) {
        None => None,
        Some(rest) => {
            let digits = rest.take(digit_run(rest) as int);
            if digits.len() == 0 {
                None
            } else {
                match unsigned_value(digits, false, u64::MAX as nat) {
                    Ok(v) => Some(v as u64),
                    Err(_) => None,
                }
            }
        },
    }
}

proof fn lemma_digit_run(s: Seq<char>, k: int)
    requires
        0 <= k <= s.len(),
        forall|j: int| 0 <= j < k ==> '0' <= #[trigger] s[j] && s[j] <= '9',
        k == s.len() || !('0' <= s[k] && s[k] <= '9'),
    ensures
        digit_run(s) == k,
    decreases k,
{
    if k > 0 {
        let rest = s.drop_first();
        assert forall|j: int| 0 <= j < k - 1 implies '0' <= #[trigger] rest[j] && rest[j] <= '9' by {
            assert(rest[j] == s[j + 1]);
        }
        if k < s.len() {
            assert(rest[k - 1] == s[k]);
        }
        lemma_digit_run(rest, k - 1);
        assert('0' <= s[0]);
    }
}

fn field_rest(input: &Vec<char>, field: &str) -> (rest: Option<Vec<char>>)
    ensures
        match after_field(input@, field@) {
            Some(r) => rest matches Some(v) && v@ == r,
            None => rest is None,
        },
{
    let marker = quote_marker(field);
    match find_first(input, &marker) {
        None => None,
        Some(i) => {
            let n = input.len();
            let rest = copy_range(input, i + marker.len(), n);
            assert(rest@ =~= input@.skip(i + marker@.len()));
            let colon = vec![':'];
            assert(colon@ =~= seq![':']);
            match find_first(&rest, &colon) {
                None => None,
                Some(j) => {
                    let after = copy_range(&rest, j + 1, rest.len());
                    assert(after@ =~= rest@.skip(j + 1));
                    Some(skip_spaces(&after))
                },
            }
        },
    }
}

fn json_string_field(input: &Vec<char>, field: &str) -> (value: Option<Vec<char>>)
    ensures
        match json_string_value(input@, field@) {
            Some(v) => value matches Some(s) && s@ == v,
            None => value is None,
        },
{
    match field_rest(input, field) {
        None => None,
        Some(rest) => {
            if rest.len() > 0 && rest[0] == '"' {
                let body = copy_range(&rest, 1, rest.len());
                assert(body@ =~= rest@.drop_first());
                let quote = vec!['"'];
                assert(quote@ =~= seq!['"']);
                match find_first(&body, &quote) {
                    None => None,
                    Some(k) => {
                        let value = copy_range(&body, 0, k);
                        assert(value@ =~= body@.take(k as int));
                        Some(value)
                    },
                }
            } else {
                None
            }
        },
    }
}

fn json_u64_field(input: &Vec<char>, field: &str) -> (value: Option<u64>)
    ensures
        value == json_u64_value(input@, field@),
{
    match field_rest(input, field) {
        None => None,
        Some(rest) => {
            let mut k: usize = 0;
            while k < rest.len() && '0' <= rest[k] && rest[k] <= '9'
                invariant
                    k <= rest@.len(),
                    forall|j: int| 0 <= j < k ==> '0' <= #[trigger] rest@[j] && rest@[j] <= '9',
                decreases rest@.len() - k,
            {
                k = k + 1;
            }
            proof {
                lemma_digit_run(rest@, k as int);
            }
            if k == 0 {
                None
            } else {
                let digits = copy_range(&rest, 0, k);
                assert(digits@ =~= rest@.take(k as int));
                match parse_unsigned(&digits, false, u64::MAX) {
                    Ok(v) => Some(v),
                    Err(_) => None,
                }
            }
        },
    }
}

/// The number, or `default` when there is none.
pub open spec fn or_default(value: Option<u64>, default: u64) -> u64 {
    match value {
        Some(v) => v,
        None => default,
    }
}

fn unwrap_or_u64(value: Option<u64>, default: u64) -> (v: u64)
    ensures
        v == or_default(value, default),
{
    match value {
        Some(v) => v,
        None => default,
    }
}


// ---------------------------------------------------------------------------
// Commands

/// A direction word (`n`, `north`, `up`, ... in any ASCII case).
pub open spec fn direction_named(word: Seq<char>) -> Result<Direction, Seq<char>> {
    let name = lowered(word);
    if name == "n"@ || name == "north"@ || name == "up"@ {
        Ok(Direction::North)
    } else if name == "e"@ || name == "east"@ || name == "right"@ {
        Ok(Direction::East)
    } else if name == "s"@ || name == "south"@ || name == "down"@ {
        Ok(Direction::South)
    } else if name == "w"@ || name == "west"@ || name == "left"@ {
        Ok(Direction::West)
    } else {
        Err("invalid direction "@ + debug_quoted(word))
    }
}

/// An aid approach word (`consent`, `purchase`, `theft`, `alternative` and their
/// synonyms, in any ASCII case).
pub open spec fn aid_named(word: Seq<char>) -> Result<AidResolutionKind, Seq<char>> {
    let name = lowered(word);
    if name == "consent"@ || name == "appeal"@ || name == "persuade"@ {
        Ok(AidResolutionKind::ReleasedByConsent)
    } else if name == "purchase"@ || name == "buy"@ {
        Ok(AidResolutionKind::Purchased)
    } else if name == "theft"@ || name == "steal"@ || name == "take"@ {
        Ok(AidResolutionKind::TakenWithoutConsent)
    } else if name == "alternative"@ || name == "treatment"@ {
        Ok(AidResolutionKind::AlternativeTreatment)
    } else {
        Err(
            "invalid aid approach "@ + debug_quoted(word)
                + "; expected consent, purchase, theft, or alternative"@,
        )
    }
}

fn quoted_after(prefix: &str, word: &Vec<char>) -> (message: String)
    ensures
        message@ == prefix@ + debug_quoted(word@),
{
    let mut message = prefix.to_owned();
    let text = string_from_chars(word.as_slice());
    let quoted = debug_text(text.as_str());
    let quoted_chars = chars_of(quoted.as_str());
    append_chars(&mut message, quoted_chars.as_slice());
    message
}

fn parse_direction(word: &Vec<char>) -> (result: Result<Direction, String>)
    ensures
        match result {
            Ok(d) => direction_named(word@) == Ok::<Direction, Seq<char>>(d),
            Err(m) => direction_named(word@) == Err::<Direction, Seq<char>>(m@),
        },
{
    let name = lower_word(word);
    if spells(&name, "n") || spells(&name, "north") || spells(&name, "up") {
        Ok(Direction::North)
    } else if spells(&name, "e") || spells(&name, "east") || spells(&name, "right") {
        Ok(Direction::East)
    } else if spells(&name, "s") || spells(&name, "south") || spells(&name, "down") {
        Ok(Direction::South)
    } else if spells(&name, "w") || spells(&name, "west") || spells(&name, "left") {
        Ok(Direction::West)
    } else {
        Err(quoted_after("invalid direction ", word))
    }
}

fn parse_aid_approach(word: &Vec<char>) -> (result: Result<AidResolutionKind, String>)
    ensures
        match result {
            Ok(a) => aid_named(word@) == Ok::<AidResolutionKind, Seq<char>>(a),
            Err(m) => aid_named(word@) == Err::<AidResolutionKind, Seq<char>>(m@),
        },
{
    let name = lower_word(word);
    if spells(&name, "consent") || spells(&name, "appeal") || spells(&name, "persuade") {
        Ok(AidResolutionKind::ReleasedByConsent)
    } else if spells(&name, "purchase") || spells(&name, "buy") {
        Ok(AidResolutionKind::Purchased)
    } else if spells(&name, "theft") || spells(&name, "steal") || spells(&name, "take") {
        Ok(AidResolutionKind::TakenWithoutConsent)
    } else if spells(&name, "alternative") || spells(&name, "treatment") {
        Ok(AidResolutionKind::AlternativeTreatment)
    } else {
        Err(
            quoted_message(
                "invalid aid approach ",
                word,
                "; expected consent, purchase, theft, or alternative",
            ),
        )
    }
}

/// A shell command, given its words (at least one).
pub open spec fn shell_command(words: Seq<Seq<char>>) -> Result<CommandView, Seq<char>> {
    let name = lowered(words[0]);
    if name == "help"@ {
        Ok(CommandView::Help)
    } else if name == "reset"@ {
        if words.len() > 1 {
            match parsed_u64(words[1]) {
                Ok(seed) => Ok(CommandView::Reset { seed }),
                Err(m) => Err(m),
            }
        } else {
            Ok(CommandView::Reset { seed: DEFAULT_SEED })
        }
    } else if name == "observe"@ || name == "look"@ {
        Ok(CommandView::Observe { radius: clamped(word_number(words, 1, 12) as int, 2, 64) as i32 })
    } else if name == "metrics"@ {
        Ok(CommandView::Metrics)
    } else if name == "world"@ {
        Ok(CommandView::World)
    } else if name == "goals"@ {
        Ok(CommandView::Goals)
    } else if name == "objectives"@ || name == "quests"@ {
        Ok(CommandView::Objectives)
    } else if name == "move"@ {
        if words.len() > 1 {
            match direction_named(words[1]) {
                Ok(direction) => Ok(
                    CommandView::Move {
                        direction,
                        count: clamped(word_number(words, 2, 1) as int, 1, 10_000) as u32,
                    },
                ),
                Err(m) => Err(m),
            }
        } else {
            Err("move requires a direction"@)
        }
    } else if name == "wait"@ {
        Ok(CommandView::Wait { turns: clamped(word_number(words, 1, 1) as int, 1, 100_000) as u32 })
    } else if name == "interact"@ || name == "act"@ {
        Ok(CommandView::Interact)
    } else if name == "inspect"@ {
        Ok(CommandView::Inspect)
    } else if name == "study"@ {
        Ok(CommandView::Study)
    } else if name == "experiment"@ {
        if words.len() < 2 {
            Err("experiment requires two item ids"@)
        } else {
            match parsed_u64(words[1]) {
                Err(m) => Err(m),
                Ok(first) => if words.len() < 3 {
                    Err("experiment requires two item ids"@)
                } else {
                    match parsed_u64(words[2]) {
                        Err(m) => Err(m),
                        Ok(second) => Ok(
                            CommandView::Experiment { first: ItemId(first), second: ItemId(second) },
                        ),
                    }
                },
            }
        }
    } else if name == "cast"@ {
        Ok(CommandView::Cast { formula: FormulaId(word_number(words, 1, 1) as u64) })
    } else if name == "explore"@ || name == "autoplay"@ {
        Ok(
            CommandView::Explore {
                turns: clamped(word_number(words, 1, 500) as int, 1, 1_000_000) as u32,
            },
        )
    } else if name == "goto"@ {
        if words.len() > 1 {
            Ok(CommandView::Goto { target: joined(words.skip(1)), maximum_turns: 10_000 })
        } else {
            Err("goto requires a landmark name"@)
        }
    } else if name == "pursue"@ {
        Ok(
            CommandView::PursueGoal {
                goal_index: word_number(words, 1, 0) as usize,
                option_index: word_number(words, 2, 0) as usize,
                maximum_turns: 10_000,
            },
        )
    } else if name == "aid"@ {
        if words.len() > 1 {
            match aid_named(words[1]) {
                Ok(approach) => Ok(CommandView::ResolveAid { approach, maximum_turns: 10_000 }),
                Err(m) => Err(m),
            }
        } else {
            Err("aid requires consent, purchase, theft, or alternative"@)
        }
    } else if name == "slice"@ || name == "campaign"@ {
        Ok(
            CommandView::PlaySlice {
                resolution_index: word_number(words, 1, 0) as usize,
                maximum_turns: 10_000,
            },
        )
    } else if name == "quit"@ || name == "exit"@ {
        Ok(CommandView::Quit)
    } else {
        Err("unknown command "@ + debug_quoted(name))
    }
}

pub open spec fn word_views(words: Seq<Vec<char>>) -> Seq<Seq<char>> {
    words.map_values(|w: Vec<char>| w@)
}

#[verifier::rlimit(50)]
#[verifier::spinoff_prover]
fn parse_shell(words: &Vec<Vec<char>>) -> (reply: Result<LabCommand, String>)
    requires
        words@.len() > 0,
    ensures
        reply_view(reply) == shell_command(word_views(words@)),
{
    let ghost views = word_views(words@);
    assert(views[0] == words@[0]@);
    let name = lower_word(&words[0]);
    if spells(&name, "help") {
        Ok(LabCommand::Help)
    } else if spells(&name, "reset") {
        if words.len() > 1 {
            assert(views[1] == words@[1]@);
            match parse_u64(&words[1]) {
                Ok(seed) => Ok(LabCommand::Reset { seed }),
                Err(m) => Err(m),
            }
        } else {
            Ok(LabCommand::Reset { seed: DEFAULT_SEED })
        }
    } else if spells(&name, "observe") || spells(&name, "look") {
        let radius = clamp_u64(number_at(words, 1, 12) as u64, 2, 64);
        Ok(LabCommand::Observe { radius: radius as i32 })
    } else if spells(&name, "metrics") {
        Ok(LabCommand::Metrics)
    } else if spells(&name, "world") {
        Ok(LabCommand::World)
    } else if spells(&name, "goals") {
        Ok(LabCommand::Goals)
    } else if spells(&name, "objectives") || spells(&name, "quests") {
        Ok(LabCommand::Objectives)
    } else if spells(&name, "move") {
        if words.len() > 1 {
            assert(views[1] == words@[1]@);
            match parse_direction(&words[1]) {
                Ok(direction) => {
                    let count = clamp_u64(number_at(words, 2, 1) as u64, 1, 10_000);
                    Ok(LabCommand::Move { direction, count: count as u32 })
                },
                Err(m) => Err(m),
            }
        } else {
            Err("move requires a direction".to_owned())
        }
    } else if spells(&name, "wait") {
        let turns = clamp_u64(number_at(words, 1, 1) as u64, 1, 100_000);
        Ok(LabCommand::Wait { turns: turns as u32 })
    } else if spells(&name, "interact") || spells(&name, "act") {
        Ok(LabCommand::Interact)
    } else if spells(&name, "inspect") {
        Ok(LabCommand::Inspect)
    } else if spells(&name, "study") {
        Ok(LabCommand::Study)
    } else if spells(&name, "experiment") {
        if words.len() < 2 {
            Err("experiment requires two item ids".to_owned())
        } else {
            assert(views[1] == words@[1]@);
            match parse_u64(&words[1]) {
                Err(m) => Err(m),
                Ok(first) => {
                    if words.len() < 3 {
                        Err("experiment requires two item ids".to_owned())
                    } else {
                        assert(views[2] == words@[2]@);
                        match parse_u64(&words[2]) {
                            Err(m) => Err(m),
                            Ok(second) => Ok(
                                LabCommand::Experiment { first: ItemId(first), second: ItemId(second) },
                            ),
                        }
                    }
                },
            }
        }
    } else if spells(&name, "cast") {
        Ok(LabCommand::Cast { formula: FormulaId(number_at(words, 1, 1) as u64) })
    } else if spells(&name, "explore") || spells(&name, "autoplay") {
        let turns = clamp_u64(number_at(words, 1, 500) as u64, 1, 1_000_000);
        Ok(LabCommand::Explore { turns: turns as u32 })
    } else if spells(&name, "goto") {
        if words.len() > 1 {
            let target = join_words(words, 1);
            assert(words@.subrange(1, words@.len() as int).map_values(|w: Vec<char>| w@)
                =~= views.skip(1));
            Ok(LabCommand::Goto { target, maximum_turns: 10_000 })
        } else {
            Err("goto requires a landmark name".to_owned())
        }
    } else if spells(&name, "pursue") {
        let goal_index = number_at(words, 1, 0);
        let option_index = number_at(words, 2, 0);
        Ok(
            LabCommand::PursueGoal {
                goal_index: goal_index as usize,
                option_index: option_index as usize,
                maximum_turns: 10_000,
            },
        )
    } else if spells(&name, "aid") {
        if words.len() > 1 {
            assert(views[1] == words@[1]@);
            match parse_aid_approach(&words[1]) {
                Ok(approach) => Ok(LabCommand::ResolveAid { approach, maximum_turns: 10_000 }),
                Err(m) => Err(m),
            }
        } else {
            Err("aid requires consent, purchase, theft, or alternative".to_owned())
        }
    } else if spells(&name, "slice") || spells(&name, "campaign") {
        let index = number_at(words, 1, 0);
        Ok(LabCommand::PlaySlice { resolution_index: index as usize, maximum_turns: 10_000 })
    } else if spells(&name, "quit") || spells(&name, "exit") {
        Ok(LabCommand::Quit)
    } else {
        Err(quoted_after("unknown command ", &name))
    }
}


/// A JSON command, given the trimmed line.
pub open spec fn json_command(line: Seq<char>) -> Result<CommandView, Seq<char>> {
    match json_string_value(line, "command"@) {
        None => Err("JSON command requires a string \"command\" field"@),
        Some(command) => {
            let direction = json_string_value(line, "direction"@);
            let count = clamped(or_default(json_u64_value(line, "count"@), 1) as int, 1, 10_000) as u32;
            let turns = clamped(or_default(json_u64_value(line, "turns"@), 500) as int, 1, 1_000_000) as u32;
            let limit = clamped(
                or_default(json_u64_value(line, "maximum_turns"@), 10_000) as int,
                1,
                100_000,
            ) as u32;
            let name = lowered(command);
            if name == "help"@ {
                Ok(CommandView::Help)
            } else if name == "reset"@ {
                Ok(CommandView::Reset { seed: or_default(json_u64_value(line, "seed"@), DEFAULT_SEED) })
            } else if name == "observe"@ {
                Ok(
                    CommandView::Observe {
                        radius: clamped(or_default(json_u64_value(line, "radius"@), 12) as int, 2, 64) as i32,
                    },
                )
            } else if name == "metrics"@ {
                Ok(CommandView::Metrics)
            } else if name == "world"@ {
                Ok(CommandView::World)
            } else if name == "goals"@ {
                Ok(CommandView::Goals)
            } else if name == "objectives"@ || name == "quests"@ {
                Ok(CommandView::Objectives)
            } else if name == "move"@ {
                match direction {
                    None => Err("move requires \"direction\""@),
                    Some(word) => match direction_named(word) {
                        Ok(d) => Ok(CommandView::Move { direction: d, count }),
                        Err(m) => Err(m),
                    },
                }
            } else if name == "wait"@ {
                Ok(CommandView::Wait { turns })
            } else if name == "interact"@ || name == "act"@ {
                Ok(CommandView::Interact)
            } else if name == "inspect"@ {
                Ok(CommandView::Inspect)
            } else if name == "study"@ {
                Ok(CommandView::Study)
            } else if name == "experiment"@ {
                match json_u64_value(line, "first"@) {
                    None => Err("experiment requires \"first\" item id"@),
                    Some(first) => match json_u64_value(line, "second"@) {
                        None => Err("experiment requires \"second\" item id"@),
                        Some(second) => Ok(
                            CommandView::Experiment { first: ItemId(first), second: ItemId(second) },
                        ),
                    },
                }
            } else if name == "cast"@ {
                Ok(CommandView::Cast { formula: FormulaId(or_default(json_u64_value(line, "formula"@), 1)) })
            } else if name == "explore"@ || name == "autoplay"@ {
                Ok(CommandView::Explore { turns })
            } else if name == "goto"@ {
                match json_string_value(line, "target"@) {
                    None => Err("goto requires \"target\""@),
                    Some(target) => Ok(CommandView::Goto { target, maximum_turns: limit }),
                }
            } else if name == "pursue"@ {
                Ok(
                    CommandView::PursueGoal {
                        goal_index: or_default(json_u64_value(line, "goal_index"@), 0) as usize,
                        option_index: or_default(json_u64_value(line, "option_index"@), 0) as usize,
                        maximum_turns: limit,
                    },
                )
            } else if name == "aid"@ {
                match json_string_value(line, "approach"@) {
                    None => Err("aid requires string \"approach\""@),
                    Some(word) => match aid_named(word) {
                        Ok(approach) => Ok(CommandView::ResolveAid { approach, maximum_turns: limit }),
                        Err(m) => Err(m),
                    },
                }
            } else if name == "slice"@ || name == "campaign"@ {
                Ok(
                    CommandView::PlaySlice {
                        resolution_index: or_default(json_u64_value(line, "resolution_index"@), 0) as usize,
                        maximum_turns: limit,
                    },
                )
            } else if name == "quit"@ {
                Ok(CommandView::Quit)
            } else {
                Err("unknown JSON command "@ + debug_quoted(name))
            }
        },
    }
}

#[verifier::rlimit(50)]
#[verifier::spinoff_prover]
fn parse_json_command(line: &Vec<char>) -> (reply: Result<LabCommand, String>)
    ensures
        reply_view(reply) == json_command(line@),
{
    let command = match json_string_field(line, "command") {
        None => {
            return Err("JSON command requires a string \"command\" field".to_owned());
        },
        Some(command) => command,
    };
    let direction = json_string_field(line, "direction");
    let count = clamp_u64(unwrap_or_u64(json_u64_field(line, "count"), 1), 1, 10_000) as u32;
    let turns = clamp_u64(unwrap_or_u64(json_u64_field(line, "turns"), 500), 1, 1_000_000) as u32;
    let limit = clamp_u64(unwrap_or_u64(json_u64_field(line, "maximum_turns"), 10_000), 1, 100_000) as u32;
    let name = lower_word(&command);
    if spells(&name, "help") {
        Ok(LabCommand::Help)
    } else if spells(&name, "reset") {
        Ok(LabCommand::Reset { seed: unwrap_or_u64(json_u64_field(line, "seed"), DEFAULT_SEED) })
    } else if spells(&name, "observe") {
        let radius = clamp_u64(unwrap_or_u64(json_u64_field(line, "radius"), 12), 2, 64);
        Ok(LabCommand::Observe { radius: radius as i32 })
    } else if spells(&name, "metrics") {
        Ok(LabCommand::Metrics)
    } else if spells(&name, "world") {
        Ok(LabCommand::World)
    } else if spells(&name, "goals") {
        Ok(LabCommand::Goals)
    } else if spells(&name, "objectives") || spells(&name, "quests") {
        Ok(LabCommand::Objectives)
    } else if spells(&name, "move") {
        match direction {
            None => Err("move requires \"direction\"".to_owned()),
            Some(word) => match parse_direction(&word) {
                Ok(d) => Ok(LabCommand::Move { direction: d, count }),
                Err(m) => Err(m),
            },
        }
    } else if spells(&name, "wait") {
        Ok(LabCommand::Wait { turns })
    } else if spells(&name, "interact") || spells(&name, "act") {
        Ok(LabCommand::Interact)
    } else if spells(&name, "inspect") {
        Ok(LabCommand::Inspect)
    } else if spells(&name, "study") {
        Ok(LabCommand::Study)
    } else if spells(&name, "experiment") {
        match json_u64_field(line, "first") {
            None => Err("experiment requires \"first\" item id".to_owned()),
            Some(first) => match json_u64_field(line, "second") {
                None => Err("experiment requires \"second\" item id".to_owned()),
                Some(second) => Ok(
                    LabCommand::Experiment { first: ItemId(first), second: ItemId(second) },
                ),
            },
        }
    } else if spells(&name, "cast") {
        Ok(LabCommand::Cast { formula: FormulaId(unwrap_or_u64(json_u64_field(line, "formula"), 1)) })
    } else if spells(&name, "explore") || spells(&name, "autoplay") {
        Ok(LabCommand::Explore { turns })
    } else if spells(&name, "goto") {
        match json_string_field(line, "target") {
            None => Err("goto requires \"target\"".to_owned()),
            Some(target) => Ok(
                LabCommand::Goto { target: string_from_chars(target.as_slice()), maximum_turns: limit },
            ),
        }
    } else if spells(&name, "pursue") {
        let goal_index = unwrap_or_u64(json_u64_field(line, "goal_index"), 0);
        let option_index = unwrap_or_u64(json_u64_field(line, "option_index"), 0);
        Ok(
            LabCommand::PursueGoal {
                goal_index: goal_index as usize,
                option_index: option_index as usize,
                maximum_turns: limit,
            },
        )
    } else if spells(&name, "aid") {
        match json_string_field(line, "approach") {
            None => Err("aid requires string \"approach\"".to_owned()),
            Some(word) => match parse_aid_approach(&word) {
                Ok(approach) => Ok(LabCommand::ResolveAid { approach, maximum_turns: limit }),
                Err(m) => Err(m),
            },
        }
    } else if spells(&name, "slice") || spells(&name, "campaign") {
        let index = unwrap_or_u64(json_u64_field(line, "resolution_index"), 0);
        Ok(LabCommand::PlaySlice { resolution_index: index as usize, maximum_turns: limit })
    } else if spells(&name, "quit") {
        Ok(LabCommand::Quit)
    } else {
        Err(quoted_after("unknown JSON command ", &name))
    }
}

/// What a protocol line asks for: nothing but white space is an error; a line
/// whose first visible character is `{` is read as JSON; any other line is read
/// as a shell command from its words.
pub open spec fn parsed_command(line: Seq<char>) -> Result<CommandView, Seq<char>> {
    let trimmed = trim(line);
    if trimmed.len() == 0 {
        Err("empty command"@)
    } else if trimmed[0] == '{' {
        json_command(trimmed)
    } else {
        shell_command(words_of(trimmed))
    }
}

proof fn lemma_scan_holds_a_word(s: Seq<char>, k: int)
    requires
        1 <= k <= s.len(),
        !is_space(s[0]),
    ensures
        split_scan(s.take(k)).0.len() > 0 || split_scan(s.take(k)).1.len() > 0,
    decreases k,
{
    assert(s.take(k).drop_last() =~= s.take(k - 1));
    if k > 1 {
        lemma_scan_holds_a_word(s, k - 1);
    } else {
        assert(s.take(0) =~= Seq::<char>::empty());
    }
}

/// Reads one protocol line: a compact shell command such as `move west 12`, or
/// a JSON object such as `{"command":"observe","radius":20}`.
pub fn parse_command(line: &str) -> (reply: Result<LabCommand, String>)
    ensures
        reply_view(reply) == parsed_command(line@),
{
    let chars = chars_of(line);
    let (start, stop) = trimmed_range(&chars, chars.len());
    proof {
        assert(chars@.subrange(0, chars@.len() as int) =~= chars@);
    }
    if start == stop {
        return Err("empty command".to_owned());
    }
    let trimmed = copy_range(&chars, start, stop);
    if trimmed[0] == '{' {
        return parse_json_command(&trimmed);
    }
    let words = split_words(&trimmed);
    proof {
        lemma_scan_holds_a_word(trimmed@, trimmed@.len() as int);
        assert(trimmed@.take(trimmed@.len() as int) =~= trimmed@);
        assert(word_views(words@) =~= words_of(trimmed@));
    }
    parse_shell(&words)
}

} // verus!
