//! Development tools around the simulation: the line protocol's JSON
//! replies and the experience tracker that measures a play session.
use vstd::prelude::*;
use std::collections::BTreeSet;

use std::collections::BTreeMap;

use crate::geometry::{open_ground, Direction, GridPos, MapId, TerrainKind, WorldMap, WorldPosition};
use crate::model::{CommandOutcome, Entity, EntityKind, Landmark, SimulationEvent};
use crate::protocol::{find_first, find_from, lower_word, lowered};
use crate::simulation::{
    cell_open, direction_in_order, lemma_direction_in_order, lemma_distinct_cells_bounded, player_position, position_key, position_key_exec, step_from, still_standing, SimState,
    Simulation,
};
use crate::text::{append_chars, chars_of, string_from_chars};

verus! {

/// The campaign seed a fresh session starts from.
pub const DEFAULT_SEED: u64 = 0x55aa_2026;

/// Progress through the local objectives of a playable slice.
#[derive(Clone, Copy, Debug, Default, PartialEq, Eq, Structural)]
pub struct LocalObjectiveProgress {
    pub met_contact: bool,
    pub inspected_evidence: bool,
    pub questioned_factions: usize,
    pub crisis_resolved: bool,
    pub aftermath_complete: bool,
}

/// Unicode control characters (general category Cc).
pub open spec fn is_control(c: char) -> bool {
    (c as u32) <= 0x1f || (0x7f <= (c as u32) && (c as u32) <= 0x9f)
}

/// The lowercase hexadecimal digit of `d`.
pub open spec fn hex_digit(d: int) -> char {
    if d == 0 {
        '0'
    } else if d == 1 {
        '1'
    } else if d == 2 {
        '2'
    } else if d == 3 {
        '3'
    } else if d == 4 {
        '4'
    } else if d == 5 {
        '5'
    } else if d == 6 {
        '6'
    } else if d == 7 {
        '7'
    } else if d == 8 {
        '8'
    } else if d == 9 {
        '9'
    } else if d == 10 {
        'a'
    } else if d == 11 {
        'b'
    } else if d == 12 {
        'c'
    } else if d == 13 {
        'd'
    } else if d == 14 {
        'e'
    } else {
        'f'
    }
}

/// How one character is written inside a JSON string.
pub open spec fn escape_char(c: char) -> Seq<char> {
    if c == '"' {
        seq!['\\', '"']
    } else if c == '\\' {
        seq!['\\', '\\']
    } else if c == '\n' {
        seq!['\\', 'n']
    } else if c == '\r' {
        seq!['\\', 'r']
    } else if c == '\t' {
        seq!['\\', 't']
    } else if is_control(c) {
        let v = c as u32 as int;
        seq!['\\', 'u', '0', '0', hex_digit(v / 16), hex_digit(v % 16)]
    } else {
        seq![c]
    }
}

/// A text written as the contents of a JSON string.
pub open spec fn json_escaped(s: Seq<char>) -> Seq<char>
    decreases s.len(),
{
    if s.len() == 0 {
        Seq::empty()
    } else {
        json_escaped(s.drop_last()) + escape_char(s.last())
    }
}

/// The value of a hexadecimal digit, in either case.
pub open spec fn hex_value(c: char) -> Option<int> {
    let v = c as u32 as int;
    if 0x30 <= v <= 0x39 {
        Some(v - 0x30)
    } else if 0x61 <= v <= 0x66 {
        Some(v - 0x61 + 10)
    } else if 0x41 <= v <= 0x46 {
        Some(v - 0x41 + 10)
    } else {
        None
    }
}

/// The number four hexadecimal digits spell.
pub open spec fn hex4_value(a: char, b: char, c: char, d: char) -> Option<int> {
    match (hex_value(a), hex_value(b), hex_value(c), hex_value(d)) {
        (Some(w), Some(x), Some(y), Some(z)) => Some(((w * 16 + x) * 16 + y) * 16 + z),
        _ => None,
    }
}

/// The character a two-character JSON escape (a backslash, then `c`) stands for.
pub open spec fn short_escape(c: char) -> Option<char> {
    if c == '"' {
        Some('"')
    } else if c == '\\' {
        Some('\\')
    } else if c == '/' {
        Some('/')
    } else if c == 'b' {
        Some('\u{8}')
    } else if c == 'f' {
        Some('\u{c}')
    } else if c == 'n' {
        Some('\n')
    } else if c == 'r' {
        Some('\r')
    } else if c == 't' {
        Some('\t')
    } else {
        None
    }
}

/// JSON's reading of the contents of a string: `body`, read as what stands
/// between the quotes of a JSON string, is valid and stands for `text`. A raw
/// quote, a lone backslash, an unknown escape or a raw control character
/// makes it invalid.
pub open spec fn json_decodes(body: Seq<char>, text: Seq<char>) -> bool
    decreases body.len(),
{
    if body.len() == 0 {
        text.len() == 0
    } else if text.len() == 0 {
        false
    } else if body[0] == '\\' {
        if body.len() < 2 {
            false
        } else if body[1] == 'u' {
            body.len() >= 6 && hex4_value(body[2], body[3], body[4], body[5]) == Some(text[0] as u32 as int)
                && json_decodes(body.skip(6), text.skip(1))
        } else {
            short_escape(body[1]) == Some(text[0]) && json_decodes(body.skip(2), text.skip(1))
        }
    } else {
        body[0] != '"' && (body[0] as u32) >= 0x20 && text[0] == body[0] && json_decodes(body.skip(1), text.skip(1))
    }
}

/// Two valid pieces of a JSON string read as their texts joined.
pub proof fn lemma_decodes_joined(a: Seq<char>, x: Seq<char>, b: Seq<char>, y: Seq<char>)
    requires
        json_decodes(a, x),
        json_decodes(b, y),
    ensures
        json_decodes(a + b, x + y),
    decreases a.len(),
{
    if a.len() == 0 {
        assert(a + b =~= b);
        assert(x + y =~= y);
    } else {
        let n: int = if a[0] == '\\' {
            if a[1] == 'u' {
                6
            } else {
                2
            }
        } else {
            1
        };
        lemma_decodes_joined(a.skip(n), x.skip(1), b, y);
        assert((a + b).skip(n) =~= a.skip(n) + b);
        assert((x + y).skip(1) =~= x.skip(1) + y);
        assert((a + b)[0] == a[0]);
        assert((x + y)[0] == x[0]);
        if a[0] == '\\' {
            assert((a + b)[1] == a[1]);
            if a[1] == 'u' {
                assert((a + b)[2] == a[2]);
                assert((a + b)[3] == a[3]);
                assert((a + b)[4] == a[4]);
                assert((a + b)[5] == a[5]);
            }
        }
    }
}

/// A digit written by `hex_digit` reads back as its value.
proof fn lemma_hex_digit_read(d: int)
    requires
        0 <= d < 16,
    ensures
        hex_value(hex_digit(d)) == Some(d),
{
}

/// Each character, written as JSON writes it, reads back as itself.
pub proof fn lemma_escape_char_decodes(c: char)
    ensures
        json_decodes(escape_char(c), seq![c]),
{
    let one = seq![c];
    assert(one.skip(1) =~= Seq::<char>::empty());
    assert(json_decodes(Seq::<char>::empty(), Seq::<char>::empty()));
    let e = escape_char(c);
    if c == '"' || c == '\\' || c == '\n' || c == '\r' || c == '\t' {
        assert(e.skip(2) =~= Seq::<char>::empty());
    } else if is_control(c) {
        let v = c as u32 as int;
        lemma_hex_digit_read(v / 16);
        lemma_hex_digit_read(v % 16);
        assert(hex_value('0') == Some(0int));
        assert(e.skip(6) =~= Seq::<char>::empty());
        assert(hex4_value(e[2], e[3], e[4], e[5]) == Some(v));
    } else {
        assert(e.skip(1) =~= Seq::<char>::empty());
    }
}

fn hex_digit_exec(d: u32) -> (c: char)
    requires
        d < 16,
    ensures
        c == hex_digit(d as int),
{
    match d {
        0 => '0',
        1 => '1',
        2 => '2',
        3 => '3',
        4 => '4',
        5 => '5',
        6 => '6',
        7 => '7',
        8 => '8',
        9 => '9',
        10 => 'a',
        11 => 'b',
        12 => 'c',
        13 => 'd',
        14 => 'e',
        15 => 'f',
        _ => 'f',
    }
}

fn escape_one(c: char) -> (escaped: Vec<char>)
    ensures
        escaped@ == escape_char(c),
{
    let mut out: Vec<char> = Vec::new();
    if c == '"' {
        out.push('\\');
        out.push('"');
    } else if c == '\\' {
        out.push('\\');
        out.push('\\');
    } else if c == '\n' {
        out.push('\\');
        out.push('n');
    } else if c == '\r' {
        out.push('\\');
        out.push('r');
    } else if c == '\t' {
        out.push('\\');
        out.push('t');
    } else if (c as u32) <= 0x1f || (0x7f <= (c as u32) && (c as u32) <= 0x9f) {
        let v = c as u32;
        out.push('\\');
        out.push('u');
        out.push('0');
        out.push('0');
        out.push(hex_digit_exec(v / 16));
        out.push(hex_digit_exec(v % 16));
    } else {
        out.push(c);
    }
    assert(out@ =~= escape_char(c));
    out
}

/// Escapes quotes, backslashes and control characters for a JSON string.
pub fn json_escape(input: &str) -> (escaped: String)
    ensures
        escaped@ == json_escaped(input@),
{
    let chars = chars_of(input);
    let mut out: Vec<char> = Vec::new();
    let mut i: usize = 0;
    while i < chars.len()
        invariant
            i <= chars@.len(),
            chars@ == input@,
            out@ == json_escaped(chars@.subrange(0, i as int)),
        decreases chars@.len() - i,
    {
        let piece = escape_one(chars[i]);
        let mut j: usize = 0;
        let ghost before = out@;
        while j < piece.len()
            invariant
                j <= piece@.len(),
                out@ == before + piece@.subrange(0, j as int),
            decreases piece@.len() - j,
        {
            out.push(piece[j]);
            j = j + 1;
            assert(out@ =~= before + piece@.subrange(0, j as int));
        }
        proof {
            assert(piece@.subrange(0, piece@.len() as int) =~= piece@);
            assert(chars@.subrange(0, i + 1).drop_last() =~= chars@.subrange(0, i as int));
        }
        i = i + 1;
    }
    assert(chars@.subrange(0, chars@.len() as int) =~= chars@);
    string_from_chars(out.as_slice())
}

/// The protocol's help reply.
pub fn help_json() -> (help: String)
    ensures
        help@ == ("{\"ok\":true,\"type\":\"help\",\"commands\":[\"observe [radius]\",\"move <north|east|south|west> [count]\",\"interact\",\"wait [turns]\",\"explore [turns]\",\"metrics\",\"inspect\",\"study\",\"experiment <item id> <item id>\",\"cast [formula id]\",\"goto <landmark name>\",\"world\",\"goals\",\"pursue [goal index] [option index]\",\"objectives\",\"aid <consent|purchase|theft|alternative>\",\"slice [resolution index]\",\"reset [seed]\",\"quit\"],\"json_example\":{\"command\":\"move\",\"direction\":\"east\",\"count\":10}}")@,
{
    String::from_str(
        "{\"ok\":true,\"type\":\"help\",\"commands\":[\"observe [radius]\",\"move <north|east|south|west> [count]\",\"interact\",\"wait [turns]\",\"explore [turns]\",\"metrics\",\"inspect\",\"study\",\"experiment <item id> <item id>\",\"cast [formula id]\",\"goto <landmark name>\",\"world\",\"goals\",\"pursue [goal index] [option index]\",\"objectives\",\"aid <consent|purchase|theft|alternative>\",\"slice [resolution index]\",\"reset [seed]\",\"quit\"],\"json_example\":{\"command\":\"move\",\"direction\":\"east\",\"count\":10}}",
    )
}

/// The protocol's error reply carrying `error` as an escaped JSON string.
pub fn error_json(error: &str) -> (reply: String)
    ensures
        reply@ == "{\"ok\":false,\"error\":\""@ + json_escaped(error@) + "\"}"@,
{
    let mut reply = String::from_str("{\"ok\":false,\"error\":\"");
    let escaped = json_escape(error);
    let escaped_chars = chars_of(escaped.as_str());
    append_chars(&mut reply, escaped_chars.as_slice());
    let closing = chars_of("\"}");
    append_chars(&mut reply, closing.as_slice());
    reply
}

/// The glyph the text view draws for a terrain kind.
pub open spec fn glyph_of(terrain: TerrainKind) -> char {
    match terrain {
        TerrainKind::Grass => '.',
        TerrainKind::Forest => '"',
        TerrainKind::Hills => '^',
        TerrainKind::Mountain => 'M',
        TerrainKind::Sand => ':',
        TerrainKind::Snow => '*',
        TerrainKind::Swamp => ';',
        TerrainKind::Dirt => ',',
        TerrainKind::Road => '=',
        TerrainKind::Ocean => 'O',
        TerrainKind::Water => '~',
        TerrainKind::Bridge => '#',
        TerrainKind::StoneFloor => '_',
        TerrainKind::Wall => 'W',
        TerrainKind::Farmland => '%',
        TerrainKind::Rubble => 'x',
        TerrainKind::StairsUp => '<',
        TerrainKind::StairsDown => '>',
    }
}

pub fn terrain_glyph(terrain: TerrainKind) -> (glyph: char)
    ensures
        glyph == glyph_of(terrain),
{
    match terrain {
        TerrainKind::Grass => '.',
        TerrainKind::Forest => '"',
        TerrainKind::Hills => '^',
        TerrainKind::Mountain => 'M',
        TerrainKind::Sand => ':',
        TerrainKind::Snow => '*',
        TerrainKind::Swamp => ';',
        TerrainKind::Dirt => ',',
        TerrainKind::Road => '=',
        TerrainKind::Ocean => 'O',
        TerrainKind::Water => '~',
        TerrainKind::Bridge => '#',
        TerrainKind::StoneFloor => '_',
        TerrainKind::Wall => 'W',
        TerrainKind::Farmland => '%',
        TerrainKind::Rubble => 'x',
        TerrainKind::StairsUp => '<',
        TerrainKind::StairsDown => '>',
    }
}

/// The name the protocol uses for an entity kind.
pub fn entity_kind_name(kind: EntityKind) -> (name: &'static str)
    ensures
        name@ == match kind {
            EntityKind::Player => "player"@,
            EntityKind::Character => "character"@,
            EntityKind::Creature => "creature"@,
            EntityKind::Item => "item"@,
        },
{
    match kind {
        EntityKind::Player => "player",
        EntityKind::Character => "character",
        EntityKind::Creature => "creature",
        EntityKind::Item => "item",
    }
}

/// A number standing for a terrain kind, used to count the kinds seen.
pub open spec fn terrain_index(terrain: TerrainKind) -> u64 {
    match terrain {
        TerrainKind::Grass => 0,
        TerrainKind::Forest => 1,
        TerrainKind::Hills => 2,
        TerrainKind::Mountain => 3,
        TerrainKind::Sand => 4,
        TerrainKind::Snow => 5,
        TerrainKind::Swamp => 6,
        TerrainKind::Dirt => 7,
        TerrainKind::Road => 8,
        TerrainKind::Ocean => 9,
        TerrainKind::Water => 10,
        TerrainKind::Bridge => 11,
        TerrainKind::StoneFloor => 12,
        TerrainKind::Wall => 13,
        TerrainKind::Farmland => 14,
        TerrainKind::Rubble => 15,
        TerrainKind::StairsUp => 16,
        TerrainKind::StairsDown => 17,
    }
}

fn terrain_index_exec(terrain: TerrainKind) -> (index: u64)
    ensures
        index == terrain_index(terrain),
{
    match terrain {
        TerrainKind::Grass => 0,
        TerrainKind::Forest => 1,
        TerrainKind::Hills => 2,
        TerrainKind::Mountain => 3,
        TerrainKind::Sand => 4,
        TerrainKind::Snow => 5,
        TerrainKind::Swamp => 6,
        TerrainKind::Dirt => 7,
        TerrainKind::Road => 8,
        TerrainKind::Ocean => 9,
        TerrainKind::Water => 10,
        TerrainKind::Bridge => 11,
        TerrainKind::StoneFloor => 12,
        TerrainKind::Wall => 13,
        TerrainKind::Farmland => 14,
        TerrainKind::Rubble => 15,
        TerrainKind::StairsUp => 16,
        TerrainKind::StairsDown => 17,
    }
}

fn same_text(a: &str, b: &str) -> (same: bool)
    ensures
        same == (a@ == b@),
{
    let n = a.unicode_len();
    if n != b.unicode_len() {
        return false;
    }
    let mut i: usize = 0;
    while i < n
        invariant
            n == a@.len(),
            n == b@.len(),
            i <= n,
            forall|j: int| 0 <= j < i ==> a@[j] == b@[j],
        decreases n - i,
    {
        if a.get_char(i) != b.get_char(i) {
            return false;
        }
        i = i + 1;
    }
    assert(a@ =~= b@);
    true
}

/// Measures a play session: commands, turns, movement, discoveries and the
/// places and terrain the player has seen.
pub struct ExperienceTracker {
    commands: u64,
    time_advancing_turns: u64,
    successful_moves: u64,
    blocked_moves: u64,
    meaningful_events: u64,
    landmark_discoveries: u64,
    combat_events: u64,
    transitions: u64,
    local_npc_moves: u64,
    quiet_turns: u64,
    longest_quiet_stretch: u64,
    historical_events_at_start: usize,
    visited: BTreeSet<(u32, i32, i32, i16)>,
    terrain_seen: BTreeSet<u64>,
    discovered_landmarks: Vec<(WorldPosition, String)>,
    last_position: WorldPosition,
}

/// The abstract record of a tracker.
pub struct TrackerView {
    pub commands: u64,
    pub time_advancing_turns: u64,
    pub successful_moves: u64,
    pub blocked_moves: u64,
    pub local_npc_moves: u64,
    pub visited: Set<(u32, i32, i32, i16)>,
    pub discovered: Set<(WorldPosition, Seq<char>)>,
    pub last_position: WorldPosition,
    pub terrain_seen: Set<u64>,
    pub meaningful_events: u64,
    pub landmark_discoveries: u64,
    pub combat_events: u64,
    pub transitions: u64,
    pub quiet_turns: u64,
    pub longest_quiet_stretch: u64,
    pub historical_events_at_start: usize,
}

/// `a + n`, held at `u64::MAX`.
pub open spec fn add_capped(a: u64, n: nat) -> u64 {
    if a + n > u64::MAX {
        u64::MAX
    } else {
        (a + n) as u64
    }
}

/// How many of `events` are blows or defeats.
pub open spec fn combat_event_count(events: Seq<SimulationEvent>) -> nat
    decreases events.len(),
{
    if events.len() == 0 {
        0
    } else {
        combat_event_count(events.drop_last()) + if events.last() is Damaged || events.last() is Defeated {
            1nat
        } else {
            0nat
        }
    }
}

/// How many of `events` are passages to another map or level.
pub open spec fn traversal_count(events: Seq<SimulationEvent>) -> nat
    decreases events.len(),
{
    if events.len() == 0 {
        0
    } else {
        traversal_count(events.drop_last()) + if events.last() is Traversed {
            1nat
        } else {
            0nat
        }
    }
}

/// How many of `landmarks`, read in order, stand at `position` under a name not
/// yet among `discovered` nor among those read before them.
pub open spec fn fresh_landmarks(
    discovered: Set<(WorldPosition, Seq<char>)>,
    landmarks: Seq<crate::model::Landmark>,
    position: WorldPosition,
) -> nat
    decreases landmarks.len(),
{
    if landmarks.len() == 0 {
        0
    } else {
        let before = landmarks.drop_last();
        let l = landmarks.last();
        fresh_landmarks(discovered, before, position) + if l.position == position && !discovered.union(
            landmarks_at(before, position),
        ).contains((position, l.name@)) {
            1nat
        } else {
            0nat
        }
    }
}

proof fn lemma_fresh_landmarks_bounded(
    discovered: Set<(WorldPosition, Seq<char>)>,
    landmarks: Seq<crate::model::Landmark>,
    position: WorldPosition,
)
    ensures
        fresh_landmarks(discovered, landmarks, position) <= landmarks.len(),
    decreases landmarks.len(),
{
    if landmarks.len() > 0 {
        lemma_fresh_landmarks_bounded(discovered, landmarks.drop_last(), position);
    }
}

/// The named places recorded in `entries`.
pub open spec fn named_places(entries: Seq<(WorldPosition, String)>) -> Set<(WorldPosition, Seq<char>)> {
    Set::new(
        |d: (WorldPosition, Seq<char>)|
            exists|i: int| 0 <= i < entries.len() && entries[i].0 == d.0 && entries[i].1@ == d.1,
    )
}

proof fn lemma_named_places_push(entries: Seq<(WorldPosition, String)>, e: (WorldPosition, String))
    ensures
        named_places(entries.push(e)) == named_places(entries).insert((e.0, e.1@)),
{
    let a = named_places(entries.push(e));
    let b = named_places(entries).insert((e.0, e.1@));
    assert forall|d: (WorldPosition, Seq<char>)| a.contains(d) == b.contains(d) by {
        if a.contains(d) {
            let i = choose|i: int| 0 <= i < entries.push(e).len() && entries.push(e)[i].0 == d.0 && entries.push(e)[i].1@ == d.1;
            if i < entries.len() {
                assert(entries[i] == entries.push(e)[i]);
            }
        }
        if named_places(entries).contains(d) {
            let i = choose|i: int| 0 <= i < entries.len() && entries[i].0 == d.0 && entries[i].1@ == d.1;
            assert(entries.push(e)[i] == entries[i]);
        }
        if d == (e.0, e.1@) {
            assert(entries.push(e)[entries.len() as int] == e);
        }
    }
    assert(a =~= b);
}

impl View for ExperienceTracker {
    type V = TrackerView;

    closed spec fn view(&self) -> TrackerView {
        TrackerView {
            commands: self.commands,
            time_advancing_turns: self.time_advancing_turns,
            successful_moves: self.successful_moves,
            blocked_moves: self.blocked_moves,
            local_npc_moves: self.local_npc_moves,
            visited: self.visited@,
            discovered: named_places(self.discovered_landmarks@),
            last_position: self.last_position,
            terrain_seen: self.terrain_seen@,
            meaningful_events: self.meaningful_events,
            landmark_discoveries: self.landmark_discoveries,
            combat_events: self.combat_events,
            transitions: self.transitions,
            quiet_turns: self.quiet_turns,
            longest_quiet_stretch: self.longest_quiet_stretch,
            historical_events_at_start: self.historical_events_at_start,
        }
    }
}

/// The terrain stored `dx`, `dy` cells from `center` on its layer, if any.
pub open spec fn terrain_offset(map: WorldMap, center: GridPos, dx: int, dy: int) -> Option<TerrainKind> {
    let x = center.x + dx;
    let y = center.y + dy;
    if i32::MIN <= x <= i32::MAX && i32::MIN <= y <= i32::MAX {
        match map.cell_at(GridPos { x: x as i32, y: y as i32, z: center.z }) {
            Some(cell) => Some(cell.terrain),
            None => None,
        }
    } else {
        None
    }
}

/// The kinds of terrain (by index) the map stores within eight cells of the
/// player on its layer, in either direction along each axis.
pub open spec fn terrain_around(s: SimState) -> Set<u64> {
    let at = player_position(s);
    if s.maps.contains_key(at.map.0) {
        Set::new(
            |t: u64|
                exists|dx: int, dy: int|
                    -8 <= dx <= 8 && -8 <= dy <= 8 && #[trigger] terrain_offset(s.maps[at.map.0], at.grid, dx, dy)
                        is Some && terrain_index(terrain_offset(s.maps[at.map.0], at.grid, dx, dy).unwrap()) == t,
        )
    } else {
        Set::empty()
    }
}

/// The landmarks standing at `position`, by position and name.
pub open spec fn landmarks_at(landmarks: Seq<crate::model::Landmark>, position: WorldPosition) -> Set<(WorldPosition, Seq<char>)> {
    Set::new(
        |d: (WorldPosition, Seq<char>)|
            exists|i: int| 0 <= i < landmarks.len() && landmarks[i].position == position && d == (position, landmarks[i].name@),
    )
}

proof fn lemma_landmarks_at_step(landmarks: Seq<crate::model::Landmark>, position: WorldPosition, i: int)
    requires
        0 <= i < landmarks.len(),
    ensures
        landmarks_at(landmarks.subrange(0, i + 1), position) == if landmarks[i].position == position {
            landmarks_at(landmarks.subrange(0, i), position).insert((position, landmarks[i].name@))
        } else {
            landmarks_at(landmarks.subrange(0, i), position)
        },
{
    let next = landmarks.subrange(0, i + 1);
    let prev = landmarks.subrange(0, i);
    let expected = if landmarks[i].position == position {
        landmarks_at(prev, position).insert((position, landmarks[i].name@))
    } else {
        landmarks_at(prev, position)
    };
    assert forall|d: (WorldPosition, Seq<char>)| landmarks_at(next, position).contains(d) == expected.contains(d) by {
        if landmarks_at(next, position).contains(d) {
            let k = choose|k: int| 0 <= k < next.len() && next[k].position == position && d == (position, next[k].name@);
            if k < i {
                assert(prev[k] == next[k]);
            }
        }
        if landmarks_at(prev, position).contains(d) {
            let k = choose|k: int| 0 <= k < prev.len() && prev[k].position == position && d == (position, prev[k].name@);
            assert(next[k] == prev[k]);
        }
        if landmarks[i].position == position && d == (position, landmarks[i].name@) {
            assert(next[i] == landmarks[i]);
        }
    }
    assert(landmarks_at(next, position) =~= expected);
}

impl ExperienceTracker {
    /// Whether `position` was ever the player's position during the session.
    pub fn has_visited(&self, position: WorldPosition) -> (visited: bool)
        ensures
            visited == self@.visited.contains(position_key(position)),
    {
        self.visited.contains(&position_key_exec(position))
    }

    /// Whether the landmark named `name` at `position` has been discovered.
    pub fn has_discovered_landmark(&self, position: WorldPosition, name: &str) -> (found: bool)
        ensures
            found == self@.discovered.contains((position, name@)),
    {
        let mut i: usize = 0;
        while i < self.discovered_landmarks.len()
            invariant
                i <= self.discovered_landmarks@.len(),
                forall|j: int|
                    0 <= j < i ==> !(self.discovered_landmarks@[j].0 == position && self.discovered_landmarks@[j].1@
                        == name@),
            decreases self.discovered_landmarks@.len() - i,
        {
            let entry = &self.discovered_landmarks[i];
            if entry.0 == position && same_text(entry.1.as_str(), name) {
                return true;
            }
            i = i + 1;
        }
        false
    }

    /// Counts moves made by local townsfolk, saturating at the largest count.
    pub fn record_local_npc_moves(&mut self, count: usize)
        ensures
            final(self)@ == (TrackerView {
                local_npc_moves: old(self)@.local_npc_moves.saturating_add(count as u64),
                ..old(self)@
            }),
    {
        self.local_npc_moves = self.local_npc_moves.saturating_add(count as u64);
    }

    fn discover_landmarks_at(&mut self, simulation: &Simulation, position: WorldPosition) -> (added: u64)
        ensures
            final(self)@ == (TrackerView {
                discovered: old(self)@.discovered.union(landmarks_at(simulation@.landmarks, position)),
                ..old(self)@
            }),
            added == fresh_landmarks(old(self)@.discovered, simulation@.landmarks, position),
    {
        let landmarks = simulation.landmarks();
        let mut added: u64 = 0;
        let mut i: usize = 0;
        proof {
            assert(landmarks_at(landmarks@.subrange(0, 0), position) =~= Set::empty());
            assert(old(self)@.discovered.union(Set::empty()) =~= old(self)@.discovered);
        }
        while i < landmarks.len()
            invariant
                i <= landmarks@.len(),
                landmarks@ == simulation@.landmarks,
                self@ == (TrackerView {
                    discovered: old(self)@.discovered.union(landmarks_at(landmarks@.subrange(0, i as int), position)),
                    ..old(self)@
                }),
                added == fresh_landmarks(old(self)@.discovered, landmarks@.subrange(0, i as int), position),
            decreases landmarks@.len() - i,
        {
            let ghost before = self.discovered_landmarks@;
            let landmark = &landmarks[i];
            proof {
                lemma_landmarks_at_step(landmarks@, position, i as int);
                assert(landmarks@.subrange(0, i + 1).drop_last() =~= landmarks@.subrange(0, i as int));
                lemma_fresh_landmarks_bounded(old(self)@.discovered, landmarks@.subrange(0, i as int), position);
            }
            if landmark.position == position {
                let name = landmark.name.as_str();
                if !self.has_discovered_landmark(position, name) {
                    let entry = (position, String::from_str(name));
                    self.discovered_landmarks.push(entry);
                    added = added + 1;
                    proof {
                        lemma_named_places_push(before, entry);
                    }
                }
            }
            proof {
                let next = landmarks_at(landmarks@.subrange(0, i + 1), position);
                let prev = landmarks_at(landmarks@.subrange(0, i as int), position);
                assert(self@.discovered =~= old(self)@.discovered.union(next));
            }
            i = i + 1;
        }
        proof {
            assert(landmarks@.subrange(0, landmarks@.len() as int) =~= landmarks@);
        }
        added
    }

    fn observe_terrain(&mut self, simulation: &Simulation)
        requires
            simulation.wf(),
        ensures
            final(self)@ == (TrackerView {
                terrain_seen: old(self)@.terrain_seen.union(terrain_around(simulation@)),
                ..old(self)@
            }),
    {
        let player = simulation.player().position;
        let map = match simulation.map(player.map) {
            None => {
                proof {
                    assert(old(self)@.terrain_seen.union(terrain_around(simulation@)) =~= old(self)@.terrain_seen);
                }
                return;
            },
            Some(m) => m,
        };
        let ghost s = simulation@;
        let ghost around = terrain_around(s);
        let ghost m = s.maps[player.map.0];
        let mut dy: i64 = -8;
        while dy <= 8
            invariant
                -8 <= dy <= 9,
                s == simulation@,
                player == player_position(s),
                s.maps.contains_key(player.map.0),
                *map == m,
                m == s.maps[player.map.0],
                around == terrain_around(s),
                self@ == (TrackerView { terrain_seen: self@.terrain_seen, ..old(self)@ }),
                old(self)@.terrain_seen.subset_of(self@.terrain_seen),
                self@.terrain_seen.subset_of(old(self)@.terrain_seen.union(around)),
                forall|ex: int, ey: int|
                    -8 <= ex <= 8 && -8 <= ey < dy && #[trigger] terrain_offset(m, player.grid, ex, ey) is Some
                        ==> self@.terrain_seen.contains(terrain_index(terrain_offset(m, player.grid, ex, ey).unwrap())),
            decreases 9 - dy,
        {
            let mut dx: i64 = -8;
            while dx <= 8
                invariant
                    -8 <= dx <= 9,
                    -8 <= dy <= 8,
                    s == simulation@,
                    player == player_position(s),
                    s.maps.contains_key(player.map.0),
                    *map == m,
                    m == s.maps[player.map.0],
                    around == terrain_around(s),
                    self@ == (TrackerView { terrain_seen: self@.terrain_seen, ..old(self)@ }),
                    old(self)@.terrain_seen.subset_of(self@.terrain_seen),
                    self@.terrain_seen.subset_of(old(self)@.terrain_seen.union(around)),
                    forall|ex: int, ey: int|
                        -8 <= ex <= 8 && -8 <= ey < dy && #[trigger] terrain_offset(m, player.grid, ex, ey) is Some
                            ==> self@.terrain_seen.contains(terrain_index(terrain_offset(m, player.grid, ex, ey).unwrap())),
                    forall|ex: int|
                        -8 <= ex < dx && #[trigger] terrain_offset(m, player.grid, ex, dy as int) is Some
                            ==> self@.terrain_seen.contains(terrain_index(terrain_offset(m, player.grid, ex, dy as int).unwrap())),
                decreases 9 - dx,
            {
                let x = player.grid.x as i64 + dx;
                let y = player.grid.y as i64 + dy;
                if i32::MIN as i64 <= x && x <= i32::MAX as i64 && i32::MIN as i64 <= y && y <= i32::MAX as i64 {
                    match map.cell(GridPos { x: x as i32, y: y as i32, z: player.grid.z }) {
                        None => {},
                        Some(cell) => {
                            let index = terrain_index_exec(cell.terrain);
                            self.terrain_seen.insert(index);
                            proof {
                                assert(terrain_offset(m, player.grid, dx as int, dy as int) == Some(cell.terrain));
                                assert(around.contains(index));
                            }
                        },
                    }
                }
                dx = dx + 1;
            }
            dy = dy + 1;
        }
        proof {
            assert(self@.terrain_seen =~= old(self)@.terrain_seen.union(around)) by {
                assert forall|t: u64| around.contains(t) implies self@.terrain_seen.contains(t) by {
                    let (ex, ey) = choose|ex: int, ey: int|
                        -8 <= ex <= 8 && -8 <= ey <= 8 && #[trigger] terrain_offset(m, player.grid, ex, ey)
                            is Some && terrain_index(terrain_offset(m, player.grid, ex, ey).unwrap()) == t;
                    assert(terrain_offset(m, player.grid, ex, ey) is Some);
                }
            }
        }
    }

    /// Starts tracking a session whose player stands where `simulation` puts it.
    pub fn new(simulation: &Simulation, historical_events: usize) -> (tracker: Self)
        requires
            simulation.wf(),
        ensures
            tracker@.commands == 0,
            tracker@.time_advancing_turns == 0,
            tracker@.successful_moves == 0,
            tracker@.blocked_moves == 0,
            tracker@.local_npc_moves == 0,
            tracker@.visited == set![position_key(player_position(simulation@))],
            tracker@.discovered == landmarks_at(simulation@.landmarks, player_position(simulation@)),
            tracker@.last_position == player_position(simulation@),
            tracker@.terrain_seen == terrain_around(simulation@),
            tracker@.meaningful_events == 0,
            tracker@.landmark_discoveries == 0,
            tracker@.combat_events == 0,
            tracker@.transitions == 0,
            tracker@.quiet_turns == 0,
            tracker@.longest_quiet_stretch == 0,
            tracker@.historical_events_at_start == historical_events,
    {
        let last_position = simulation.player().position;
        let mut visited = BTreeSet::new();
        visited.insert(position_key_exec(last_position));
        let mut tracker = ExperienceTracker {
            commands: 0,
            time_advancing_turns: 0,
            successful_moves: 0,
            blocked_moves: 0,
            meaningful_events: 0,
            landmark_discoveries: 0,
            combat_events: 0,
            transitions: 0,
            local_npc_moves: 0,
            quiet_turns: 0,
            longest_quiet_stretch: 0,
            historical_events_at_start: historical_events,
            visited,
            terrain_seen: BTreeSet::new(),
            discovered_landmarks: Vec::new(),
            last_position,
        };
        proof {
            assert(named_places(Seq::<(WorldPosition, String)>::empty()) =~= Set::empty());
            assert(tracker@.visited =~= set![position_key(player_position(simulation@))]);
        }
        tracker.discover_landmarks_at(simulation, last_position);
        tracker.observe_terrain(simulation);
        proof {
            assert(Set::<u64>::empty().union(terrain_around(simulation@)) =~= terrain_around(simulation@));
            assert(Set::<(WorldPosition, Seq<char>)>::empty().union(
                landmarks_at(simulation@.landmarks, player_position(simulation@)),
            ) =~= landmarks_at(simulation@.landmarks, player_position(simulation@)));
        }
        tracker
    }

    /// Records the outcome of one command: a changed position counts as a
    /// successful move, a command that did nothing at all as a blocked one, and
    /// landmarks at the new position are discovered.
    pub fn record(&mut self, simulation: &Simulation, outcome: &CommandOutcome)
        requires
            simulation.wf(),
            old(self)@.commands < u64::MAX,
            old(self)@.time_advancing_turns < u64::MAX,
            old(self)@.successful_moves < u64::MAX,
            old(self)@.blocked_moves < u64::MAX,
        ensures
            ({
                let position = player_position(simulation@);
                let moved = position != old(self)@.last_position;
                let blocked = !moved && !outcome.changed_world && !outcome.advanced_time && outcome.events@.len() == 0;
                let found = fresh_landmarks(old(self)@.discovered, simulation@.landmarks, position);
                let meaningful = outcome.events@.len() > 0 || found > 0;
                final(self)@ == (TrackerView {
                    commands: (old(self)@.commands + 1) as u64,
                    time_advancing_turns: (old(self)@.time_advancing_turns + if outcome.advanced_time {
                        1int
                    } else {
                        0int
                    }) as u64,
                    successful_moves: (old(self)@.successful_moves + if moved {
                        1int
                    } else {
                        0int
                    }) as u64,
                    blocked_moves: (old(self)@.blocked_moves + if blocked {
                        1int
                    } else {
                        0int
                    }) as u64,
                    visited: if moved {
                        old(self)@.visited.insert(position_key(position))
                    } else {
                        old(self)@.visited
                    },
                    discovered: old(self)@.discovered.union(landmarks_at(simulation@.landmarks, position)),
                    last_position: position,
                    terrain_seen: old(self)@.terrain_seen.union(terrain_around(simulation@)),
                    landmark_discoveries: add_capped(old(self)@.landmark_discoveries, found),
                    meaningful_events: if meaningful {
                        add_capped(old(self)@.meaningful_events, 1)
                    } else {
                        old(self)@.meaningful_events
                    },
                    quiet_turns: if meaningful {
                        0
                    } else if outcome.advanced_time {
                        add_capped(old(self)@.quiet_turns, 1)
                    } else {
                        old(self)@.quiet_turns
                    },
                    longest_quiet_stretch: if !meaningful && outcome.advanced_time && add_capped(old(self)@.quiet_turns, 1)
                        > old(self)@.longest_quiet_stretch {
                        add_capped(old(self)@.quiet_turns, 1)
                    } else {
                        old(self)@.longest_quiet_stretch
                    },
                    combat_events: add_capped(old(self)@.combat_events, combat_event_count(outcome.events@)),
                    transitions: add_capped(old(self)@.transitions, traversal_count(outcome.events@)),
                    ..old(self)@
                })
            }),
    {
        self.commands = self.commands + 1;
        if outcome.advanced_time {
            self.time_advancing_turns = self.time_advancing_turns + 1;
        }
        let position = simulation.player().position;
        let moved = position != self.last_position;
        if moved {
            self.successful_moves = self.successful_moves + 1;
            self.visited.insert(position_key_exec(position));
        } else if !outcome.changed_world && !outcome.advanced_time && outcome.events.len() == 0 {
            self.blocked_moves = self.blocked_moves + 1;
        }
        let discovered = self.discover_landmarks_at(simulation, position);
        self.landmark_discoveries = self.landmark_discoveries.saturating_add(discovered);
        let meaningful = outcome.events.len() > 0 || discovered > 0;
        if meaningful {
            self.meaningful_events = self.meaningful_events.saturating_add(1);
            self.quiet_turns = 0;
        } else if outcome.advanced_time {
            self.quiet_turns = self.quiet_turns.saturating_add(1);
            if self.quiet_turns > self.longest_quiet_stretch {
                self.longest_quiet_stretch = self.quiet_turns;
            }
        }
        let ghost mid = self@;
        let mut i: usize = 0;
        while i < outcome.events.len()
            invariant
                i <= outcome.events@.len(),
                self@ == (TrackerView {
                    combat_events: add_capped(mid.combat_events, combat_event_count(outcome.events@.take(i as int))),
                    transitions: add_capped(mid.transitions, traversal_count(outcome.events@.take(i as int))),
                    ..mid
                }),
            decreases outcome.events@.len() - i,
        {
            proof {
                assert(outcome.events@.take(i + 1).drop_last() =~= outcome.events@.take(i as int));
            }
            match outcome.events[i] {
                SimulationEvent::Damaged { .. } | SimulationEvent::Defeated { .. } => {
                    self.combat_events = self.combat_events.saturating_add(1);
                },
                SimulationEvent::Traversed { .. } => {
                    self.transitions = self.transitions.saturating_add(1);
                },
                _ => {},
            }
            i = i + 1;
        }
        proof {
            assert(outcome.events@.take(outcome.events@.len() as int) =~= outcome.events@);
        }
        self.last_position = position;
        self.observe_terrain(simulation);
    }
}


// ---------------------------------------------------------------------------
// Finding the way

/// Following `path` from `start` on `map`, one step at a time, every step
/// landing on an open cell; `None` once a step would not.
pub open spec fn walk_open(s: SimState, map: MapId, start: GridPos, path: Seq<Direction>) -> Option<GridPos>
    decreases path.len(),
{
    if path.len() == 0 {
        Some(start)
    } else {
        match walk_open(s, map, start, path.drop_last()) {
            None => None,
            Some(at) => match step_from(at, path.last()) {
                None => None,
                Some(next) => if cell_open(s, WorldPosition { map, grid: next }) {
                    Some(next)
                } else {
                    None
                },
            },
        }
    }
}

/// Where following `path` from the player's cell leads, if it stays on open cells.
pub open spec fn walk_from_player(s: SimState, path: Seq<Direction>) -> Option<GridPos> {
    walk_open(s, player_position(s).map, player_position(s).grid, path)
}

/// A cell a search is looking for: with a record of visited cells, a cell
/// other than the start that was never visited; otherwise one of `targets`.
pub open spec fn search_goal(
    targets: Seq<GridPos>,
    visited: Option<Set<(u32, i32, i32, i16)>>,
    map: MapId,
    start: GridPos,
    g: GridPos,
) -> bool {
    match visited {
        Some(seen) => g != start && !seen.contains(position_key(WorldPosition { map, grid: g })),
        None => targets.contains(g),
    }
}

pub open spec fn visited_cells(tracker: Option<&ExperienceTracker>) -> Option<Set<(u32, i32, i32, i16)>> {
    match tracker {
        Some(t) => Some(t@.visited),
        None => None,
    }
}

fn step_toward(g: GridPos, direction: Direction) -> (next: Option<GridPos>)
    ensures
        next == step_from(g, direction),
{
    let (dx, dy): (i64, i64) = match direction {
        Direction::North => (0, -1),
        Direction::East => (1, 0),
        Direction::South => (0, 1),
        Direction::West => (-1, 0),
    };
    let nx = g.x as i64 + dx;
    let ny = g.y as i64 + dy;
    if nx < i32::MIN as i64 || nx > i32::MAX as i64 || ny < i32::MIN as i64 || ny > i32::MAX as i64 {
        None
    } else {
        Some(GridPos { x: nx as i32, y: ny as i32, z: g.z })
    }
}

fn open_on(map: &WorldMap, g: GridPos) -> (open: bool)
    ensures
        open == (map.cell_at(g) is Some && !map.cell_at(g).unwrap().movement_blocked),
{
    match map.cell(g) {
        None => false,
        Some(cell) => !cell.movement_blocked,
    }
}

fn holds_cell(cells: &Vec<GridPos>, g: GridPos) -> (found: bool)
    ensures
        found == cells@.contains(g),
{
    let mut i: usize = 0;
    while i < cells.len()
        invariant
            i <= cells@.len(),
            forall|j: int| 0 <= j < i ==> cells@[j] != g,
        decreases cells@.len() - i,
    {
        if cells[i] == g {
            return true;
        }
        i = i + 1;
    }
    false
}

/// The route bookkeeping of a search: each reached cell other than the start
/// records the cell it was reached from and the step taken, and `routes` holds
/// the whole walk from the start to every reached cell.
pub open spec fn routes_recorded(
    start: (i32, i32),
    previous: Map<(i32, i32), (GridPos, Direction)>,
    routes: Map<(i32, i32), Seq<Direction>>,
) -> bool {
    &&& routes.contains_key(start)
    &&& routes[start].len() == 0
    &&& !previous.contains_key(start)
    &&& forall|k: (i32, i32)| #[trigger] routes.contains_key(k) <==> (k == start || previous.contains_key(k))
    &&& forall|k: (i32, i32)|
        #[trigger] previous.contains_key(k) ==> {
            let parent = (previous[k].0.x, previous[k].0.y);
            &&& routes.contains_key(parent)
            &&& routes[k] == routes[parent].push(previous[k].1)
        }
}

fn reconstruct_path(
    start: (i32, i32),
    target: (i32, i32),
    previous: &BTreeMap<(i32, i32), (GridPos, Direction)>,
    Ghost(routes): Ghost<Map<(i32, i32), Seq<Direction>>>,
) -> (path: Vec<Direction>)
    requires
        routes_recorded(start, previous@, routes),
        routes.contains_key(target),
    ensures
        path@ == routes[target],
{
    let mut backwards: Vec<Direction> = Vec::new();
    let ghost mut tail: Seq<Direction> = Seq::empty();
    let mut current = target;
    while current.0 != start.0 || current.1 != start.1
        invariant
            routes_recorded(start, previous@, routes),
            routes.contains_key(target),
            routes.contains_key(current),
            routes[current] + tail == routes[target],
            backwards@.len() == tail.len(),
            forall|i: int| 0 <= i < tail.len() ==> backwards@[i] == tail[tail.len() - 1 - i],
        decreases routes[current].len(),
    {
        proof {
            assert(previous@.contains_key(current));
        }
        let (parent, step) = match previous.get(&current) {
            None => {
                return Vec::new();
            },
            Some(entry) => *entry,
        };
        proof {
            let p = (parent.x, parent.y);
            assert(routes[current] == routes[p].push(step));
            assert(routes[p] + (seq![step] + tail) =~= routes[current] + tail);
            tail = seq![step] + tail;
        }
        backwards.push(step);
        current = (parent.x, parent.y);
    }
    proof {
        assert(current == start);
        assert(routes[current] + tail =~= tail);
    }
    let mut path: Vec<Direction> = Vec::new();
    let mut i: usize = backwards.len();
    while i > 0
        invariant
            i <= backwards@.len(),
            backwards@.len() == tail.len(),
            forall|j: int| 0 <= j < tail.len() ==> backwards@[j] == tail[tail.len() - 1 - j],
            path@ == tail.take(tail.len() - i),
        decreases i,
    {
        i = i - 1;
        path.push(backwards[i]);
        assert(path@ =~= tail.take(tail.len() - i));
    }
    assert(tail.take(tail.len() as int) =~= tail);
    path
}

fn direction_number(d: usize) -> (direction: Direction)
    requires
        d < 4,
    ensures
        direction == direction_in_order(d as int),
{
    if d == 0 {
        Direction::North
    } else if d == 1 {
        Direction::East
    } else if d == 2 {
        Direction::South
    } else {
        Direction::West
    }
}

/// The key a search files a cell under on its layer.
pub open spec fn cell_key(g: GridPos) -> (i32, i32) {
    (g.x, g.y)
}

/// A cell's `d`-th neighbour, if open, has been reached by the search.
pub open spec fn neighbour_reached(
    s: SimState,
    map: MapId,
    start: (i32, i32),
    previous: Map<(i32, i32), (GridPos, Direction)>,
    g: GridPos,
    d: int,
) -> bool {
    match step_from(g, direction_in_order(d)) {
        None => true,
        Some(n) => cell_open(s, WorldPosition { map, grid: n }) ==> (cell_key(n) == start || previous.contains_key(
            cell_key(n),
        )),
    }
}

/// Every open neighbour of a cell has been reached by the search.
pub open spec fn fully_expanded(
    s: SimState,
    map: MapId,
    start: (i32, i32),
    previous: Map<(i32, i32), (GridPos, Direction)>,
    g: GridPos,
) -> bool {
    &&& neighbour_reached(s, map, start, previous, g, 0)
    &&& neighbour_reached(s, map, start, previous, g, 1)
    &&& neighbour_reached(s, map, start, previous, g, 2)
    &&& neighbour_reached(s, map, start, previous, g, 3)
}

/// Following `path` from the player's cell ends on a goal of the search.
pub open spec fn reaches_goal(
    s: SimState,
    targets: Seq<GridPos>,
    visited: Option<Set<(u32, i32, i32, i16)>>,
    path: Seq<Direction>,
) -> bool {
    match walk_from_player(s, path) {
        Some(end) => search_goal(targets, visited, player_position(s).map, player_position(s).grid, end),
        None => false,
    }
}


/// A search that has expanded every cell it reached holds every cell that an
/// open walk from its start can reach.
proof fn lemma_walk_stays_reached(
    s: SimState,
    map: MapId,
    start: GridPos,
    path: Seq<Direction>,
    frontier: Seq<GridPos>,
    previous: Map<(i32, i32), (GridPos, Direction)>,
    at: Map<(i32, i32), int>,
)
    requires
        frontier.len() >= 1,
        frontier[0] == start,
        forall|j: int| 0 <= j < frontier.len() ==> (#[trigger] frontier[j]).z == start.z,
        forall|j: int| 0 <= j < frontier.len() ==> fully_expanded(s, map, cell_key(start), previous, #[trigger] frontier[j]),
        forall|k: (i32, i32)| #[trigger] previous.contains_key(k) ==> 0 <= at[k] < frontier.len() && cell_key(frontier[at[k]]) == k,
    ensures
        walk_open(s, map, start, path) matches Some(end) ==> frontier.contains(end),
    decreases path.len(),
{
    if path.len() > 0 {
        let before = path.drop_last();
        lemma_walk_stays_reached(s, map, start, before, frontier, previous, at);
        match walk_open(s, map, start, before) {
            None => {},
            Some(here) => {
                let j = choose|j: int| 0 <= j < frontier.len() && frontier[j] == here;
                assert(fully_expanded(s, map, cell_key(start), previous, frontier[j]));
                lemma_direction_in_order(path.last());
                let i = choose|i: int| 0 <= i < 4 && direction_in_order(i) == path.last();
                assert(neighbour_reached(s, map, cell_key(start), previous, here, i));
                match step_from(here, path.last()) {
                    None => {},
                    Some(next) => {
                        if cell_open(s, WorldPosition { map, grid: next }) {
                            if cell_key(next) == cell_key(start) {
                                assert(next == frontier[0]);
                            } else {
                                let k = cell_key(next);
                                assert(frontier[at[k]] == next);
                            }
                        }
                    },
                }
            },
        }
    }
}

proof fn lemma_fresh_push(
    f: Seq<GridPos>,
    next: GridPos,
    z: i16,
    start_key: (i32, i32),
    previous: Map<(i32, i32), (GridPos, Direction)>,
)
    requires
        f.no_duplicates(),
        next.z == z,
        cell_key(next) != start_key,
        !previous.contains_key(cell_key(next)),
        forall|j: int| 0 <= j < f.len() ==> (#[trigger] f[j]).z == z && (cell_key(f[j]) == start_key || previous.contains_key(cell_key(f[j]))),
    ensures
        f.push(next).no_duplicates(),
{
    let g = f.push(next);
    assert forall|a: int, b: int| 0 <= a < b < g.len() implies g[a] != g[b] by {
        assert(g[a] == f[a]);
        if b < f.len() {
            assert(g[b] == f[b]);
        }
    }
}

proof fn lemma_expansion_kept(
    s: SimState,
    map: MapId,
    start_key: (i32, i32),
    before: Map<(i32, i32), (GridPos, Direction)>,
    after: Map<(i32, i32), (GridPos, Direction)>,
    f: Seq<GridPos>,
    done: int,
    current: GridPos,
    d: int,
)
    requires
        forall|k: (i32, i32)| before.contains_key(k) ==> #[trigger] after.contains_key(k),
        0 <= done <= f.len(),
        forall|j: int| 0 <= j < done ==> fully_expanded(s, map, start_key, before, #[trigger] f[j]),
        forall|e: int| 0 <= e < d ==> #[trigger] neighbour_reached(s, map, start_key, before, current, e),
        neighbour_reached(s, map, start_key, after, current, d),
    ensures
        forall|j: int| 0 <= j < done ==> fully_expanded(s, map, start_key, after, #[trigger] f[j]),
        forall|e: int| 0 <= e < d + 1 ==> #[trigger] neighbour_reached(s, map, start_key, after, current, e),
{
    assert forall|j: int| 0 <= j < done implies fully_expanded(s, map, start_key, after, #[trigger] f[j]) by {
        assert(fully_expanded(s, map, start_key, before, f[j]));
    }
    assert forall|e: int| 0 <= e < d + 1 implies #[trigger] neighbour_reached(s, map, start_key, after, current, e) by {
        if e < d {
            assert(neighbour_reached(s, map, start_key, before, current, e));
        }
    }
}

/// A cell's `d`-th neighbour, if open, has a recorded route at most one step
/// longer than the cell's own.
pub open spec fn neighbour_close(
    s: SimState,
    map: MapId,
    routes: Map<(i32, i32), Seq<Direction>>,
    g: GridPos,
    d: int,
) -> bool {
    match step_from(g, direction_in_order(d)) {
        None => true,
        Some(n) => cell_open(s, WorldPosition { map, grid: n }) ==> routes.contains_key(cell_key(n))
            && routes[cell_key(n)].len() <= routes[cell_key(g)].len() + 1,
    }
}

/// Every open neighbour of a cell has a route at most one step longer.
pub open spec fn close_expanded(s: SimState, map: MapId, routes: Map<(i32, i32), Seq<Direction>>, g: GridPos) -> bool {
    &&& neighbour_close(s, map, routes, g, 0)
    &&& neighbour_close(s, map, routes, g, 1)
    &&& neighbour_close(s, map, routes, g, 2)
    &&& neighbour_close(s, map, routes, g, 3)
}

/// A breadth-first search finds every cell no farther than the cell it is
/// about to look at by a route no longer than any walk to it.
proof fn lemma_short_walks_found(
    s: SimState,
    map: MapId,
    start: GridPos,
    path: Seq<Direction>,
    frontier: Seq<GridPos>,
    routes: Map<(i32, i32), Seq<Direction>>,
    previous: Map<(i32, i32), (GridPos, Direction)>,
    at: Map<(i32, i32), int>,
    h: int,
)
    requires
        0 <= h < frontier.len(),
        frontier[0] == start,
        routes_recorded(cell_key(start), previous, routes),
        forall|j: int|
            0 <= j < frontier.len() ==> (#[trigger] frontier[j]).z == start.z && routes.contains_key(cell_key(frontier[j])),
        forall|i: int, j: int|
            0 <= i < j < frontier.len() ==> routes[cell_key(#[trigger] frontier[i])].len() <= routes[cell_key(
                #[trigger] frontier[j],
            )].len(),
        forall|j: int| 0 <= j < h ==> close_expanded(s, map, routes, #[trigger] frontier[j]),
        forall|k: (i32, i32)| #[trigger] previous.contains_key(k) ==> 0 <= at[k] < frontier.len() && cell_key(frontier[at[k]]) == k,
        path.len() <= routes[cell_key(frontier[h])].len(),
    ensures
        walk_open(s, map, start, path) matches Some(end) ==> exists|j: int|
            0 <= j < frontier.len() && #[trigger] frontier[j] == end && routes[cell_key(end)].len() <= path.len(),
    decreases path.len(),
{
    if path.len() == 0 {
        assert(frontier[0] == start);
    } else {
        let before = path.drop_last();
        lemma_short_walks_found(s, map, start, before, frontier, routes, previous, at, h);
        match walk_open(s, map, start, before) {
            None => {},
            Some(here) => {
                let j = choose|j: int| 0 <= j < frontier.len() && #[trigger] frontier[j] == here && routes[cell_key(here)].len()
                    <= before.len();
                if j >= h {
                    if j > h {
                        assert(routes[cell_key(frontier[h])].len() <= routes[cell_key(frontier[j])].len());
                    }
                    assert(false);
                }
                assert(close_expanded(s, map, routes, frontier[j]));
                lemma_direction_in_order(path.last());
                let i = choose|i: int| 0 <= i < 4 && direction_in_order(i) == path.last();
                assert(neighbour_close(s, map, routes, here, i));
                match step_from(here, path.last()) {
                    None => {},
                    Some(next) => {
                        if cell_open(s, WorldPosition { map, grid: next }) {
                            let k = cell_key(next);
                            assert(routes.contains_key(k));
                            if k == cell_key(start) {
                                assert(next == frontier[0]);
                            } else {
                                assert(previous.contains_key(k));
                                assert(frontier[at[k]] == next);
                            }
                        }
                    },
                }
            },
        }
    }
}

/// Growing the recorded routes by a fresh cell keeps every cell's closeness.
proof fn lemma_closeness_kept(
    s: SimState,
    map: MapId,
    before: Map<(i32, i32), Seq<Direction>>,
    after: Map<(i32, i32), Seq<Direction>>,
    f: Seq<GridPos>,
    done: int,
    current: GridPos,
    d: int,
)
    requires
        forall|k: (i32, i32)| #[trigger] before.contains_key(k) ==> after.contains_key(k) && after[k] == before[k],
        before.contains_key(cell_key(current)),
        forall|j: int| 0 <= j < done ==> before.contains_key(cell_key(#[trigger] f[j])),
        0 <= done <= f.len(),
        forall|j: int| 0 <= j < done ==> close_expanded(s, map, before, #[trigger] f[j]),
        forall|e: int| 0 <= e < d ==> #[trigger] neighbour_close(s, map, before, current, e),
        neighbour_close(s, map, after, current, d),
    ensures
        forall|j: int| 0 <= j < done ==> close_expanded(s, map, after, #[trigger] f[j]),
        forall|e: int| 0 <= e < d + 1 ==> #[trigger] neighbour_close(s, map, after, current, e),
{
    assert forall|j: int| 0 <= j < done implies close_expanded(s, map, after, #[trigger] f[j]) by {
        assert(close_expanded(s, map, before, f[j]));
        assert(before.contains_key(cell_key(f[j])));
        assert(neighbour_close(s, map, before, f[j], 0));
        assert(neighbour_close(s, map, before, f[j], 1));
        assert(neighbour_close(s, map, before, f[j], 2));
        assert(neighbour_close(s, map, before, f[j], 3));
    }
    assert forall|e: int| 0 <= e < d + 1 implies #[trigger] neighbour_close(s, map, after, current, e) by {
        if e < d {
            assert(neighbour_close(s, map, before, current, e));
        }
    }
}

/// Breadth-first search over the open cells of the player's map and layer,
/// stepping north, east, south, west, for the first goal cell met: the walk
/// it returns is as short as any walk to a goal.
#[verifier::rlimit(100)]
#[verifier::spinoff_prover]
fn search_from_player(
    simulation: &Simulation,
    targets: &Vec<GridPos>,
    tracker: Option<&ExperienceTracker>,
) -> (path: Option<Vec<Direction>>)
    requires
        simulation.wf(),
    ensures
        path matches Some(p) ==> walk_from_player(simulation@, p@) matches Some(end) && search_goal(
            targets@,
            visited_cells(tracker),
            player_position(simulation@).map,
            player_position(simulation@).grid,
            end,
        ),
        simulation@.maps.contains_key(player_position(simulation@).map.0) && tracker is None
            && targets@.contains(player_position(simulation@).grid) ==> (path matches Some(p)
            && p@.len() == 0),
        simulation@.maps.contains_key(player_position(simulation@).map.0) && path is None ==> forall|p: Seq<Direction>|
            !#[trigger] reaches_goal(simulation@, targets@, visited_cells(tracker), p),
        path matches Some(p) ==> forall|q: Seq<Direction>|
            q.len() < p@.len() ==> !#[trigger] reaches_goal(simulation@, targets@, visited_cells(tracker), q),
        !simulation@.maps.contains_key(player_position(simulation@).map.0) ==> path is None,
{
    let player = simulation.player().position;
    let map = match simulation.map(player.map) {
        None => {
            return None;
        },
        Some(m) => m,
    };
    let ghost s = simulation@;
    let start = player.grid;
    let start_key = (start.x, start.y);
    let z = start.z;
    let cells = map.open_cells(z);
    let mut frontier: Vec<GridPos> = Vec::new();
    frontier.push(start);
    let mut previous: BTreeMap<(i32, i32), (GridPos, Direction)> = BTreeMap::new();
    let ghost mut routes: Map<(i32, i32), Seq<Direction>> = Map::empty().insert(start_key, Seq::empty());
    let ghost mut at: Map<(i32, i32), int> = Map::empty();
    let mut head: usize = 0;
    proof {
        assert(routes_recorded(start_key, previous@, routes));
        assert(frontier@.no_duplicates());
    }
    while head < frontier.len()
        invariant
            simulation.wf(),
            s == simulation@,
            player == player_position(s),
            start == player.grid,
            start_key == cell_key(start),
            z == start.z,
            s.maps.contains_key(player.map.0),
            *map == s.maps[player.map.0],
            forall|p: GridPos| p.z == z && open_ground(*map, p) ==> #[trigger] cells@.contains(p),
            head <= frontier@.len(),
            frontier@.len() <= cells@.len() + 1,
            frontier@.len() >= 1,
            frontier@[0] == start,
            frontier@.no_duplicates(),
            routes_recorded(start_key, previous@, routes),
            forall|j: int|
                0 <= j < frontier@.len() ==> (#[trigger] frontier@[j]).z == z && routes.contains_key(
                    cell_key(frontier@[j]),
                ) && walk_open(s, player.map, start, routes[cell_key(frontier@[j])]) == Some(frontier@[j])
                    && (frontier@[j] == start || cells@.contains(frontier@[j])),
            forall|k: (i32, i32)|
                #[trigger] routes.contains_key(k) ==> walk_open(s, player.map, start, routes[k])
                    == Some(GridPos { x: k.0, y: k.1, z }),
            forall|k: (i32, i32)|
                #[trigger] previous@.contains_key(k) ==> 0 <= at[k] < frontier@.len() && cell_key(frontier@[at[k]]) == k,
            forall|j: int|
                0 <= j < head ==> fully_expanded(s, player.map, start_key, previous@, #[trigger] frontier@[j])
                    && !search_goal(targets@, visited_cells(tracker), player.map, start, frontier@[j]),
            tracker is None && targets@.contains(start) ==> head == 0,
            forall|i: int, j: int|
                0 <= i < j < frontier@.len() ==> routes[cell_key(#[trigger] frontier@[i])].len() <= routes[cell_key(
                    #[trigger] frontier@[j],
                )].len(),
            head < frontier@.len() ==> forall|j: int|
                0 <= j < frontier@.len() ==> routes[cell_key(#[trigger] frontier@[j])].len() <= routes[cell_key(
                    frontier@[head as int],
                )].len() + 1,
            forall|j: int| 0 <= j < head ==> close_expanded(s, player.map, routes, #[trigger] frontier@[j]),
        decreases cells@.len() + 1 - head,
    {
        let current = frontier[head];
        let first = head == 0;
        head = head + 1;
        let key = (current.x, current.y);
        let goal = match tracker {
            Some(t) => (current.x != start.x || current.y != start.y || current.z != start.z)
                && !t.has_visited(WorldPosition { map: player.map, grid: current }),
            None => holds_cell(targets, current),
        };
        if goal {
            proof {
                assert(walk_open(s, player.map, start, routes[key]) == Some(current));
                if first {
                    assert(current == start);
                    assert(key == start_key);
                }
                assert forall|q: Seq<Direction>| q.len() < routes[key].len() implies !#[trigger] reaches_goal(
                    s,
                    targets@,
                    visited_cells(tracker),
                    q,
                ) by {
                    lemma_short_walks_found(s, player.map, start, q, frontier@, routes, previous@, at, head - 1);
                    match walk_open(s, player.map, start, q) {
                        None => {},
                        Some(end) => {
                            let j = choose|j: int|
                                0 <= j < frontier@.len() && #[trigger] frontier@[j] == end && routes[cell_key(end)].len()
                                    <= q.len();
                            if j >= head - 1 {
                                if j > head - 1 {
                                    assert(routes[cell_key(frontier@[head - 1])].len() <= routes[cell_key(frontier@[j])].len());
                                }
                                assert(false);
                            }
                            assert(!search_goal(targets@, visited_cells(tracker), player.map, start, frontier@[j]));
                        },
                    }
                }
            }
            return Some(reconstruct_path(start_key, key, &previous, Ghost(routes)));
        }
        let mut d: usize = 0;
        while d < 4
            invariant
                simulation.wf(),
                s == simulation@,
                player == player_position(s),
                start == player.grid,
                start_key == cell_key(start),
                z == start.z,
                s.maps.contains_key(player.map.0),
                *map == s.maps[player.map.0],
                forall|p: GridPos| p.z == z && open_ground(*map, p) ==> #[trigger] cells@.contains(p),
                d <= 4,
                1 <= head <= frontier@.len(),
                frontier@.len() <= cells@.len() + 1,
                frontier@.len() >= 1,
                frontier@[0] == start,
                frontier@.no_duplicates(),
                current == frontier@[head - 1],
                current.z == z,
                key == cell_key(current),
                !search_goal(targets@, visited_cells(tracker), player.map, start, current),
                !(tracker is None && targets@.contains(start)),
                routes.contains_key(key),
                walk_open(s, player.map, start, routes[key]) == Some(current),
                routes_recorded(start_key, previous@, routes),
                forall|j: int|
                    0 <= j < frontier@.len() ==> (#[trigger] frontier@[j]).z == z && routes.contains_key(
                        cell_key(frontier@[j]),
                    ) && walk_open(s, player.map, start, routes[cell_key(frontier@[j])]) == Some(frontier@[j])
                        && (frontier@[j] == start || cells@.contains(frontier@[j])),
                forall|k: (i32, i32)|
                    #[trigger] routes.contains_key(k) ==> walk_open(s, player.map, start, routes[k])
                        == Some(GridPos { x: k.0, y: k.1, z }),
                forall|k: (i32, i32)|
                    #[trigger] previous@.contains_key(k) ==> 0 <= at[k] < frontier@.len() && cell_key(frontier@[at[k]]) == k,
                forall|j: int|
                    0 <= j < head - 1 ==> fully_expanded(s, player.map, start_key, previous@, #[trigger] frontier@[j])
                        && !search_goal(targets@, visited_cells(tracker), player.map, start, frontier@[j]),
                forall|e: int| 0 <= e < d ==> #[trigger] neighbour_reached(s, player.map, start_key, previous@, current, e),
                forall|i: int, j: int|
                    0 <= i < j < frontier@.len() ==> routes[cell_key(#[trigger] frontier@[i])].len() <= routes[cell_key(
                        #[trigger] frontier@[j],
                    )].len(),
                forall|j: int|
                    0 <= j < frontier@.len() ==> routes[cell_key(#[trigger] frontier@[j])].len() <= routes[key].len() + 1,
                forall|j: int| 0 <= j < head - 1 ==> close_expanded(s, player.map, routes, #[trigger] frontier@[j]),
                forall|e: int| 0 <= e < d ==> #[trigger] neighbour_close(s, player.map, routes, current, e),
            decreases 4 - d,
        {
            let direction = direction_number(d);
            let ghost prev_before = previous@;
            let next = match step_toward(current, direction) {
                None => {
                    proof {
                        assert(neighbour_close(s, player.map, routes, current, d as int));
                    }
                    d = d + 1;
                    continue;
                },
                Some(n) => n,
            };
            let next_key = (next.x, next.y);
            if (next.x == start.x && next.y == start.y) || previous.contains_key(&next_key) || !open_on(map, next) {
                proof {
                    assert(neighbour_reached(s, player.map, start_key, previous@, current, d as int));
                    if previous@.contains_key(next_key) {
                        assert(cell_key(frontier@[at[next_key]]) == next_key);
                        assert(routes[cell_key(frontier@[at[next_key]])].len() <= routes[key].len() + 1);
                    }
                    assert(neighbour_close(s, player.map, routes, current, d as int));
                }
                d = d + 1;
                continue;
            }
            let ghost frontier_before = frontier@;
            let ghost routes_before = routes;
            previous.insert(next_key, (current, direction));
            proof {
                let route = routes[key].push(direction);
                assert(route.drop_last() =~= routes[key]);
                assert(walk_open(s, player.map, start, route) == Some(next));
                routes = routes.insert(next_key, route);
                at = at.insert(next_key, frontier@.len() as int);
                assert(routes_recorded(start_key, previous@, routes));
            }
            frontier.push(next);
            proof {
                lemma_fresh_push(frontier_before, next, z, start_key, prev_before);
                assert(frontier@ == frontier_before.push(next));
                assert(cells@.contains(next));
                lemma_distinct_cells_bounded(frontier@, cells@, start);
                lemma_expansion_kept(s, player.map, start_key, prev_before, previous@, frontier_before, (head - 1) as int, current, d as int);
                assert(routes[next_key].len() == routes[key].len() + 1);
                assert(neighbour_close(s, player.map, routes, current, d as int));
                lemma_closeness_kept(s, player.map, routes_before, routes, frontier_before, (head - 1) as int, current, d as int);
                assert forall|a: int, b: int| 0 <= a < b < frontier@.len() implies routes[cell_key(#[trigger] frontier@[a])].len()
                    <= routes[cell_key(#[trigger] frontier@[b])].len() by {
                    assert(routes_before.contains_key(cell_key(frontier_before[a])));
                    if b < frontier_before.len() {
                        assert(routes_before.contains_key(cell_key(frontier_before[b])));
                        assert(routes_before[cell_key(frontier_before[a])].len() <= routes_before[cell_key(frontier_before[b])].len());
                    } else {
                        assert(routes_before[cell_key(frontier_before[a])].len() <= routes_before[key].len() + 1);
                    }
                }
                assert forall|j: int| 0 <= j < frontier@.len() implies routes[cell_key(#[trigger] frontier@[j])].len()
                    <= routes[key].len() + 1 by {
                    if j < frontier_before.len() {
                        assert(routes_before.contains_key(cell_key(frontier_before[j])));
                        assert(routes_before[cell_key(frontier_before[j])].len() <= routes_before[key].len() + 1);
                    }
                }
            }
            d = d + 1;
        }
        proof {
            assert(fully_expanded(s, player.map, start_key, previous@, current));
            assert(close_expanded(s, player.map, routes, current));
            if head < frontier@.len() {
                assert(routes[cell_key(frontier@[head - 1])].len() <= routes[cell_key(frontier@[head as int])].len());
            }
        }
    }
    proof {
        assert forall|p: Seq<Direction>| !#[trigger] reaches_goal(s, targets@, visited_cells(tracker), p) by {
            lemma_walk_stays_reached(s, player.map, start, p, frontier@, previous@, at);
            match walk_open(s, player.map, start, p) {
                None => {},
                Some(end) => {
                    let j = choose|j: int| 0 <= j < frontier@.len() && frontier@[j] == end;
                    assert(!search_goal(targets@, visited_cells(tracker), player.map, start, frontier@[j]));
                },
            }
        }
    }
    None
}

/// The directions that walk the player to the nearest cell among `targets`.
fn path_to_targets(simulation: &Simulation, targets: &Vec<GridPos>) -> (path: Option<Vec<Direction>>)
    requires
        simulation.wf(),
    ensures
        path matches Some(p) ==> walk_from_player(simulation@, p@) matches Some(end) && targets@.contains(end),
        simulation@.maps.contains_key(player_position(simulation@).map.0) && targets@.contains(
            player_position(simulation@).grid,
        ) ==> (path matches Some(p) && p@.len() == 0),
        simulation@.maps.contains_key(player_position(simulation@).map.0) && path is None ==> forall|p: Seq<Direction>|
            !#[trigger] reaches_goal(simulation@, targets@, None, p),
        path matches Some(p) ==> forall|q: Seq<Direction>|
            q.len() < p@.len() ==> !#[trigger] reaches_goal(simulation@, targets@, None, q),
        !simulation@.maps.contains_key(player_position(simulation@).map.0) ==> path is None,
{
    search_from_player(simulation, targets, None)
}

/// The directions that walk the player over open cells of its map to `target`,
/// found by a breadth-first search: no open walk gets there in fewer steps.
pub fn path_to_position(simulation: &Simulation, target: GridPos) -> (path: Option<Vec<Direction>>)
    requires
        simulation.wf(),
    ensures
        path matches Some(p) ==> walk_from_player(simulation@, p@) == Some(target),
        simulation@.maps.contains_key(player_position(simulation@).map.0) && player_position(simulation@).grid
            == target ==> (path matches Some(p) && p@.len() == 0),
        simulation@.maps.contains_key(player_position(simulation@).map.0) && path is None ==> forall|p: Seq<Direction>|
            #[trigger] walk_from_player(simulation@, p) != Some(target),
        path matches Some(p) ==> forall|q: Seq<Direction>|
            q.len() < p@.len() ==> #[trigger] walk_from_player(simulation@, q) != Some(target),
        !simulation@.maps.contains_key(player_position(simulation@).map.0) ==> path is None,
{
    let targets = vec![target];
    proof {
        assert(targets@ =~= seq![target]);
        assert(targets@[0] == target);
    }
    let path = path_to_targets(simulation, &targets);
    proof {
        if simulation@.maps.contains_key(player_position(simulation@).map.0) && path is None {
            assert forall|p: Seq<Direction>| #[trigger] walk_from_player(simulation@, p) != Some(target) by {
                assert(!reaches_goal(simulation@, targets@, None, p));
            }
        }
        if path is Some {
            assert forall|q: Seq<Direction>| q.len() < path.unwrap()@.len() implies #[trigger] walk_from_player(simulation@, q)
                != Some(target) by {
                assert(!reaches_goal(simulation@, targets@, None, q));
            }
        }
    }
    path
}


/// A landmark that a query names: on the player's map and layer, with the
/// query somewhere in its name, ASCII case ignored.
pub open spec fn landmark_named(s: SimState, landmark: Landmark, query: Seq<char>) -> bool {
    &&& landmark.position.map == player_position(s).map
    &&& landmark.position.grid.z == player_position(s).grid.z
    &&& find_from(lowered(landmark.name@), lowered(query), 0) is Some
}

/// A landmark on the player's map and layer that the tracker has not yet
/// recorded as discovered.
pub open spec fn landmark_undiscovered(s: SimState, tracker: TrackerView, landmark: Landmark) -> bool {
    &&& landmark.position.map == player_position(s).map
    &&& landmark.position.grid.z == player_position(s).grid.z
    &&& !tracker.discovered.contains((landmark.position, landmark.name@))
}

/// The directions that walk the player to the nearest landmark whose name
/// holds `query` (ASCII case ignored) on its map and layer.
pub fn path_to_landmark(simulation: &Simulation, query: &str) -> (path: Option<Vec<Direction>>)
    requires
        simulation.wf(),
    ensures
        path matches Some(p) ==> walk_from_player(simulation@, p@) matches Some(end) && exists|i: int|
            0 <= i < simulation@.landmarks.len() && landmark_named(
                simulation@,
                #[trigger] simulation@.landmarks[i],
                query@,
            ) && simulation@.landmarks[i].position.grid == end,
        forall|i: int|
            0 <= i < simulation@.landmarks.len() && simulation@.maps.contains_key(
                player_position(simulation@).map.0,
            ) && landmark_named(simulation@, #[trigger] simulation@.landmarks[i], query@)
                && simulation@.landmarks[i].position.grid == player_position(simulation@).grid ==> (path matches Some(
                p,
            ) && p@.len() == 0),
        simulation@.maps.contains_key(player_position(simulation@).map.0) && path is None ==> forall|p: Seq<Direction>, i: int|
            0 <= i < simulation@.landmarks.len() && landmark_named(simulation@, #[trigger] simulation@.landmarks[i], query@)
                ==> #[trigger] walk_from_player(simulation@, p) != Some(simulation@.landmarks[i].position.grid),
        path matches Some(p) ==> forall|q: Seq<Direction>, i: int|
            q.len() < p@.len() && 0 <= i < simulation@.landmarks.len() && landmark_named(
                simulation@,
                #[trigger] simulation@.landmarks[i],
                query@,
            ) ==> #[trigger] walk_from_player(simulation@, q) != Some(simulation@.landmarks[i].position.grid),
{
    let player = simulation.player().position;
    let wanted = lower_word(&chars_of(query));
    let landmarks = simulation.landmarks();
    let ghost s = simulation@;
    let mut targets: Vec<GridPos> = Vec::new();
    let ghost mut origin: Seq<int> = Seq::empty();
    let mut i: usize = 0;
    while i < landmarks.len()
        invariant
            s == simulation@,
            landmarks@ == s.landmarks,
            player == player_position(s),
            wanted@ == lowered(query@),
            i <= landmarks@.len(),
            origin.len() == targets@.len(),
            forall|j: int|
                0 <= j < targets@.len() ==> 0 <= #[trigger] origin[j] < s.landmarks.len() && landmark_named(
                    s,
                    s.landmarks[origin[j]],
                    query@,
                ) && s.landmarks[origin[j]].position.grid == targets@[j],
            forall|k: int|
                0 <= k < i && landmark_named(s, #[trigger] s.landmarks[k], query@) ==> targets@.contains(
                    s.landmarks[k].position.grid,
                ),
        decreases landmarks@.len() - i,
    {
        let landmark = &landmarks[i];
        if landmark.position.map == player.map && landmark.position.grid.z == player.grid.z {
            let name = lower_word(&chars_of(landmark.name.as_str()));
            if find_first(&name, &wanted).is_some() {
                let ghost before = targets@;
                targets.push(landmark.position.grid);
                proof {
                    origin = origin.push(i as int);
                    assert(targets@.last() == s.landmarks[i as int].position.grid);
                    assert forall|k: int|
                        0 <= k < i + 1 && landmark_named(s, #[trigger] s.landmarks[k], query@) implies targets@.contains(
                        s.landmarks[k].position.grid,
                    ) by {
                        if k < i {
                            assert(before.contains(s.landmarks[k].position.grid));
                            let j = choose|j: int| 0 <= j < before.len() && before[j] == s.landmarks[k].position.grid;
                            assert(targets@[j] == before[j]);
                        } else {
                            assert(targets@[targets@.len() - 1] == s.landmarks[k].position.grid);
                        }
                    }
                }
            }
        }
        i = i + 1;
    }
    let path = path_to_targets(simulation, &targets);
    proof {
        if path is Some {
            let end = walk_from_player(s, path.unwrap()@).unwrap();
            let j = choose|j: int| 0 <= j < targets@.len() && targets@[j] == end;
            assert(landmark_named(s, s.landmarks[origin[j]], query@));
        }
        if s.maps.contains_key(player_position(s).map.0) && path is None {
            assert forall|p: Seq<Direction>, i: int|
                0 <= i < s.landmarks.len() && landmark_named(s, #[trigger] s.landmarks[i], query@)
                    implies #[trigger] walk_from_player(s, p) != Some(s.landmarks[i].position.grid) by {
                assert(targets@.contains(s.landmarks[i].position.grid));
                assert(!reaches_goal(s, targets@, None, p));
            }
        }
        if path is Some {
            assert forall|q: Seq<Direction>, i: int|
                q.len() < path.unwrap()@.len() && 0 <= i < s.landmarks.len() && landmark_named(
                    s,
                    #[trigger] s.landmarks[i],
                    query@,
                ) implies #[trigger] walk_from_player(s, q) != Some(s.landmarks[i].position.grid) by {
                assert(targets@.contains(s.landmarks[i].position.grid));
                assert(!reaches_goal(s, targets@, None, q));
            }
        }
    }
    path
}

/// An undiscovered landmark on the player's map and layer stands at `g`.
pub open spec fn undiscovered_landmark_at(s: SimState, tracker: TrackerView, g: GridPos) -> bool {
    exists|i: int|
        0 <= i < s.landmarks.len() && landmark_undiscovered(s, tracker, #[trigger] s.landmarks[i])
            && s.landmarks[i].position.grid == g
}

/// Following `path` from the player reaches an undiscovered landmark.
pub open spec fn reaches_landmark_news(s: SimState, tracker: TrackerView, path: Seq<Direction>) -> bool {
    match walk_from_player(s, path) {
        Some(end) => undiscovered_landmark_at(s, tracker, end),
        None => false,
    }
}

/// Following `path` from the player reaches something new: an undiscovered
/// landmark, or a cell other than the player's that was never visited.
pub open spec fn reaches_news(s: SimState, tracker: TrackerView, path: Seq<Direction>) -> bool {
    match walk_from_player(s, path) {
        Some(end) => undiscovered_landmark_at(s, tracker, end) || (end != player_position(s).grid
            && !tracker.visited.contains(position_key(WorldPosition { map: player_position(s).map, grid: end }))),
        None => false,
    }
}

/// Following `path` from the player reaches a cell other than the player's
/// that the tracker has never seen visited.
pub open spec fn reaches_unvisited(s: SimState, tracker: TrackerView, path: Seq<Direction>) -> bool {
    match walk_from_player(s, path) {
        Some(end) => end != player_position(s).grid && !tracker.visited.contains(
            position_key(WorldPosition { map: player_position(s).map, grid: end }),
        ),
        None => false,
    }
}

/// Without the map there is nowhere to step: every walk that takes a step fails.
proof fn lemma_no_map_no_walk(s: SimState, map: MapId, start: GridPos, path: Seq<Direction>)
    requires
        !s.maps.contains_key(map.0),
        path.len() > 0,
    ensures
        walk_open(s, map, start, path) is None,
    decreases path.len(),
{
    if path.len() > 1 {
        lemma_no_map_no_walk(s, map, start, path.drop_last());
    }
}

/// The directions toward something new: the nearest undiscovered landmark on
/// the player's map and layer when one can be reached, otherwise the nearest
/// cell that the tracker has not seen visited (no directions when there is none).
pub fn path_to_unvisited(simulation: &Simulation, tracker: &ExperienceTracker) -> (path: Vec<Direction>)
    requires
        simulation.wf(),
    ensures
        path@.len() > 0 ==> (walk_from_player(simulation@, path@) matches Some(end) && ((exists|i: int|
            0 <= i < simulation@.landmarks.len() && landmark_undiscovered(
                simulation@,
                tracker@,
                #[trigger] simulation@.landmarks[i],
            ) && simulation@.landmarks[i].position.grid == end) || (end != player_position(simulation@).grid
            && !tracker@.visited.contains(
            position_key(WorldPosition { map: player_position(simulation@).map, grid: end }),
        )))),
        path@.len() == 0 ==> undiscovered_landmark_at(simulation@, tracker@, player_position(simulation@).grid)
            || forall|p: Seq<Direction>| !#[trigger] reaches_news(simulation@, tracker@, p),
        simulation@.maps.contains_key(player_position(simulation@).map.0) && (exists|p: Seq<Direction>|
            #[trigger] reaches_landmark_news(simulation@, tracker@, p)) ==> (walk_from_player(simulation@, path@) matches Some(
            end,
        ) && undiscovered_landmark_at(simulation@, tracker@, end)),
        (exists|p: Seq<Direction>| #[trigger] reaches_landmark_news(simulation@, tracker@, p)) ==> forall|q: Seq<Direction>|
            q.len() < path@.len() ==> !#[trigger] reaches_landmark_news(simulation@, tracker@, q),
        !(exists|p: Seq<Direction>| #[trigger] reaches_landmark_news(simulation@, tracker@, p)) ==> forall|q: Seq<Direction>|
            q.len() < path@.len() ==> !#[trigger] reaches_unvisited(simulation@, tracker@, q),
{
    let player = simulation.player().position;
    let landmarks = simulation.landmarks();
    let ghost s = simulation@;
    let mut targets: Vec<GridPos> = Vec::new();
    let ghost mut origin: Seq<int> = Seq::empty();
    let mut i: usize = 0;
    while i < landmarks.len()
        invariant
            s == simulation@,
            landmarks@ == s.landmarks,
            player == player_position(s),
            i <= landmarks@.len(),
            origin.len() == targets@.len(),
            forall|j: int|
                0 <= j < targets@.len() ==> 0 <= #[trigger] origin[j] < s.landmarks.len()
                    && landmark_undiscovered(s, tracker@, s.landmarks[origin[j]])
                    && s.landmarks[origin[j]].position.grid == targets@[j],
            forall|k: int|
                0 <= k < i && landmark_undiscovered(s, tracker@, #[trigger] s.landmarks[k]) ==> targets@.contains(
                    s.landmarks[k].position.grid,
                ),
        decreases landmarks@.len() - i,
    {
        let landmark = &landmarks[i];
        if landmark.position.map == player.map && landmark.position.grid.z == player.grid.z
            && !tracker.has_discovered_landmark(landmark.position, landmark.name.as_str()) {
            let ghost before = targets@;
            targets.push(landmark.position.grid);
            proof {
                origin = origin.push(i as int);
                assert forall|k: int|
                    0 <= k < i + 1 && landmark_undiscovered(s, tracker@, #[trigger] s.landmarks[k]) implies targets@.contains(
                    s.landmarks[k].position.grid,
                ) by {
                    if k < i {
                        assert(before.contains(s.landmarks[k].position.grid));
                        let j = choose|j: int| 0 <= j < before.len() && before[j] == s.landmarks[k].position.grid;
                        assert(targets@[j] == before[j]);
                    } else {
                        assert(targets@[targets@.len() - 1] == s.landmarks[k].position.grid);
                    }
                }
            }
        }
        i = i + 1;
    }
    proof {
        assert forall|g: GridPos| undiscovered_landmark_at(s, tracker@, g) implies targets@.contains(g) by {
            let k = choose|k: int|
                0 <= k < s.landmarks.len() && landmark_undiscovered(s, tracker@, #[trigger] s.landmarks[k])
                    && s.landmarks[k].position.grid == g;
        }
        assert forall|g: GridPos| targets@.contains(g) implies undiscovered_landmark_at(s, tracker@, g) by {
            let j = choose|j: int| 0 <= j < targets@.len() && targets@[j] == g;
            assert(landmark_undiscovered(s, tracker@, s.landmarks[origin[j]]));
        }
    }
    let here = player.grid;
    if targets.len() > 0 {
        match path_to_targets(simulation, &targets) {
            Some(path) => {
                proof {
                    let end = walk_from_player(s, path@).unwrap();
                    assert(targets@.contains(end));
                    if path@.len() == 0 {
                        assert(end == here);
                    }
                    assert forall|q: Seq<Direction>| q.len() < path@.len() implies !#[trigger] reaches_landmark_news(
                        s,
                        tracker@,
                        q,
                    ) by {
                        assert(!reaches_goal(s, targets@, None, q));
                    }
                    assert(reaches_landmark_news(s, tracker@, path@));
                }
                return path;
            },
            None => {
                proof {
                    if s.maps.contains_key(player.map.0) {
                        assert forall|p: Seq<Direction>| !#[trigger] reaches_landmark_news(s, tracker@, p) by {
                            assert(!reaches_goal(s, targets@, None, p));
                        }
                    }
                }
            },
        }
    } else {
        proof {
            assert forall|p: Seq<Direction>| !#[trigger] reaches_landmark_news(s, tracker@, p) by {
                if let Some(end) = walk_from_player(s, p) {
                    assert(!targets@.contains(end));
                }
            }
        }
    }
    let found = search_from_player(simulation, &targets, Some(tracker));
    proof {
        if found is Some && found.unwrap()@.len() == 0 {
            assert(walk_from_player(s, found.unwrap()@) == Some(here));
        }
    }
    match found {
        Some(path) => {
            proof {
                assert(s.maps.contains_key(player.map.0));
                assert forall|q: Seq<Direction>| q.len() < path@.len() implies !#[trigger] reaches_unvisited(s, tracker@, q) by {
                    assert(!reaches_goal(s, targets@, visited_cells(Some(tracker)), q));
                }
            }
            path
        },
        None => {
            proof {
                if !undiscovered_landmark_at(s, tracker@, here) {
                    assert forall|p: Seq<Direction>| !#[trigger] reaches_news(s, tracker@, p) by {
                        if s.maps.contains_key(player.map.0) {
                            assert(!reaches_landmark_news(s, tracker@, p));
                            assert(!reaches_goal(s, targets@, visited_cells(Some(tracker)), p));
                        } else if p.len() > 0 {
                            lemma_no_map_no_walk(s, player.map, here, p);
                        }
                    }
                }
            }
            Vec::new()
        },
    }
}


// ---------------------------------------------------------------------------
// A text picture of the player's surroundings

/// Entity `k` stands, alive, at `grid` on `map`.
pub open spec fn standing_at(s: SimState, k: u64, map: MapId, grid: GridPos) -> bool {
    &&& s.entities.contains_key(k)
    &&& still_standing(s, k)
    &&& s.entities[k].position.map == map
    &&& s.entities[k].position.grid == grid
}

/// The standing entity with the smallest identity at a cell, if any.
pub open spec fn first_standing_at(s: SimState, map: MapId, grid: GridPos) -> Option<u64> {
    if exists|k: u64| standing_at(s, k, map, grid) {
        Some(
            choose|k: u64|
                standing_at(s, k, map, grid) && forall|other: u64| #[trigger]
                    standing_at(s, other, map, grid) ==> k <= other,
        )
    } else {
        None
    }
}

/// The mark an entity of each kind leaves in the picture.
pub open spec fn kind_glyph(kind: EntityKind) -> char {
    match kind {
        EntityKind::Player => '@',
        EntityKind::Character => 'n',
        EntityKind::Creature => '!',
        EntityKind::Item => '*',
    }
}

/// A landmark stands at `grid` on `map`.
pub open spec fn landmark_at(s: SimState, map: MapId, grid: GridPos) -> bool {
    exists|i: int| 0 <= i < s.landmarks.len() && #[trigger] s.landmarks[i].position == WorldPosition { map, grid }
}

/// One character of the picture: the first standing entity, else a landmark
/// (`L`), else the terrain, else a blank.
pub open spec fn viewport_glyph(s: SimState, map: MapId, grid: GridPos) -> char {
    match first_standing_at(s, map, grid) {
        Some(k) => kind_glyph(s.entities[k].kind),
        None => if landmark_at(s, map, grid) {
            'L'
        } else {
            match s.maps[map.0].cell_at(grid) {
                Some(cell) => glyph_of(cell.terrain),
                None => ' ',
            }
        },
    }
}

/// Row `y` of the picture around `center`, `radius` cells to either side.
pub open spec fn viewport_row(s: SimState, center: WorldPosition, radius: int, y: int) -> Seq<char> {
    Seq::new(
        (2 * radius + 1) as nat,
        |i: int|
            viewport_glyph(s, center.map, GridPos { x: (center.grid.x - radius + i) as i32, y: y as i32, z: center.grid.z }),
    )
}

/// The first `rows` rows of the picture, separated by line breaks.
pub open spec fn viewport_rows(s: SimState, center: WorldPosition, radius: int, rows: nat) -> Seq<char>
    decreases rows,
{
    if rows == 0 {
        Seq::empty()
    } else if rows == 1 {
        viewport_row(s, center, radius, center.grid.y - radius)
    } else {
        viewport_rows(s, center, radius, (rows - 1) as nat) + seq!['\n'] + viewport_row(
            s,
            center,
            radius,
            center.grid.y - radius + rows - 1,
        )
    }
}

/// The picture of the player's surroundings: empty without a map or with a
/// negative radius, else `2 * radius + 1` rows.
pub open spec fn viewport_picture(s: SimState, radius: int) -> Seq<char> {
    let center = player_position(s);
    if !s.maps.contains_key(center.map.0) || radius < 0 {
        Seq::empty()
    } else {
        viewport_rows(s, center, radius, (2 * radius + 1) as nat)
    }
}

fn kind_mark(kind: EntityKind) -> (glyph: char)
    ensures
        glyph == kind_glyph(kind),
{
    match kind {
        EntityKind::Player => '@',
        EntityKind::Character => 'n',
        EntityKind::Creature => '!',
        EntityKind::Item => '*',
    }
}

/// The mark of the first standing entity at a cell, given the standing
/// entities in identity order.
#[verifier::loop_isolation(false)]
fn standing_mark(Ghost(s): Ghost<SimState>, standing: &Vec<&Entity>, map_id: MapId, grid: GridPos) -> (mark: Option<char>)
    requires
        forall|k: u64| #[trigger] s.entities.contains_key(k) ==> s.entities[k].id.0 == k,
        forall|i: int| 0 <= i < standing@.len() ==> #[trigger] s.entities.contains_key(standing@[i].id.0)
            && *standing@[i] == s.entities[standing@[i].id.0] && still_standing(s, standing@[i].id.0),
        forall|k: u64| #[trigger] s.entities.contains_key(k) && still_standing(s, k) ==> exists|i: int|
            0 <= i < standing@.len() && *standing@[i] == s.entities[k],
        forall|i: int, j: int| 0 <= i < j < standing@.len() ==> (#[trigger] standing@[i]).id.0 < (#[trigger] standing@[j]).id.0,
    ensures
        match first_standing_at(s, map_id, grid) {
            Some(k) => mark == Some(kind_glyph(s.entities[k].kind)),
            None => mark is None,
        },
{
    let mut i: usize = 0;
    while i < standing.len()
        invariant
            i <= standing@.len(),
            forall|j: int| 0 <= j < i ==> !(standing@[j].position.map == map_id && standing@[j].position.grid == grid),
        decreases standing@.len() - i,
    {
        let e = standing[i];
        if e.position.map == map_id && e.position.grid == grid {
            proof {
                let k = e.id.0;
                assert(s.entities.contains_key(standing@[i as int].id.0));
                assert(standing_at(s, k, map_id, grid));
                assert forall|other: u64| #[trigger] standing_at(s, other, map_id, grid) implies k <= other by {
                    let j = choose|j: int| 0 <= j < standing@.len() && *standing@[j] == s.entities[other];
                    assert(s.entities[other].id.0 == other);
                    if j < i {
                        assert(false);
                    } else if j > i {
                        assert(standing@[i as int].id.0 < standing@[j].id.0);
                    }
                }
                let c = choose|c: u64|
                    standing_at(s, c, map_id, grid) && forall|other: u64| #[trigger]
                        standing_at(s, other, map_id, grid) ==> c <= other;
                assert(c <= k && k <= c);
            }
            return Some(kind_mark(e.kind));
        }
        i = i + 1;
    }
    proof {
        assert forall|k: u64| !standing_at(s, k, map_id, grid) by {
            if standing_at(s, k, map_id, grid) {
                let j = choose|j: int| 0 <= j < standing@.len() && *standing@[j] == s.entities[k];
                assert(!(standing@[j].position.map == map_id && standing@[j].position.grid == grid));
            }
        }
    }
    None
}

fn landmark_stands(landmarks: &Vec<Landmark>, map_id: MapId, grid: GridPos) -> (found: bool)
    ensures
        found == exists|i: int| 0 <= i < landmarks@.len() && #[trigger] landmarks@[i].position == (WorldPosition { map: map_id, grid }),
{
    let mut l: usize = 0;
    while l < landmarks.len()
        invariant
            l <= landmarks@.len(),
            forall|j: int| 0 <= j < l ==> landmarks@[j].position != (WorldPosition { map: map_id, grid }),
        decreases landmarks@.len() - l,
    {
        if landmarks[l].position.map == map_id && landmarks[l].position.grid == grid {
            proof {
                assert(landmarks@[l as int].position == WorldPosition { map: map_id, grid });
            }
            return true;
        }
        l = l + 1;
    }
    false
}

fn glyph_for(
    simulation: &Simulation,
    standing: &Vec<&Entity>,
    map: &WorldMap,
    map_id: MapId,
    grid: GridPos,
) -> (glyph: char)
    requires
        simulation.wf(),
        simulation@.maps.contains_key(map_id.0),
        *map == simulation@.maps[map_id.0],
        forall|i: int| 0 <= i < standing@.len() ==> #[trigger] simulation@.entities.contains_key(standing@[i].id.0)
            && *standing@[i] == simulation@.entities[standing@[i].id.0] && still_standing(simulation@, standing@[i].id.0),
        forall|k: u64| #[trigger] simulation@.entities.contains_key(k) && still_standing(simulation@, k) ==> exists|i: int|
            0 <= i < standing@.len() && *standing@[i] == simulation@.entities[k],
        forall|i: int, j: int| 0 <= i < j < standing@.len() ==> (#[trigger] standing@[i]).id.0 < (#[trigger] standing@[j]).id.0,
    ensures
        glyph == viewport_glyph(simulation@, map_id, grid),
{
    match standing_mark(Ghost(simulation@), standing, map_id, grid) {
        Some(mark) => mark,
        None => {
            if landmark_stands(simulation.landmarks(), map_id, grid) {
                'L'
            } else {
                match map.cell(grid) {
                    Some(cell) => terrain_glyph(cell.terrain),
                    None => ' ',
                }
            }
        },
    }
}

/// A text picture of the cells around the player, `radius` cells to each
/// side: `@`, `n`, `!` and `*` for entities, `L` for landmarks, terrain glyphs
/// elsewhere and blanks where the map stores nothing; rows end in line breaks
/// but the last.
pub fn viewport_ascii(simulation: &Simulation, radius: i32) -> (picture: String)
    requires
        simulation.wf(),
        player_position(simulation@).grid.x - radius >= i32::MIN,
        player_position(simulation@).grid.x + radius <= i32::MAX,
        player_position(simulation@).grid.y - radius >= i32::MIN,
        player_position(simulation@).grid.y + radius <= i32::MAX,
    ensures
        picture@ == viewport_picture(simulation@, radius as int),
{
    let center = simulation.player().position;
    let map = match simulation.map(center.map) {
        None => {
            return String::new();
        },
        Some(m) => m,
    };
    let mut picture = String::new();
    if radius < 0 {
        return picture;
    }
    let ghost s = simulation@;
    let standing = simulation.entities();
    let rows: i64 = 2 * (radius as i64) + 1;
    let mut row: i64 = 0;
    while row < rows
        invariant
            simulation.wf(),
            s == simulation@,
            center == player_position(s),
            0 <= radius,
            center.grid.x - radius >= i32::MIN,
            center.grid.x + radius <= i32::MAX,
            center.grid.y - radius >= i32::MIN,
            center.grid.y + radius <= i32::MAX,
            rows == 2 * radius + 1,
            0 <= row <= rows,
            s.maps.contains_key(center.map.0),
            *map == s.maps[center.map.0],
            forall|i: int| 0 <= i < standing@.len() ==> #[trigger] s.entities.contains_key(standing@[i].id.0)
                && *standing@[i] == s.entities[standing@[i].id.0] && still_standing(s, standing@[i].id.0),
            forall|k: u64| #[trigger] s.entities.contains_key(k) && still_standing(s, k) ==> exists|i: int|
                0 <= i < standing@.len() && *standing@[i] == s.entities[k],
            forall|i: int, j: int| 0 <= i < j < standing@.len() ==> (#[trigger] standing@[i]).id.0 < (#[trigger] standing@[j]).id.0,
            picture@ == viewport_rows(s, center, radius as int, row as nat),
        decreases rows - row,
    {
        let y = (center.grid.y as i64 - radius as i64 + row) as i32;
        if row > 0 {
            crate::text::push_char(&mut picture, '\n');
        }
        let ghost before = picture@;
        let mut column: i64 = 0;
        while column < rows
            invariant
                simulation.wf(),
                s == simulation@,
                center == player_position(s),
                0 <= radius,
                center.grid.x - radius >= i32::MIN,
                center.grid.x + radius <= i32::MAX,
                rows == 2 * radius + 1,
                0 <= column <= rows,
                y == center.grid.y - radius + row,
                s.maps.contains_key(center.map.0),
                *map == s.maps[center.map.0],
                forall|i: int| 0 <= i < standing@.len() ==> #[trigger] s.entities.contains_key(standing@[i].id.0)
                    && *standing@[i] == s.entities[standing@[i].id.0] && still_standing(s, standing@[i].id.0),
                forall|k: u64| #[trigger] s.entities.contains_key(k) && still_standing(s, k) ==> exists|i: int|
                    0 <= i < standing@.len() && *standing@[i] == s.entities[k],
                forall|i: int, j: int| 0 <= i < j < standing@.len() ==> (#[trigger] standing@[i]).id.0 < (#[trigger] standing@[j]).id.0,
                picture@ == before + viewport_row(s, center, radius as int, y as int).take(column as int),
            decreases rows - column,
        {
            let x = (center.grid.x as i64 - radius as i64 + column) as i32;
            let glyph = glyph_for(simulation, &standing, map, center.map, GridPos { x, y, z: center.grid.z });
            crate::text::push_char(&mut picture, glyph);
            proof {
                let full = viewport_row(s, center, radius as int, y as int);
                assert(full[column as int] == glyph);
                assert(picture@ =~= before + full.take(column + 1));
            }
            column = column + 1;
        }
        proof {
            let full = viewport_row(s, center, radius as int, y as int);
            assert(full.take(rows as int) =~= full);
            if row == 0 {
                assert(before =~= Seq::<char>::empty());
                assert(picture@ =~= full);
            }
        }
        row = row + 1;
    }
    picture
}

} // verus!
