//! Render-side pieces that are pure integer logic: viewport size, per-tile
//! variation hashes, draw ordering and the bitmap font.
use vstd::prelude::*;

use crate::geometry::GridPos;
use crate::present::{Appearance, CharacterAppearance};
use crate::text::{ascii_upper, ascii_upper_char};

verus! {

#[derive(Clone, Copy, Debug, PartialEq, Eq, Structural)]
pub struct ViewportSize {
    pub width: u32,
    pub height: u32,
}

/// A compact, code-native pixel-art pack inspired by late-1980s and early-1990s
/// overhead role-playing games.
#[derive(Clone, Copy, Debug, Default)]
pub struct ClassicArtPack;

/// Left rotation of a 64-bit value by `n` bits, `0 < n < 64`.
pub open spec fn rotl(x: u64, n: u64) -> u64 {
    ((x << n) | (x >> (64 - n) as u64)) as u64
}

/// A coordinate widened with sign extension and reinterpreted as unsigned.
pub open spec fn widen(v: int) -> u64 {
    (v as i64) as u64
}

/// The deterministic per-tile variation hash.
pub open spec fn tile_hash_spec(position: GridPos, salt: u64) -> u64 {
    let a = widen(position.x as int).wrapping_mul(0x9e37_79b9u64);
    let b = a ^ rotl(widen(position.y as int), 21);
    let c = b ^ rotl(widen(position.z as int), 43);
    let d = c ^ salt.wrapping_mul(0xbf58_476du64);
    let e = d ^ (d >> 30u64);
    let f = e.wrapping_mul(0xbf58_476d_1ce4_e5b9u64);
    f ^ (f >> 27u64)
}

fn rotl_exec(x: u64, n: u64) -> (r: u64)
    requires
        0 < n < 64,
    ensures
        r == rotl(x, n),
{
    (x << n) | (x >> (64 - n))
}

pub fn tile_hash(position: GridPos, salt: u64) -> (hash: u64)
    ensures
        hash == tile_hash_spec(position, salt),
{
    let mut value = (position.x as i64 as u64).wrapping_mul(0x9e37_79b9u64);
    value = value ^ rotl_exec(position.y as i64 as u64, 21);
    value = value ^ rotl_exec(position.z as i64 as u64, 43);
    value = value ^ salt.wrapping_mul(0xbf58_476du64);
    value = value ^ (value >> 30u64);
    value = value.wrapping_mul(0xbf58_476d_1ce4_e5b9u64);
    value ^ (value >> 27u64)
}

/// Draw order of an entity: rows further south draw later, and on one tile the
/// player draws above everything else.
pub open spec fn entity_depth_spec(position: GridPos, appearance: Appearance) -> int {
    position.y * 128 + if appearance == Appearance::Character(CharacterAppearance::Player) {
        96int
    } else {
        64int
    }
}

pub fn entity_depth(position: GridPos, appearance: Appearance) -> (depth: i64)
    ensures
        depth == entity_depth_spec(position, appearance),
{
    let layer: i64 = match appearance {
        Appearance::Character(CharacterAppearance::Player) => 96,
        _ => 64,
    };
    position.y as i64 * 128 + layer
}

/// The 5x7 bitmap rows of an upper-cased glyph; unknown characters draw as '?'.
pub open spec fn glyph_bitmap(c: char) -> Seq<u8> {
    if c == 'A' {
        seq![0b01110u8, 0b10001u8, 0b10001u8, 0b11111u8, 0b10001u8, 0b10001u8, 0b10001u8]
    } else if c == 'B' {
        seq![0b11110u8, 0b10001u8, 0b10001u8, 0b11110u8, 0b10001u8, 0b10001u8, 0b11110u8]
    } else if c == 'C' {
        seq![0b01111u8, 0b10000u8, 0b10000u8, 0b10000u8, 0b10000u8, 0b10000u8, 0b01111u8]
    } else if c == 'D' {
        seq![0b11110u8, 0b10001u8, 0b10001u8, 0b10001u8, 0b10001u8, 0b10001u8, 0b11110u8]
    } else if c == 'E' {
        seq![0b11111u8, 0b10000u8, 0b10000u8, 0b11110u8, 0b10000u8, 0b10000u8, 0b11111u8]
    } else if c == 'F' {
        seq![0b11111u8, 0b10000u8, 0b10000u8, 0b11110u8, 0b10000u8, 0b10000u8, 0b10000u8]
    } else if c == 'G' {
        seq![0b01111u8, 0b10000u8, 0b10000u8, 0b10111u8, 0b10001u8, 0b10001u8, 0b01111u8]
    } else if c == 'H' {
        seq![0b10001u8, 0b10001u8, 0b10001u8, 0b11111u8, 0b10001u8, 0b10001u8, 0b10001u8]
    } else if c == 'I' {
        seq![0b11111u8, 0b00100u8, 0b00100u8, 0b00100u8, 0b00100u8, 0b00100u8, 0b11111u8]
    } else if c == 'J' {
        seq![0b00111u8, 0b00010u8, 0b00010u8, 0b00010u8, 0b10010u8, 0b10010u8, 0b01100u8]
    } else if c == 'K' {
        seq![0b10001u8, 0b10010u8, 0b10100u8, 0b11000u8, 0b10100u8, 0b10010u8, 0b10001u8]
    } else if c == 'L' {
        seq![0b10000u8, 0b10000u8, 0b10000u8, 0b10000u8, 0b10000u8, 0b10000u8, 0b11111u8]
    } else if c == 'M' {
        seq![0b10001u8, 0b11011u8, 0b10101u8, 0b10101u8, 0b10001u8, 0b10001u8, 0b10001u8]
    } else if c == 'N' {
        seq![0b10001u8, 0b11001u8, 0b10101u8, 0b10011u8, 0b10001u8, 0b10001u8, 0b10001u8]
    } else if c == 'O' {
        seq![0b01110u8, 0b10001u8, 0b10001u8, 0b10001u8, 0b10001u8, 0b10001u8, 0b01110u8]
    } else if c == 'P' {
        seq![0b11110u8, 0b10001u8, 0b10001u8, 0b11110u8, 0b10000u8, 0b10000u8, 0b10000u8]
    } else if c == 'Q' {
        seq![0b01110u8, 0b10001u8, 0b10001u8, 0b10001u8, 0b10101u8, 0b10010u8, 0b01101u8]
    } else if c == 'R' {
        seq![0b11110u8, 0b10001u8, 0b10001u8, 0b11110u8, 0b10100u8, 0b10010u8, 0b10001u8]
    } else if c == 'S' {
        seq![0b01111u8, 0b10000u8, 0b10000u8, 0b01110u8, 0b00001u8, 0b00001u8, 0b11110u8]
    } else if c == 'T' {
        seq![0b11111u8, 0b00100u8, 0b00100u8, 0b00100u8, 0b00100u8, 0b00100u8, 0b00100u8]
    } else if c == 'U' {
        seq![0b10001u8, 0b10001u8, 0b10001u8, 0b10001u8, 0b10001u8, 0b10001u8, 0b01110u8]
    } else if c == 'V' {
        seq![0b10001u8, 0b10001u8, 0b10001u8, 0b10001u8, 0b10001u8, 0b01010u8, 0b00100u8]
    } else if c == 'W' {
        seq![0b10001u8, 0b10001u8, 0b10001u8, 0b10101u8, 0b10101u8, 0b10101u8, 0b01010u8]
    } else if c == 'X' {
        seq![0b10001u8, 0b10001u8, 0b01010u8, 0b00100u8, 0b01010u8, 0b10001u8, 0b10001u8]
    } else if c == 'Y' {
        seq![0b10001u8, 0b10001u8, 0b01010u8, 0b00100u8, 0b00100u8, 0b00100u8, 0b00100u8]
    } else if c == 'Z' {
        seq![0b11111u8, 0b00001u8, 0b00010u8, 0b00100u8, 0b01000u8, 0b10000u8, 0b11111u8]
    } else if c == '0' {
        seq![0b01110u8, 0b10001u8, 0b10011u8, 0b10101u8, 0b11001u8, 0b10001u8, 0b01110u8]
    } else if c == '1' {
        seq![0b00100u8, 0b01100u8, 0b00100u8, 0b00100u8, 0b00100u8, 0b00100u8, 0b01110u8]
    } else if c == '2' {
        seq![0b01110u8, 0b10001u8, 0b00001u8, 0b00010u8, 0b00100u8, 0b01000u8, 0b11111u8]
    } else if c == '3' {
        seq![0b11110u8, 0b00001u8, 0b00001u8, 0b01110u8, 0b00001u8, 0b00001u8, 0b11110u8]
    } else if c == '4' {
        seq![0b00010u8, 0b00110u8, 0b01010u8, 0b10010u8, 0b11111u8, 0b00010u8, 0b00010u8]
    } else if c == '5' {
        seq![0b11111u8, 0b10000u8, 0b10000u8, 0b11110u8, 0b00001u8, 0b00001u8, 0b11110u8]
    } else if c == '6' {
        seq![0b01110u8, 0b10000u8, 0b10000u8, 0b11110u8, 0b10001u8, 0b10001u8, 0b01110u8]
    } else if c == '7' {
        seq![0b11111u8, 0b00001u8, 0b00010u8, 0b00100u8, 0b01000u8, 0b01000u8, 0b01000u8]
    } else if c == '8' {
        seq![0b01110u8, 0b10001u8, 0b10001u8, 0b01110u8, 0b10001u8, 0b10001u8, 0b01110u8]
    } else if c == '9' {
        seq![0b01110u8, 0b10001u8, 0b10001u8, 0b01111u8, 0b00001u8, 0b00001u8, 0b01110u8]
    } else if c == '.' {
        seq![0u8, 0u8, 0u8, 0u8, 0u8, 0b00110u8, 0b00110u8]
    } else if c == ',' {
        seq![0u8, 0u8, 0u8, 0u8, 0b00110u8, 0b00110u8, 0b00100u8]
    } else if c == ':' {
        seq![0u8, 0b00110u8, 0b00110u8, 0u8, 0b00110u8, 0b00110u8, 0u8]
    } else if c == ';' {
        seq![0u8, 0b00110u8, 0b00110u8, 0u8, 0b00110u8, 0b00110u8, 0b00100u8]
    } else if c == '!' {
        seq![0b00100u8, 0b00100u8, 0b00100u8, 0b00100u8, 0b00100u8, 0u8, 0b00100u8]
    } else if c == '?' {
        seq![0b01110u8, 0b10001u8, 0b00001u8, 0b00010u8, 0b00100u8, 0u8, 0b00100u8]
    } else if c == '\'' {
        seq![0b00100u8, 0b00100u8, 0b00010u8, 0u8, 0u8, 0u8, 0u8]
    } else if c == '"' {
        seq![0b01010u8, 0b01010u8, 0b00100u8, 0u8, 0u8, 0u8, 0u8]
    } else if c == '-' || c == '—' || c == '–' {
        seq![0u8, 0u8, 0u8, 0b11111u8, 0u8, 0u8, 0u8]
    } else if c == '/' {
        seq![0b00001u8, 0b00010u8, 0b00010u8, 0b00100u8, 0b01000u8, 0b01000u8, 0b10000u8]
    } else if c == '(' {
        seq![0b00010u8, 0b00100u8, 0b01000u8, 0b01000u8, 0b01000u8, 0b00100u8, 0b00010u8]
    } else if c == ')' {
        seq![0b01000u8, 0b00100u8, 0b00010u8, 0b00010u8, 0b00010u8, 0b00100u8, 0b01000u8]
    } else if c == '[' {
        seq![0b01110u8, 0b01000u8, 0b01000u8, 0b01000u8, 0b01000u8, 0b01000u8, 0b01110u8]
    } else if c == ']' {
        seq![0b01110u8, 0b00010u8, 0b00010u8, 0b00010u8, 0b00010u8, 0b00010u8, 0b01110u8]
    } else if c == '+' {
        seq![0u8, 0b00100u8, 0b00100u8, 0b11111u8, 0b00100u8, 0b00100u8, 0u8]
    } else if c == '=' {
        seq![0u8, 0u8, 0b11111u8, 0u8, 0b11111u8, 0u8, 0u8]
    } else if c == '%' {
        seq![0b11001u8, 0b11010u8, 0b00100u8, 0b01000u8, 0b10110u8, 0b00110u8, 0u8]
    } else if c == ' ' {
        seq![0u8, 0u8, 0u8, 0u8, 0u8, 0u8, 0u8]
    } else {
        seq![0b01110u8, 0b10001u8, 0b00001u8, 0b00010u8, 0b00100u8, 0u8, 0b00100u8]
    }
}

/// The bitmap rows of a character, drawn in upper case.
pub fn glyph_rows(character: char) -> (rows: [u8; 7])
    ensures
        rows@ == glyph_bitmap(ascii_upper(character)),
{
    let c = ascii_upper_char(character);
    let rows = match c {
        'A' => [0b01110u8, 0b10001u8, 0b10001u8, 0b11111u8, 0b10001u8, 0b10001u8, 0b10001u8],
        'B' => [0b11110u8, 0b10001u8, 0b10001u8, 0b11110u8, 0b10001u8, 0b10001u8, 0b11110u8],
        'C' => [0b01111u8, 0b10000u8, 0b10000u8, 0b10000u8, 0b10000u8, 0b10000u8, 0b01111u8],
        'D' => [0b11110u8, 0b10001u8, 0b10001u8, 0b10001u8, 0b10001u8, 0b10001u8, 0b11110u8],
        'E' => [0b11111u8, 0b10000u8, 0b10000u8, 0b11110u8, 0b10000u8, 0b10000u8, 0b11111u8],
        'F' => [0b11111u8, 0b10000u8, 0b10000u8, 0b11110u8, 0b10000u8, 0b10000u8, 0b10000u8],
        'G' => [0b01111u8, 0b10000u8, 0b10000u8, 0b10111u8, 0b10001u8, 0b10001u8, 0b01111u8],
        'H' => [0b10001u8, 0b10001u8, 0b10001u8, 0b11111u8, 0b10001u8, 0b10001u8, 0b10001u8],
        'I' => [0b11111u8, 0b00100u8, 0b00100u8, 0b00100u8, 0b00100u8, 0b00100u8, 0b11111u8],
        'J' => [0b00111u8, 0b00010u8, 0b00010u8, 0b00010u8, 0b10010u8, 0b10010u8, 0b01100u8],
        'K' => [0b10001u8, 0b10010u8, 0b10100u8, 0b11000u8, 0b10100u8, 0b10010u8, 0b10001u8],
        'L' => [0b10000u8, 0b10000u8, 0b10000u8, 0b10000u8, 0b10000u8, 0b10000u8, 0b11111u8],
        'M' => [0b10001u8, 0b11011u8, 0b10101u8, 0b10101u8, 0b10001u8, 0b10001u8, 0b10001u8],
        'N' => [0b10001u8, 0b11001u8, 0b10101u8, 0b10011u8, 0b10001u8, 0b10001u8, 0b10001u8],
        'O' => [0b01110u8, 0b10001u8, 0b10001u8, 0b10001u8, 0b10001u8, 0b10001u8, 0b01110u8],
        'P' => [0b11110u8, 0b10001u8, 0b10001u8, 0b11110u8, 0b10000u8, 0b10000u8, 0b10000u8],
        'Q' => [0b01110u8, 0b10001u8, 0b10001u8, 0b10001u8, 0b10101u8, 0b10010u8, 0b01101u8],
        'R' => [0b11110u8, 0b10001u8, 0b10001u8, 0b11110u8, 0b10100u8, 0b10010u8, 0b10001u8],
        'S' => [0b01111u8, 0b10000u8, 0b10000u8, 0b01110u8, 0b00001u8, 0b00001u8, 0b11110u8],
        'T' => [0b11111u8, 0b00100u8, 0b00100u8, 0b00100u8, 0b00100u8, 0b00100u8, 0b00100u8],
        'U' => [0b10001u8, 0b10001u8, 0b10001u8, 0b10001u8, 0b10001u8, 0b10001u8, 0b01110u8],
        'V' => [0b10001u8, 0b10001u8, 0b10001u8, 0b10001u8, 0b10001u8, 0b01010u8, 0b00100u8],
        'W' => [0b10001u8, 0b10001u8, 0b10001u8, 0b10101u8, 0b10101u8, 0b10101u8, 0b01010u8],
        'X' => [0b10001u8, 0b10001u8, 0b01010u8, 0b00100u8, 0b01010u8, 0b10001u8, 0b10001u8],
        'Y' => [0b10001u8, 0b10001u8, 0b01010u8, 0b00100u8, 0b00100u8, 0b00100u8, 0b00100u8],
        'Z' => [0b11111u8, 0b00001u8, 0b00010u8, 0b00100u8, 0b01000u8, 0b10000u8, 0b11111u8],
        '0' => [0b01110u8, 0b10001u8, 0b10011u8, 0b10101u8, 0b11001u8, 0b10001u8, 0b01110u8],
        '1' => [0b00100u8, 0b01100u8, 0b00100u8, 0b00100u8, 0b00100u8, 0b00100u8, 0b01110u8],
        '2' => [0b01110u8, 0b10001u8, 0b00001u8, 0b00010u8, 0b00100u8, 0b01000u8, 0b11111u8],
        '3' => [0b11110u8, 0b00001u8, 0b00001u8, 0b01110u8, 0b00001u8, 0b00001u8, 0b11110u8],
        '4' => [0b00010u8, 0b00110u8, 0b01010u8, 0b10010u8, 0b11111u8, 0b00010u8, 0b00010u8],
        '5' => [0b11111u8, 0b10000u8, 0b10000u8, 0b11110u8, 0b00001u8, 0b00001u8, 0b11110u8],
        '6' => [0b01110u8, 0b10000u8, 0b10000u8, 0b11110u8, 0b10001u8, 0b10001u8, 0b01110u8],
        '7' => [0b11111u8, 0b00001u8, 0b00010u8, 0b00100u8, 0b01000u8, 0b01000u8, 0b01000u8],
        '8' => [0b01110u8, 0b10001u8, 0b10001u8, 0b01110u8, 0b10001u8, 0b10001u8, 0b01110u8],
        '9' => [0b01110u8, 0b10001u8, 0b10001u8, 0b01111u8, 0b00001u8, 0b00001u8, 0b01110u8],
        '.' => [0u8, 0u8, 0u8, 0u8, 0u8, 0b00110u8, 0b00110u8],
        ',' => [0u8, 0u8, 0u8, 0u8, 0b00110u8, 0b00110u8, 0b00100u8],
        ':' => [0u8, 0b00110u8, 0b00110u8, 0u8, 0b00110u8, 0b00110u8, 0u8],
        ';' => [0u8, 0b00110u8, 0b00110u8, 0u8, 0b00110u8, 0b00110u8, 0b00100u8],
        '!' => [0b00100u8, 0b00100u8, 0b00100u8, 0b00100u8, 0b00100u8, 0u8, 0b00100u8],
        '?' => [0b01110u8, 0b10001u8, 0b00001u8, 0b00010u8, 0b00100u8, 0u8, 0b00100u8],
        '\'' => [0b00100u8, 0b00100u8, 0b00010u8, 0u8, 0u8, 0u8, 0u8],
        '"' => [0b01010u8, 0b01010u8, 0b00100u8, 0u8, 0u8, 0u8, 0u8],
        '-' | '—' | '–' => [0u8, 0u8, 0u8, 0b11111u8, 0u8, 0u8, 0u8],
        '/' => [0b00001u8, 0b00010u8, 0b00010u8, 0b00100u8, 0b01000u8, 0b01000u8, 0b10000u8],
        '(' => [0b00010u8, 0b00100u8, 0b01000u8, 0b01000u8, 0b01000u8, 0b00100u8, 0b00010u8],
        ')' => [0b01000u8, 0b00100u8, 0b00010u8, 0b00010u8, 0b00010u8, 0b00100u8, 0b01000u8],
        '[' => [0b01110u8, 0b01000u8, 0b01000u8, 0b01000u8, 0b01000u8, 0b01000u8, 0b01110u8],
        ']' => [0b01110u8, 0b00010u8, 0b00010u8, 0b00010u8, 0b00010u8, 0b00010u8, 0b01110u8],
        '+' => [0u8, 0b00100u8, 0b00100u8, 0b11111u8, 0b00100u8, 0b00100u8, 0u8],
        '=' => [0u8, 0u8, 0b11111u8, 0u8, 0b11111u8, 0u8, 0u8],
        '%' => [0b11001u8, 0b11010u8, 0b00100u8, 0b01000u8, 0b10110u8, 0b00110u8, 0u8],
        ' ' => [0u8, 0u8, 0u8, 0u8, 0u8, 0u8, 0u8],
        _ => [0b01110u8, 0b10001u8, 0b00001u8, 0b00010u8, 0b00100u8, 0u8, 0b00100u8],
    };
    assert(rows@ =~= glyph_bitmap(c));
    rows
}
} // verus!
