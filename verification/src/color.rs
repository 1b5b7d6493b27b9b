//! Hexadecimal bytes and the two ways a colour is written.

use crate::scan::{hex_value, is_hex, literal, parsed, spec_literal, tail};
use vstd::prelude::*;

verus! {

/// A colour: red, green and blue always, alpha only where the text gave one.
#[derive(Clone, Copy, Debug, PartialEq, Eq)]
pub struct Color {
    pub alpha: Option<u8>,
    pub red: u8,
    pub green: u8,
    pub blue: u8,
}

impl DeepView for Color {
    type V = Color;

    open spec fn deep_view(&self) -> Color {
        *self
    }
}

/// Why a text is not a hexadecimal byte.
#[derive(Clone, Copy, Debug, PartialEq, Eq)]
pub enum HexError {
    /// There is no digit at all.
    Empty,
    /// A character is not a hexadecimal digit.
    InvalidDigit,
    /// The number does not fit in a byte.
    Overflow,
}

/// Scans the digits `ds` from the left, carrying the number read so far:
/// the first character that is no digit, or the first digit that takes the
/// number past a byte, decides the error.
pub open spec fn spec_hex_digits(ds: Seq<char>, so_far: int) -> Result<u8, HexError>
    decreases ds.len(),
{
    if ds.len() == 0 {
        Ok(so_far as u8)
    } else if !is_hex(ds[0]) {
        Err(HexError::InvalidDigit)
    } else if so_far * 16 + hex_value(ds[0]) > u8::MAX {
        Err(HexError::Overflow)
    } else {
        spec_hex_digits(ds.drop_first(), so_far * 16 + hex_value(ds[0]))
    }
}

/// The byte that the whole of `s` writes in hexadecimal: an optional `+`,
/// then one or more digits.
pub open spec fn spec_from_hex(s: Seq<char>) -> Result<u8, HexError> {
    if s.len() == 0 {
        Err(HexError::Empty)
    } else if s[0] == '+' {
        if s.len() == 1 {
            Err(HexError::InvalidDigit)
        } else {
            spec_hex_digits(s.drop_first(), 0)
        }
    } else {
        spec_hex_digits(s, 0)
    }
}

/// The value of one hexadecimal digit.
pub fn hex_digit(c: char) -> (r: Option<u8>)
    ensures
        match r {
            Some(d) => is_hex(c) && d == hex_value(c),
            None => !is_hex(c),
        },
{
    if c >= '0' && c <= '9' {
        Some((c as u32 - '0' as u32) as u8)
    } else if c >= 'a' && c <= 'f' {
        Some((c as u32 - 'a' as u32 + 10) as u8)
    } else if c >= 'A' && c <= 'F' {
        Some((c as u32 - 'A' as u32 + 10) as u8)
    } else {
        None
    }
}

/// Reads the whole of `input` as a byte written in hexadecimal.
pub fn from_hex(input: &str) -> (r: Result<u8, HexError>)
    ensures
        r == spec_from_hex(input@),
{
    let chars = crate::scan::to_chars(input);
    let n = chars.len();
    if n == 0 {
        return Err(HexError::Empty);
    }
    let start: usize = if chars[0] == '+' {
        1
    } else {
        0
    };
    if start == n {
        return Err(HexError::InvalidDigit);
    }
    let ghost ds = chars@.skip(start as int);
    assert(chars@.skip(0) =~= chars@);
    assert(chars@.skip(1) =~= chars@.drop_first());
    let mut value: u8 = 0;
    let mut i: usize = start;
    while i < n
        invariant
            start <= i <= n,
            n == chars@.len(),
            spec_from_hex(input@) == spec_hex_digits(chars@.skip(i as int), value as int),
        decreases n - i,
    {
        let ghost rest = chars@.skip(i as int);
        assert(rest[0] == chars@[i as int]);
        assert(rest.drop_first() =~= chars@.skip(i + 1));
        match hex_digit(chars[i]) {
            None => {
                return Err(HexError::InvalidDigit);
            },
            Some(d) => {
                if value > 15 || (value == 15 && d > 15) {
                    return Err(HexError::Overflow);
                }
                value = value * 16 + d;
            },
        }
        i = i + 1;
    }
    Ok(value)
}

/// The byte that two hexadecimal digits at the start of `s` write.
pub open spec fn spec_hex_primary(s: Seq<char>) -> Option<(u8, int)> {
    if s.len() >= 2 && is_hex(s[0]) && is_hex(s[1]) {
        Some(((hex_value(s[0]) * 16 + hex_value(s[1])) as u8, 2))
    } else {
        None
    }
}

/// Reads a byte written as exactly two hexadecimal digits.
pub fn hex_primary(input: &[char]) -> (r: Option<(u8, usize)>)
    ensures
        parsed(r) == spec_hex_primary(input@),
        r matches Some((_, n)) ==> n == 2 && n <= input.len(),
{
    if input.len() < 2 {
        return None;
    }
    match (hex_digit(input[0]), hex_digit(input[1])) {
        (Some(high), Some(low)) => Some((high * 16 + low, 2)),
        _ => None,
    }
}

/// The colour written in full at the start of `s`: `&H`, then alpha, blue,
/// green and red, two hexadecimal digits each.
pub open spec fn spec_full_color(s: Seq<char>) -> Option<(Color, int)> {
    if spec_literal(s, "&H"@) is Some {
        match (
            spec_hex_primary(s.skip(2)),
            spec_hex_primary(s.skip(4)),
            spec_hex_primary(s.skip(6)),
            spec_hex_primary(s.skip(8)),
        ) {
            (Some((alpha, _)), Some((blue, _)), Some((green, _)), Some((red, _))) => Some(
                (Color { alpha: Some(alpha), red, green, blue }, 10),
            ),
            _ => None,
        }
    } else {
        None
    }
}

/// Reads a colour written in full, with its alpha.
pub fn full_color(input: &[char]) -> (r: Option<(Color, usize)>)
    ensures
        parsed(r) == spec_full_color(input@),
        r matches Some((_, n)) ==> n == 10 && n <= input.len(),
{
    proof {
        reveal_strlit("&H");
    }
    if literal(input, "&H").is_none() {
        return None;
    }
    let (alpha, _) = match hex_primary(tail(input, 2)) {
        Some(p) => p,
        None => { return None; },
    };
    let (blue, _) = match hex_primary(tail(input, 4)) {
        Some(p) => p,
        None => { return None; },
    };
    let (green, _) = match hex_primary(tail(input, 6)) {
        Some(p) => p,
        None => { return None; },
    };
    let (red, _) = match hex_primary(tail(input, 8)) {
        Some(p) => p,
        None => { return None; },
    };
    Some((Color { alpha: Some(alpha), red, green, blue }, 10))
}

/// The colour without alpha at the start of `s`: red, green and blue, two
/// hexadecimal digits each.
pub open spec fn spec_partial_color(s: Seq<char>) -> Option<(Color, int)> {
    match (spec_hex_primary(s), spec_hex_primary(s.skip(2)), spec_hex_primary(s.skip(4))) {
        (Some((red, _)), Some((green, _)), Some((blue, _))) => Some(
            (Color { alpha: None, red, green, blue }, 6),
        ),
        _ => None,
    }
}

/// Reads a colour written without alpha.
pub fn partial_color(input: &[char]) -> (r: Option<(Color, usize)>)
    ensures
        parsed(r) == spec_partial_color(input@),
        r matches Some((_, n)) ==> n == 6 && n <= input.len(),
{
    let (red, _) = match hex_primary(input) {
        Some(p) => p,
        None => { return None; },
    };
    let (green, _) = match hex_primary(tail(input, 2)) {
        Some(p) => p,
        None => { return None; },
    };
    let (blue, _) = match hex_primary(tail(input, 4)) {
        Some(p) => p,
        None => { return None; },
    };
    Some((Color { alpha: None, red, green, blue }, 6))
}

/// The six digits that an inline colour stands for: the digits as captured,
/// last one first, then `0` as often as needed to make six.
pub open spec fn reversed_padded(raw: Seq<char>) -> Seq<char> {
    Seq::new(
        6,
        |i: int|
            if i < raw.len() {
                raw[raw.len() - 1 - i]
            } else {
                '0'
            },
    )
}

/// The colour that the digits captured from an inline colour tag stand for.
pub open spec fn spec_inline_color(raw: Seq<char>) -> Option<Color> {
    match spec_partial_color(reversed_padded(raw)) {
        Some((color, _)) => Some(color),
        None => None,
    }
}

/// Decodes the digits captured from an inline colour tag.
pub fn inline_color(raw: &[char]) -> (r: Option<Color>)
    ensures
        r == spec_inline_color(raw@),
{
    let n = raw.len();
    let mut digits: Vec<char> = Vec::new();
    let mut i: usize = 0;
    while i < 6
        invariant
            i <= 6,
            n == raw@.len(),
            digits@.len() == i,
            forall|k: int| 0 <= k < i ==> digits@[k] == reversed_padded(raw@)[k],
        decreases 6 - i,
    {
        if i < n {
            digits.push(raw[n - 1 - i]);
        } else {
            digits.push('0');
        }
        i = i + 1;
    }
    assert(digits@ =~= reversed_padded(raw@));
    match partial_color(digits.as_slice()) {
        Some((color, _)) => Some(color),
        None => None,
    }
}

} // verus!
