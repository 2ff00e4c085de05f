//! Colours written as six hexadecimal digits, `RRGGBB`.

use vstd::prelude::*;

verus! {

#[derive(Clone, Copy, Debug, PartialEq, Eq, Structural)]
pub struct RgbColor {
    pub r: u8,
    pub g: u8,
    pub b: u8,
}

pub open spec fn is_hex_digit(c: char) -> bool {
    ('0' <= c && c <= '9') || ('a' <= c && c <= 'f') || ('A' <= c && c <= 'F')
}

pub open spec fn hex_value(c: char) -> int {
    if '0' <= c && c <= '9' {
        c as int - '0' as int
    } else if 'a' <= c && c <= 'f' {
        c as int - 'a' as int + 10
    } else {
        c as int - 'A' as int + 10
    }
}

/// The byte written by the two hex digits at `i` and `i + 1`.
pub open spec fn hex_byte(s: Seq<char>, i: int) -> int {
    hex_value(s[i]) * 16 + hex_value(s[i + 1])
}

pub open spec fn is_hex_color(s: Seq<char>) -> bool {
    s.len() == 6 && forall|i: int| 0 <= i < 6 ==> is_hex_digit(#[trigger] s[i])
}

fn hex_digit(c: char) -> (r: Option<u8>)
    ensures
        r is Some <==> is_hex_digit(c),
        r matches Some(v) ==> v as int == hex_value(c) && v < 16,
{
    if c >= '0' && c <= '9' {
        Some((c as u32 - '0' as u32) as u8)
    } else if c >= 'a' && c <= 'f' {
        Some((c as u32 - 'a' as u32 + 10) as u8)
    } else if c >= 'A' && c <= 'F' {
        Some((c as u32 - 'A' as u32 + 10) as u8)
    } else {
        None
    }
}

fn hex_pair(s: &str, i: usize) -> (r: Option<u8>)
    requires
        i < 5,
        i + 1 < s@.len(),
    ensures
        r is Some <==> is_hex_digit(s@[i as int]) && is_hex_digit(s@[i + 1]),
        r matches Some(v) ==> v as int == hex_byte(s@, i as int),
{
    let hi = hex_digit(s.get_char(i));
    let lo = hex_digit(s.get_char(i + 1));
    match (hi, lo) {
        (Some(h), Some(l)) => Some(h * 16 + l),
        _ => None,
    }
}

impl RgbColor {
    /// Reads `RRGGBB`; fails on any other text.
    pub fn from_hex(s: &str) -> (r: Result<RgbColor, ()>)
        ensures
            r is Ok <==> is_hex_color(s@),
            r matches Ok(c) ==> c.r as int == hex_byte(s@, 0) && c.g as int == hex_byte(s@, 2)
                && c.b as int == hex_byte(s@, 4),
    {
        if s.unicode_len() != 6 {
            return Err(());
        }
        let r = hex_pair(s, 0);
        let g = hex_pair(s, 2);
        let b = hex_pair(s, 4);
        match (r, g, b) {
            (Some(r), Some(g), Some(b)) => {
                assert forall|i: int| 0 <= i < 6 implies is_hex_digit(#[trigger] s@[i]) by {
                    if i == 1 || i == 3 || i == 5 {
                        assert(is_hex_digit(s@[i]));
                    }
                }
                Ok(RgbColor { r, g, b })
            },
            _ => Err(()),
        }
    }
}

} // verus!
