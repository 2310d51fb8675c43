//! Colors attached to tags.
//!
//! A color is either one of the sixteen named terminal colors or a 24-bit
//! RGB value. Color participates in nothing observable except display: tag
//! identity is the name alone.

use vstd::prelude::*;
use crate::error::Error;

verus! {

/// A named terminal color or a 24-bit RGB value.
#[derive(Clone, Copy, Debug, PartialEq, Eq, Structural)]
pub enum Color {
    Black,
    Red,
    Green,
    Yellow,
    Blue,
    Magenta,
    Cyan,
    White,
    BrightBlack,
    BrightRed,
    BrightGreen,
    BrightYellow,
    BrightBlue,
    BrightMagenta,
    BrightCyan,
    BrightWhite,
    TrueColor { r: u8, g: u8, b: u8 },
}

/// The color given to a tag when no palette entry could be drawn.
pub fn default_color() -> (c: Color)
    ensures
        c == Color::BrightWhite,
{
    Color::BrightWhite
}

/// The palette from which freshly created tags draw a random color.
pub fn default_colors() -> (v: Vec<Color>)
    ensures
        v@.len() == 13,
        v@[0] == Color::Red,
{
    let mut v: Vec<Color> = Vec::new();
    v.push(Color::Red);
    v.push(Color::Green);
    v.push(Color::Blue);
    v.push(Color::Yellow);
    v.push(Color::Cyan);
    v.push(Color::White);
    v.push(Color::Magenta);
    v.push(Color::BrightRed);
    v.push(Color::BrightGreen);
    v.push(Color::BrightYellow);
    v.push(Color::BrightBlue);
    v.push(Color::BrightMagenta);
    v.push(Color::BrightCyan);
    v
}

/// The value of one hex digit; anything that is not a hex digit counts as
/// zero, so a six-character color string never fails digit-wise.
pub open spec fn spec_hex_val(c: char) -> u8 {
    let u = c as u32;
    if 48 <= u <= 57 {
        (u - 48) as u8
    } else if 65 <= u <= 70 {
        (u - 55) as u8
    } else if 97 <= u <= 102 {
        (u - 87) as u8
    } else {
        0
    }
}

/// The byte described by two hex digits.
pub open spec fn spec_hex_pair(hi: char, lo: char) -> u8 {
    (spec_hex_val(hi) * 16 + spec_hex_val(lo)) as u8
}

/// What a color string means: an optional `0x` or `#` prefix, then exactly
/// six characters read as three hex pairs.
pub open spec fn spec_parse_color(s: Seq<char>) -> Option<Color> {
    let body = if s.len() >= 2 && s[0] == '0' && s[1] == 'x' {
        s.skip(2)
    } else if s.len() >= 1 && s[0] == '#' {
        s.skip(1)
    } else {
        s
    };
    if body.len() == 6 {
        Some(
            Color::TrueColor {
                r: spec_hex_pair(body[0], body[1]),
                g: spec_hex_pair(body[2], body[3]),
                b: spec_hex_pair(body[4], body[5]),
            },
        )
    } else {
        None
    }
}

fn hex_val(c: char) -> (r: u8)
    ensures
        r == spec_hex_val(c),
{
    let u = c as u32;
    if 48 <= u && u <= 57 {
        (u - 48) as u8
    } else if 65 <= u && u <= 70 {
        (u - 55) as u8
    } else if 97 <= u && u <= 102 {
        (u - 87) as u8
    } else {
        0
    }
}

/// Parses a color from hex notation: `0x1f1f1f`, `#ABBA12` and `121212`
/// are all accepted; any other shape is rejected as an invalid color.
pub fn parse_color(color: &str) -> (r: Result<Color, Error>)
    ensures
        match r {
            Ok(c) => spec_parse_color(color@) == Some(c),
            Err(e) => spec_parse_color(color@) is None && e is InvalidColor
                && e->InvalidColor_0@ == color@,
        },
{
    let n = color.unicode_len();
    let skip: usize = if n >= 2 && color.get_char(0) == '0' && color.get_char(1) == 'x' {
        2
    } else if n >= 1 && color.get_char(0) == '#' {
        1
    } else {
        0
    };
    proof {
        assert(color@.skip(skip as int).len() == n - skip);
    }
    if n - skip == 6 {
        let c0 = color.get_char(skip);
        let c1 = color.get_char(skip + 1);
        let c2 = color.get_char(skip + 2);
        let c3 = color.get_char(skip + 3);
        let c4 = color.get_char(skip + 4);
        let c5 = color.get_char(skip + 5);
        proof {
            assert(color@.skip(skip as int)[0] == color@[skip as int]);
            assert(color@.skip(skip as int)[1] == color@[skip as int + 1]);
            assert(color@.skip(skip as int)[2] == color@[skip as int + 2]);
            assert(color@.skip(skip as int)[3] == color@[skip as int + 3]);
            assert(color@.skip(skip as int)[4] == color@[skip as int + 4]);
            assert(color@.skip(skip as int)[5] == color@[skip as int + 5]);
        }
        Ok(
            Color::TrueColor {
                r: hex_val(c0) * 16 + hex_val(c1),
                g: hex_val(c2) * 16 + hex_val(c3),
                b: hex_val(c4) * 16 + hex_val(c5),
            },
        )
    } else {
        Err(Error::InvalidColor(color.to_owned()))
    }
}

} // verus!
