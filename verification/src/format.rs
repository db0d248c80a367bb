//! Colors and formats: how hex colors are read, how a format is built field by field,
//! and how a shadow color is packed.
use vstd::prelude::*;

use crate::ascii::{DIGIT_0, DIGIT_9, HASH, LOWER_A, LOWER_F, UPPER_A, UPPER_F};
use crate::component::{Color, Format, FormatModel};

verus! {

/// The value of a hexadecimal digit, for the ten digits and the letters `a`-`f`
/// in either case.
pub open spec fn hex_digit_value(c: char) -> Option<u8> {
    if '0' <= c && c <= '9' {
        Some((c as u32 - '0' as u32) as u8)
    } else if 'a' <= c && c <= 'f' {
        Some((c as u32 - 'a' as u32 + 10) as u8)
    } else if 'A' <= c && c <= 'F' {
        Some((c as u32 - 'A' as u32 + 10) as u8)
    } else {
        None
    }
}

/// The byte written by two hexadecimal digits, the first the most significant.
pub open spec fn hex_pair_value(hi: char, lo: char) -> Option<u8> {
    match (hex_digit_value(hi), hex_digit_value(lo)) {
        (Some(h), Some(l)) => Some((h * 16 + l) as u8),
        _ => None,
    }
}

/// The color written as `#rrggbb`: a `#` and exactly six hexadecimal digits.
pub open spec fn hex_color(s: Seq<char>) -> Option<Color> {
    if s.len() == 7 && s[0] == '#' {
        match (hex_pair_value(s[1], s[2]), hex_pair_value(s[3], s[4]), hex_pair_value(s[5], s[6])) {
            (Some(r), Some(g), Some(b)) => Some(Color::Rgb(r, g, b)),
            _ => None,
        }
    } else {
        None
    }
}

/// A format in which nothing is set.
pub open spec fn empty_format() -> FormatModel {
    FormatModel {
        color: None,
        font: None,
        bold: None,
        italic: None,
        underlined: None,
        strikethrough: None,
        obfuscated: None,
        shadow_color: None,
    }
}

/// The format that `reset` gives: white, the default font, no decoration, no shadow.
pub open spec fn reset_format() -> FormatModel {
    FormatModel {
        color: Some(Color::White),
        font: Some(default_font()),
        bold: Some(false),
        italic: Some(false),
        underlined: Some(false),
        strikethrough: Some(false),
        obfuscated: Some(false),
        shadow_color: None,
    }
}

/// The name of the default font.
pub open spec fn default_font() -> Seq<char> {
    seq!['m', 'i', 'n', 'e', 'c', 'r', 'a', 'f', 't', ':', 'd', 'e', 'f', 'a', 'u', 'l', 't']
}

/// The packed ARGB value of a shadow color: alpha in the top byte, then red, green, blue.
pub open spec fn shadow_value(a: u8, r: u8, g: u8, b: u8) -> i32 {
    (a as int * 0x1000000 + r as int * 0x10000 + g as int * 0x100 + b as int) as i32
}

/// The value of one hexadecimal digit.
pub fn hex_digit(c: u8) -> (r: Option<u8>)
    ensures
        r == hex_digit_value(c as char),
{
    if DIGIT_0 <= c && c <= DIGIT_9 {
        Some(c - DIGIT_0)
    } else if LOWER_A <= c && c <= LOWER_F {
        Some(c - LOWER_A + 10)
    } else if UPPER_A <= c && c <= UPPER_F {
        Some(c - UPPER_A + 10)
    } else {
        None
    }
}

/// The byte written by two hexadecimal digits.
pub fn hex_pair(hi: u8, lo: u8) -> (r: Option<u8>)
    ensures
        r == hex_pair_value(hi as char, lo as char),
{
    match (hex_digit(hi), hex_digit(lo)) {
        (Some(h), Some(l)) => Some(h * 16 + l),
        _ => None,
    }
}

impl Color {
    /// Reads a color written as `#rrggbb`.
    pub fn from_hex(s: &str) -> (r: Option<Color>)
        ensures
            r == hex_color(s@),
    {
        if !s.is_ascii() {
            proof {
                if s@.len() == 7 && s@[0] == '#' {
                    let k = choose|k: int| 0 <= k < s@.len() && !('\0' <= #[trigger] s@[k] <= '\u{7f}');
                    assert(hex_digit_value(s@[k]) is None);
                }
            }
            return None;
        }
        let bytes = s.as_bytes();
        proof {
            vstd::string::is_ascii_spec_bytes(s);
        }
        if bytes.len() != 7 || bytes[0] != HASH {
            return None;
        }
        match (hex_pair(bytes[1], bytes[2]), hex_pair(bytes[3], bytes[4]), hex_pair(bytes[5], bytes[6])) {
            (Some(r), Some(g), Some(b)) => Some(Color::Rgb(r, g, b)),
            _ => None,
        }
    }
}

impl Format {
    /// A format in which nothing is set.
    pub fn new() -> (r: Format)
        ensures
            r@ == empty_format(),
    {
        Format {
            color: None,
            font: None,
            bold: None,
            italic: None,
            underlined: None,
            strikethrough: None,
            obfuscated: None,
            shadow_color: None,
        }
    }

    /// Packs a shadow color into its ARGB value.
    pub fn parse_shadow_color(a: u8, r: u8, g: u8, b: u8) -> (v: i32)
        ensures
            v == shadow_value(a, r, g, b),
    {
        let packed: u32 = (a as u32) * 0x1000000 + (r as u32) * 0x10000 + (g as u32) * 0x100
            + (b as u32);
        packed as i32
    }

    /// Sets the color.
    pub fn color(self, color: Color) -> (r: Format)
        ensures
            r@ == (FormatModel { color: Some(color), ..self@ }),
    {
        Format { color: Some(color), ..self }
    }

    /// Sets the color from a `#rrggbb` text; an unreadable text leaves the format as it is.
    pub fn color_hex(self, color: &str) -> (r: Format)
        ensures
            r@ == (match hex_color(color@) {
                Some(c) => FormatModel { color: Some(c), ..self@ },
                None => self@,
            }),
    {
        match Color::from_hex(color) {
            Some(c) => Format { color: Some(c), ..self },
            None => self,
        }
    }

    /// Sets the font.
    pub fn font(self, font: String) -> (r: Format)
        ensures
            r@ == (FormatModel { font: Some(font@), ..self@ }),
    {
        Format { font: Some(font), ..self }
    }

    /// Sets bold.
    pub fn bold(self, value: bool) -> (r: Format)
        ensures
            r@ == (FormatModel { bold: Some(value), ..self@ }),
    {
        Format { bold: Some(value), ..self }
    }

    /// Sets italic.
    pub fn italic(self, value: bool) -> (r: Format)
        ensures
            r@ == (FormatModel { italic: Some(value), ..self@ }),
    {
        Format { italic: Some(value), ..self }
    }

    /// Sets underlined.
    pub fn underlined(self, value: bool) -> (r: Format)
        ensures
            r@ == (FormatModel { underlined: Some(value), ..self@ }),
    {
        Format { underlined: Some(value), ..self }
    }

    /// Sets strikethrough.
    pub fn strikethrough(self, value: bool) -> (r: Format)
        ensures
            r@ == (FormatModel { strikethrough: Some(value), ..self@ }),
    {
        Format { strikethrough: Some(value), ..self }
    }

    /// Sets obfuscated.
    pub fn obfuscated(self, value: bool) -> (r: Format)
        ensures
            r@ == (FormatModel { obfuscated: Some(value), ..self@ }),
    {
        Format { obfuscated: Some(value), ..self }
    }

    /// Sets the shadow color from its four channels.
    pub fn shadow_color(self, a: u8, r: u8, g: u8, b: u8) -> (f: Format)
        ensures
            f@ == (FormatModel { shadow_color: Some(shadow_value(a, r, g, b)), ..self@ }),
    {
        Format { shadow_color: Some(Format::parse_shadow_color(a, r, g, b)), ..self }
    }

    /// Sets every field to its default: white, the default font, no decoration, no shadow.
    pub fn reset(self) -> (r: Format)
        ensures
            r@ == reset_format(),
    {
        let font = "minecraft:default".to_owned();
        proof {
            reveal_strlit("minecraft:default");
            assert(font@ =~= default_font());
        }
        Format {
            color: Some(Color::White),
            font: Some(font),
            bold: Some(false),
            italic: Some(false),
            underlined: Some(false),
            strikethrough: Some(false),
            obfuscated: Some(false),
            shadow_color: None,
        }
    }
}

} // verus!
