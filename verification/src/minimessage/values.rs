//! The values that tag arguments are read as: colors, numbers, alphas, click actions and
//! shadows.
use vstd::prelude::*;
use vstd::utf8::encode_utf8;

use crate::ascii::{DIGIT_0, DIGIT_9, HASH, MINUS, PLUS};
use crate::component::{ClickEvent, ClickEventModel, Color, CustomData, CustomDataModel, Format, FormatModel, Payload};
use crate::format::{empty_format, hex_color, hex_digit, hex_digit_value, hex_pair, hex_pair_value, shadow_value};
use crate::minimessage::args::{arg_items, args_get, args_len, ArgList};
use crate::minimessage::alpha::{alpha_value, parse_alpha};
use crate::minimessage::bytes::{boundary, same_text};

verus! {

broadcast use vstd::utf8::encode_utf8_valid_utf8, vstd::utf8::encode_utf8_decode_utf8;

// ---------------------------------------------------------------------------------------
// Colors
// ---------------------------------------------------------------------------------------
/// The named chat color with this lower-case name; gray and dark gray have two spellings.
pub open spec fn named_color(s: Seq<char>) -> Option<Color> {
    if s == "black"@ {
        Some(Color::Black)
    } else if s == "dark_blue"@ {
        Some(Color::DarkBlue)
    } else if s == "dark_green"@ {
        Some(Color::DarkGreen)
    } else if s == "dark_aqua"@ {
        Some(Color::DarkAqua)
    } else if s == "dark_red"@ {
        Some(Color::DarkRed)
    } else if s == "dark_purple"@ {
        Some(Color::DarkPurple)
    } else if s == "gold"@ {
        Some(Color::Gold)
    } else if s == "gray"@ || s == "grey"@ {
        Some(Color::Gray)
    } else if s == "dark_gray"@ || s == "dark_grey"@ {
        Some(Color::DarkGray)
    } else if s == "blue"@ {
        Some(Color::Blue)
    } else if s == "green"@ {
        Some(Color::Green)
    } else if s == "aqua"@ {
        Some(Color::Aqua)
    } else if s == "red"@ {
        Some(Color::Red)
    } else if s == "light_purple"@ {
        Some(Color::LightPurple)
    } else if s == "yellow"@ {
        Some(Color::Yellow)
    } else if s == "white"@ {
        Some(Color::White)
    } else {
        None
    }
}

/// A color written as `#rrggbb`, or by its name.
pub open spec fn color_of(s: Seq<char>) -> Option<Color> {
    match hex_color(s) {
        Some(c) => Some(c),
        None => named_color(s),
    }
}

/// The red, green and blue channels of a color.
pub open spec fn rgb_of(c: Color) -> (u8, u8, u8) {
    match c {
        Color::Black => (0, 0, 0),
        Color::DarkBlue => (0, 0, 170),
        Color::DarkGreen => (0, 170, 0),
        Color::DarkAqua => (0, 170, 170),
        Color::DarkRed => (170, 0, 0),
        Color::DarkPurple => (170, 0, 170),
        Color::Gold => (255, 170, 0),
        Color::Gray => (170, 170, 170),
        Color::DarkGray => (85, 85, 85),
        Color::Blue => (85, 85, 255),
        Color::Green => (85, 255, 85),
        Color::Aqua => (85, 255, 255),
        Color::Red => (255, 85, 85),
        Color::LightPurple => (255, 85, 255),
        Color::Yellow => (255, 255, 85),
        Color::White => (255, 255, 255),
        Color::Rgb(r, g, b) => (r, g, b),
    }
}

/// Reads a color written as `#rrggbb` or by its name.
#[verifier::spinoff_prover]
#[verifier::rlimit(30)]
pub fn parse_color(s: &str) -> (r: Option<Color>)
    ensures
        r == color_of(s@),
{
    if let Some(c) = Color::from_hex(s) {
        return Some(c);
    }
    if same_text(s, "black") {
        Some(Color::Black)
    } else if same_text(s, "dark_blue") {
        Some(Color::DarkBlue)
    } else if same_text(s, "dark_green") {
        Some(Color::DarkGreen)
    } else if same_text(s, "dark_aqua") {
        Some(Color::DarkAqua)
    } else if same_text(s, "dark_red") {
        Some(Color::DarkRed)
    } else if same_text(s, "dark_purple") {
        Some(Color::DarkPurple)
    } else if same_text(s, "gold") {
        Some(Color::Gold)
    } else if same_text(s, "gray") || same_text(s, "grey") {
        Some(Color::Gray)
    } else if same_text(s, "dark_gray") || same_text(s, "dark_grey") {
        Some(Color::DarkGray)
    } else if same_text(s, "blue") {
        Some(Color::Blue)
    } else if same_text(s, "green") {
        Some(Color::Green)
    } else if same_text(s, "aqua") {
        Some(Color::Aqua)
    } else if same_text(s, "red") {
        Some(Color::Red)
    } else if same_text(s, "light_purple") {
        Some(Color::LightPurple)
    } else if same_text(s, "yellow") {
        Some(Color::Yellow)
    } else if same_text(s, "white") {
        Some(Color::White)
    } else {
        None
    }
}

/// The red, green and blue channels of a color.
pub fn color_to_rgb(color: &Color) -> (r: (u8, u8, u8))
    ensures
        r == rgb_of(*color),
{
    match color {
        Color::Black => (0, 0, 0),
        Color::DarkBlue => (0, 0, 170),
        Color::DarkGreen => (0, 170, 0),
        Color::DarkAqua => (0, 170, 170),
        Color::DarkRed => (170, 0, 0),
        Color::DarkPurple => (170, 0, 170),
        Color::Gold => (255, 170, 0),
        Color::Gray => (170, 170, 170),
        Color::DarkGray => (85, 85, 85),
        Color::Blue => (85, 85, 255),
        Color::Green => (85, 255, 85),
        Color::Aqua => (85, 255, 255),
        Color::Red => (255, 85, 85),
        Color::LightPurple => (255, 85, 255),
        Color::Yellow => (255, 255, 85),
        Color::White => (255, 255, 255),
        Color::Rgb(r, g, b) => (*r, *g, *b),
    }
}

// ---------------------------------------------------------------------------------------
// Numbers
// ---------------------------------------------------------------------------------------
/// Every byte is a decimal digit.
pub open spec fn all_digits(s: Seq<u8>) -> bool {
    forall|i: int| 0 <= i < s.len() ==> DIGIT_0 <= #[trigger] s[i] <= DIGIT_9
}

/// The value of a string of decimal digits.
pub open spec fn digits_value(s: Seq<u8>) -> nat
    decreases s.len(),
{
    if s.len() == 0 {
        0
    } else {
        digits_value(s.drop_last()) * 10 + (s.last() - DIGIT_0) as nat
    }
}

/// Ten to the power `n`.
pub open spec fn pow10(n: nat) -> nat
    decreases n,
{
    if n == 0 {
        1
    } else {
        10 * pow10((n - 1) as nat)
    }
}

/// The `i32` that the bytes of a text write, as `str::parse::<i32>` reads them: an
/// optional `+` or `-`, then at least one decimal digit, the value within the range of
/// `i32`.
pub open spec fn i32_value(s: Seq<u8>) -> Option<i32> {
    if s.len() == 0 {
        None
    } else {
        let negative = s[0] == MINUS;
        let digits = if s[0] == PLUS || s[0] == MINUS {
            s.drop_first()
        } else {
            s
        };
        if digits.len() == 0 || !all_digits(digits) {
            None
        } else {
            let v: int = if negative {
                -(digits_value(digits) as int)
            } else {
                digits_value(digits) as int
            };
            if i32::MIN <= v <= i32::MAX {
                Some(v as i32)
            } else {
                None
            }
        }
    }
}

/// The digits of a digit string without its last digit are digits.
pub proof fn lemma_digits_drop_last(s: Seq<u8>)
    requires
        all_digits(s),
        s.len() > 0,
    ensures
        all_digits(s.drop_last()),
{
    let t = s.drop_last();
    assert forall|i: int| 0 <= i < t.len() implies DIGIT_0 <= #[trigger] t[i] <= DIGIT_9 by {
        assert(t[i] == s[i]);
    }
}

/// A longer string of digits is worth at least as much as its prefix.
pub proof fn lemma_digits_value_prefix(s: Seq<u8>, n: int)
    requires
        0 <= n <= s.len(),
        all_digits(s),
    ensures
        digits_value(s.subrange(0, n)) <= digits_value(s),
    decreases s.len() - n,
{
    if n < s.len() {
        lemma_digits_value_prefix(s, n + 1);
        assert(s.subrange(0, n + 1).drop_last() =~= s.subrange(0, n));
    } else {
        assert(s.subrange(0, n) =~= s);
    }
}

/// The value of a digit string with one more digit in front.
pub proof fn lemma_digits_value_prepend(s: Seq<u8>)
    requires
        s.len() > 0,
        all_digits(s),
    ensures
        digits_value(s) == (s[0] - DIGIT_0) as nat * pow10((s.len() - 1) as nat) + digits_value(
            s.drop_first(),
        ),
    decreases s.len(),
{
    if s.len() == 1 {
        assert(s.drop_last() =~= Seq::<u8>::empty());
        assert(s.drop_first() =~= Seq::<u8>::empty());
        assert(s.last() == s[0]);
        assert(pow10(0) == 1);
        reveal_with_fuel(digits_value, 2);
        assert(digits_value(s) == (s[0] - DIGIT_0) as nat);
    } else {
        let t = s.drop_last();
        lemma_digits_drop_last(s);
        lemma_digits_value_prepend(t);
        assert(t.drop_first() =~= s.drop_first().drop_last());
        assert(s.drop_first().last() == s.last());
        assert(t[0] == s[0]);
        let d = (s[0] - DIGIT_0) as nat;
        let p = pow10((s.len() - 2) as nat);
        let x = digits_value(t.drop_first());
        let l = (s.last() - DIGIT_0) as nat;
        assert(pow10((s.len() - 1) as nat) == 10 * p);
        assert(digits_value(t) == d * p + x);
        assert(digits_value(s) == digits_value(t) * 10 + l);
        assert(digits_value(s.drop_first()) == x * 10 + l);
        assert((d * p + x) * 10 + l == d * (10 * p) + (x * 10 + l)) by (nonlinear_arith);
    }
}

/// Reads an `i32` as `str::parse::<i32>` does.
#[verifier::loop_isolation(false)]
#[verifier::spinoff_prover]
#[verifier::rlimit(30)]
pub fn parse_i32(s: &str) -> (r: Option<i32>)
    ensures
        r == i32_value(encode_utf8(s@)),
{
    let bytes = s.as_bytes();
    let ghost b = bytes@;
    let len = bytes.len();
    if len == 0 {
        return None;
    }
    let negative = bytes[0] == MINUS;
    let first: usize = if bytes[0] == PLUS || bytes[0] == MINUS {
        1
    } else {
        0
    };
    let ghost digits = b.subrange(first as int, len as int);
    proof {
        if first == 1 {
            assert(digits =~= b.drop_first());
        } else {
            assert(digits =~= b);
        }
    }
    if first == len {
        return None;
    }
    let mut i = first;
    while i < len
        invariant
            first <= i <= len,
            len == b.len(),
            b == bytes@,
            digits == b.subrange(first as int, len as int),
            forall|j: int| first <= j < i ==> DIGIT_0 <= #[trigger] b[j] <= DIGIT_9,
        decreases len - i,
    {
        if bytes[i] < DIGIT_0 || bytes[i] > DIGIT_9 {
            proof {
                assert(digits[i - first] == b[i as int]);
                assert(!all_digits(digits));
            }
            return None;
        }
        i = i + 1;
    }
    proof {
        assert forall|j: int| 0 <= j < digits.len() implies DIGIT_0 <= #[trigger] digits[j] <= DIGIT_9 by {
            assert(digits[j] == b[j + first]);
        }
    }
    let mut acc: u64 = 0;
    let mut k = first;
    while k < len
        invariant
            first <= k <= len,
            len == b.len(),
            b == bytes@,
            digits == b.subrange(first as int, len as int),
            all_digits(digits),
            acc == digits_value(digits.subrange(0, k - first)),
            acc <= 0x8000_0000,
        decreases len - k,
    {
        proof {
            assert(digits[k - first] == b[k as int]);
            assert(digits.subrange(0, k + 1 - first).drop_last() =~= digits.subrange(0, k - first));
            assert(digits.subrange(0, k + 1 - first).last() == b[k as int]);
        }
        let d = bytes[k] - DIGIT_0;
        acc = acc * 10 + d as u64;
        k = k + 1;
        proof {
            assert(acc == digits_value(digits.subrange(0, k - first)));
        }
        if acc > 0x8000_0000 {
            proof {
                lemma_digits_value_prefix(digits, k - first);
                assert(digits_value(digits) > 0x8000_0000);
            }
            return None;
        }
    }
    proof {
        assert(digits.subrange(0, len - first) =~= digits);
    }
    if negative {
        Some((0 - (acc as i64)) as i32)
    } else if acc > 0x7fff_ffff {
        None
    } else {
        Some(acc as i32)
    }
}

// ---------------------------------------------------------------------------------------
// Clicks
// ---------------------------------------------------------------------------------------
/// The click event of an action name and its value: a page for `change_page`, the value
/// itself for the others; `None` for an unknown action or a page that is no `i32`.
pub open spec fn click_of(action: Seq<char>, value: Seq<char>) -> Option<ClickEventModel> {
    if action == "open_url"@ {
        Some(ClickEventModel::OpenUrl { url: value })
    } else if action == "run_command"@ {
        Some(ClickEventModel::RunCommand { command: value })
    } else if action == "suggest_command"@ {
        Some(ClickEventModel::SuggestCommand { command: value })
    } else if action == "change_page"@ {
        match i32_value(encode_utf8(value)) {
            Some(page) => Some(ClickEventModel::ChangePage { page }),
            None => None,
        }
    } else if action == "copy_to_clipboard"@ {
        Some(ClickEventModel::CopyToClipboard { value })
    } else if action == "show_dialog"@ {
        Some(ClickEventModel::ShowDialog { dialog: value })
    } else if action == "custom"@ {
        Some(ClickEventModel::Custom(CustomDataModel { id: value, payload: Payload::Empty }))
    } else {
        None
    }
}

/// Reads a click event from its action name and value.
pub fn parse_click(action: &str, value: String) -> (r: Option<ClickEvent>)
    ensures
        match r {
            Some(e) => click_of(action@, value@) == Some(e@),
            None => click_of(action@, value@) is None,
        },
{
    if same_text(action, "open_url") {
        Some(ClickEvent::OpenUrl { url: value })
    } else if same_text(action, "run_command") {
        Some(ClickEvent::RunCommand { command: value })
    } else if same_text(action, "suggest_command") {
        Some(ClickEvent::SuggestCommand { command: value })
    } else if same_text(action, "change_page") {
        match parse_i32(value.as_str()) {
            Some(page) => Some(ClickEvent::ChangePage { page }),
            None => None,
        }
    } else if same_text(action, "copy_to_clipboard") {
        Some(ClickEvent::CopyToClipboard { value })
    } else if same_text(action, "show_dialog") {
        Some(ClickEvent::ShowDialog { dialog: value })
    } else if same_text(action, "custom") {
        Some(ClickEvent::Custom(CustomData { id: value, payload: Payload::Empty }))
    } else {
        None
    }
}

// ---------------------------------------------------------------------------------------
// Shadows
// ---------------------------------------------------------------------------------------
/// The byte that two bytes write as `u8::from_str_radix(_, 16)` reads them: two
/// hexadecimal digits, or a `+` and one.
pub open spec fn radix16_pair(a: u8, b: u8) -> Option<u8> {
    if a == PLUS {
        hex_digit_value(b as char)
    } else {
        hex_pair_value(a as char, b as char)
    }
}

/// Reads two bytes as `u8::from_str_radix(_, 16)` does.
pub fn radix16(a: u8, b: u8) -> (r: Option<u8>)
    ensures
        r == radix16_pair(a, b),
{
    if a == PLUS {
        hex_digit(b)
    } else {
        hex_pair(a, b)
    }
}

/// The alpha in argument `i`, or 64 where there is none or it is unreadable.
pub open spec fn alpha_arg(args: Seq<Seq<char>>, i: int) -> u8 {
    if i < args.len() {
        match alpha_value(encode_utf8(args[i])) {
            Some(a) => a,
            None => 64,
        }
    } else {
        64
    }
}

/// The shadow that the arguments of a `shadow` tag give: `#rrggbbaa`; `#rrggbb` or a
/// color, with the alpha in the second argument (64 by default). The outer `None` stands
/// for the hex texts whose pairs would be cut inside a character.
pub open spec fn shadow_of(args: Seq<Seq<char>>) -> Option<Option<i32>> {
    let c = args[0];
    if c.len() > 0 && c[0] == '#' {
        let hex = encode_utf8(c.drop_first());
        if hex.len() == 8 {
            if !(boundary(hex, 2) && boundary(hex, 4) && boundary(hex, 6)) {
                None
            } else {
                match (
                    radix16_pair(hex[0], hex[1]),
                    radix16_pair(hex[2], hex[3]),
                    radix16_pair(hex[4], hex[5]),
                    radix16_pair(hex[6], hex[7]),
                ) {
                    (Some(r), Some(g), Some(b), Some(a)) => Some(Some(shadow_value(a, r, g, b))),
                    _ => Some(None),
                }
            }
        } else if hex.len() == 6 {
            if !(boundary(hex, 2) && boundary(hex, 4)) {
                None
            } else {
                match (
                    radix16_pair(hex[0], hex[1]),
                    radix16_pair(hex[2], hex[3]),
                    radix16_pair(hex[4], hex[5]),
                ) {
                    (Some(r), Some(g), Some(b)) => Some(Some(shadow_value(alpha_arg(args, 1), r, g, b))),
                    _ => Some(None),
                }
            }
        } else {
            Some(None)
        }
    } else {
        match color_of(c) {
            Some(color) => {
                let (r, g, b) = rgb_of(color);
                Some(Some(shadow_value(alpha_arg(args, 1), r, g, b)))
            },
            None => Some(None),
        }
    }
}

/// The format of a `shadow` tag: nothing set but the shadow, where the arguments give
/// one. `None` for the hex texts whose pairs would be cut inside a character.
pub open spec fn shadow_format(args: Seq<Seq<char>>) -> Option<FormatModel> {
    if args.len() == 0 {
        Some(empty_format())
    } else {
        match shadow_of(args) {
            None => None,
            Some(s) => Some(FormatModel { shadow_color: s, ..empty_format() }),
        }
    }
}

/// The alpha in argument `i`, or 64.
fn alpha_from_args(args: &ArgList, i: usize) -> (r: u8)
    ensures
        r == alpha_arg(arg_items(*args), i as int),
{
    if i < args_len(args) {
        match parse_alpha(args_get(args, i).as_str()) {
            Some(a) => a,
            None => 64,
        }
    } else {
        64
    }
}

/// Reads the format of a `shadow` tag from its arguments.
#[verifier::spinoff_prover]
#[verifier::rlimit(30)]
pub fn parse_shadow(args: &ArgList) -> (r: Option<Format>)
    ensures
        match r {
            Some(f) => shadow_format(arg_items(*args)) == Some(f@),
            None => shadow_format(arg_items(*args)) is None,
        },
{
    let format = Format::new();
    if args_len(args) == 0 {
        return Some(format);
    }
    let color_arg = args_get(args, 0).as_str();
    let bytes = color_arg.as_bytes();
    let ghost c = color_arg@;
    let shadow: Option<i32>;
    if bytes.len() > 0 && bytes[0] == HASH {
        proof {
            lemma_first_char_hash(c);
        }
        let ghost hex = encode_utf8(c.drop_first());
        proof {
            lemma_encode_drop_hash(c);
        }
        let n = bytes.len() - 1;
        if n == 8 {
            if !(crate::minimessage::escape::is_boundary(bytes, 3)
                && crate::minimessage::escape::is_boundary(bytes, 5)
                && crate::minimessage::escape::is_boundary(bytes, 7)) {
                return None;
            }
            shadow = match (
                radix16(bytes[1], bytes[2]),
                radix16(bytes[3], bytes[4]),
                radix16(bytes[5], bytes[6]),
                radix16(bytes[7], bytes[8]),
            ) {
                (Some(r), Some(g), Some(b), Some(a)) => Some(Format::parse_shadow_color(a, r, g, b)),
                _ => None,
            };
        } else if n == 6 {
            if !(crate::minimessage::escape::is_boundary(bytes, 3)
                && crate::minimessage::escape::is_boundary(bytes, 5)) {
                return None;
            }
            shadow = match (
                radix16(bytes[1], bytes[2]),
                radix16(bytes[3], bytes[4]),
                radix16(bytes[5], bytes[6]),
            ) {
                (Some(r), Some(g), Some(b)) => {
                    let a = alpha_from_args(args, 1);
                    Some(Format::parse_shadow_color(a, r, g, b))
                },
                _ => None,
            };
        } else {
            shadow = None;
        }
    } else {
        proof {
            if c.len() > 0 && c[0] == '#' {
                lemma_first_char_hash(c);
            }
        }
        shadow = match parse_color(color_arg) {
            Some(color) => {
                let (r, g, b) = color_to_rgb(&color);
                let a = alpha_from_args(args, 1);
                Some(Format::parse_shadow_color(a, r, g, b))
            },
            None => None,
        };
    }
    Some(Format { shadow_color: shadow, ..format })
}

/// A text starts with `#` exactly where its first byte is `#`.
proof fn lemma_first_char_hash(c: Seq<char>)
    ensures
        (c.len() > 0 && c[0] == '#') <==> (encode_utf8(c).len() > 0 && encode_utf8(c)[0] == HASH),
{
    if c.len() > 0 {
        lemma_encode_first(c);
    }
}

/// The first byte of the encoding of a text that starts with an ASCII character is that
/// character, and the rest encodes the rest.
proof fn lemma_encode_first(c: Seq<char>)
    requires
        c.len() > 0,
    ensures
        encode_utf8(c) == vstd::utf8::encode_scalar(c[0] as u32) + encode_utf8(c.drop_first()),
        encode_utf8(c).len() > 0,
        (c[0] == '#') <==> (encode_utf8(c)[0] == HASH),
{
    let s = c[0] as u32;
    vstd::utf8::char_is_scalar(c[0]);
    let e = vstd::utf8::encode_scalar(s);
    assert(('#' as u32) == 35);
    vstd::utf8::char_u32_cast(c[0], s);
    vstd::utf8::char_u32_cast('#', 35);
    if s < 0x80 {
        assert((s & 0x7f) as u8 == s as u8) by (bit_vector)
            requires
                s < 0x80,
        ;
        assert(e =~= seq![s as u8]);
        if e[0] == HASH {
            assert(s == 35);
        }
    } else {
        lemma_leading_byte(s);
    }
    assert(encode_utf8(c)[0] == e[0]);
}

/// The first byte of the encoding of a scalar beyond ASCII is a leading byte of a longer
/// encoding.
proof fn lemma_leading_byte(s: u32)
    requires
        s >= 0x80,
        vstd::utf8::is_scalar(s),
    ensures
        vstd::utf8::encode_scalar(s)[0] >= 0xc0,
{
    let e = vstd::utf8::encode_scalar(s);
    if vstd::utf8::has_width_2_encoding(s) {
        assert(vstd::utf8::leading_byte_width_2(s) >= 0xc0) by (bit_vector)
            requires
                0x80 <= s <= 0x7ff,
        ;
    } else if vstd::utf8::has_width_3_encoding(s) {
        assert(vstd::utf8::leading_byte_width_3(s) >= 0xc0) by (bit_vector)
            requires
                0x800 <= s <= 0xffff,
        ;
    } else {
        assert(vstd::utf8::leading_byte_width_4(s) >= 0xc0) by (bit_vector)
            requires
                0x10000 <= s <= 0x10ffff,
        ;
    }
}

/// Without its leading `#`, a text is encoded by its bytes from the second on.
proof fn lemma_encode_drop_hash(c: Seq<char>)
    requires
        c.len() > 0,
        c[0] == '#',
    ensures
        encode_utf8(c.drop_first()) == encode_utf8(c).subrange(1, encode_utf8(c).len() as int),
{
    lemma_encode_first(c);
    assert(vstd::utf8::encode_scalar(c[0] as u32) =~= seq![HASH]) by {
        assert(c[0] as u32 == 35);
    }
    assert(encode_utf8(c).subrange(1, encode_utf8(c).len() as int) =~= encode_utf8(c.drop_first()));
}

// ---------------------------------------------------------------------------------------
// Player ids
// ---------------------------------------------------------------------------------------
/// The 128-bit value of the UUID that `uuid::Uuid::parse_str` reads from a text (in the
/// simple, hyphenated, braced or URN form), or `None` where it refuses the text.
pub uninterp spec fn uuid_value(text: Seq<char>) -> Option<u128>;

/// Reads a UUID with `uuid::Uuid::parse_str` and gives its value by `Uuid::as_u128`.
/// Nothing is stated of which texts it accepts beyond the name `uuid_value`.
#[verifier::external_body]
pub(crate) fn parse_uuid(s: &str) -> (r: Option<u128>)
    ensures
        r == uuid_value(s@),
{
    match uuid::Uuid::parse_str(s) {
        Ok(u) => Some(u.as_u128()),
        Err(_) => None,
    }
}

/// The four 32-bit words of a UUID, most significant first, as a player id holds them.
pub open spec fn head_id(v: u128) -> Seq<i32> {
    seq![(v >> 96u128) as i32, (v >> 64u128) as i32, (v >> 32u128) as i32, v as i32]
}

/// The four 32-bit words of a UUID, most significant first.
pub fn head_id_of(v: u128) -> (r: [i32; 4])
    ensures
        r@ == head_id(v),
{
    let r = [(v >> 96u128) as i32, (v >> 64u128) as i32, (v >> 32u128) as i32, v as i32];
    proof {
        assert(r@ =~= head_id(v));
    }
    r
}

} // verus!
