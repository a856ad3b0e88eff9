//! Colours: packed `0xRRGGBB` values, their names and their hexadecimal
//! notation.

use vstd::prelude::*;
use vstd::string::*;
use crate::utils::chance::random_below;
use crate::utils::text::{
    all_hex_digits, chars_of, hex_digit_value, hex_value, is_hex_digit,
};

verus! {

/// White.
pub const WHITE: u32 = 0xFFFFFF;

/// Black.
pub const BLACK: u32 = 0x000000;

/// Red.
pub const RED: u32 = 0xFF0000;

/// Green.
pub const GREEN: u32 = 0x00FF00;

/// Blue.
pub const BLUE: u32 = 0x0000FF;

/// Yellow.
pub const YELLOW: u32 = 0xFFFF00;

/// Cyan.
pub const CYAN: u32 = 0x00FFFF;

/// Magenta.
pub const MAGENTA: u32 = 0xFF00FF;

/// Gray; also the colour of what is not known.
pub const GRAY: u32 = 0x808080;

/// Light gray.
pub const LIGHT_GRAY: u32 = 0xC0C0C0;

/// Dark gray.
pub const DARK_GRAY: u32 = 0x404040;

/// Orange.
pub const ORANGE: u32 = 0xFFA500;

/// Pink.
pub const PINK: u32 = 0xFFC0CB;

/// Purple.
pub const PURPLE: u32 = 0x800080;

/// Brown.
pub const BROWN: u32 = 0x8B4513;

/// Lime.
pub const LIME: u32 = 0x00FF00;

/// Navy.
pub const NAVY: u32 = 0x000080;

/// Olive.
pub const OLIVE: u32 = 0x808000;

/// Teal.
pub const TEAL: u32 = 0x008080;

/// Silver.
pub const SILVER: u32 = 0xC0C0C0;

/// Maroon.
pub const MAROON: u32 = 0x800000;

/// The colour of marked cells.
pub const TRACE_COLOR: u32 = RED;

/// What `str::to_lowercase` of the standard library returns for the text
/// `s`: its lowercase form by the rules of Unicode.
pub uninterp spec fn lowercase(s: Seq<char>) -> Seq<char>;

/// `str::to_lowercase` of the standard library. The result is a function of
/// the text alone and goes by the name [`lowercase`].
#[verifier::external_body]
pub(crate) fn lowercase_of(s: &str) -> (lower: String)
    ensures
        lower@ == lowercase(s@),
{
    s.to_lowercase()
}

/// Drops the alpha channel of a packed `0xAARRGGBB` colour.
pub fn argb_to_rgb(argb: u32) -> (rgb: u32)
    ensures
        rgb == argb & 0x00FF_FFFF,
{
    argb & 0x00FF_FFFF
}

/// The colour that a lowercase name stands for.
pub open spec fn named_color(name: Seq<char>) -> Option<u32> {
    if name == "white"@ {
        Some(WHITE)
    } else if name == "black"@ {
        Some(BLACK)
    } else if name == "red"@ {
        Some(RED)
    } else if name == "green"@ {
        Some(GREEN)
    } else if name == "blue"@ {
        Some(BLUE)
    } else if name == "cyan"@ {
        Some(CYAN)
    } else if name == "yellow"@ {
        Some(YELLOW)
    } else if name == "magenta"@ {
        Some(MAGENTA)
    } else if name == "gray"@ || name == "grey"@ {
        Some(GRAY)
    } else if name == "light_gray"@ {
        Some(LIGHT_GRAY)
    } else if name == "dark_gray"@ {
        Some(DARK_GRAY)
    } else if name == "orange"@ {
        Some(ORANGE)
    } else if name == "pink"@ {
        Some(PINK)
    } else if name == "purple"@ {
        Some(PURPLE)
    } else if name == "brown"@ {
        Some(BROWN)
    } else if name == "lime"@ {
        Some(LIME)
    } else if name == "navy"@ {
        Some(NAVY)
    } else if name == "olive"@ {
        Some(OLIVE)
    } else if name == "teal"@ {
        Some(TEAL)
    } else if name == "silver"@ {
        Some(SILVER)
    } else if name == "maroon"@ {
        Some(MAROON)
    } else {
        None
    }
}

/// The colour that the lowercase name `name` stands for, if it is one of
/// the known names.
pub fn color_of_name(name: &str) -> (color: Option<u32>)
    ensures
        color == named_color(name@),
{
    if name.eq("white") {
        Some(WHITE)
    } else if name.eq("black") {
        Some(BLACK)
    } else if name.eq("red") {
        Some(RED)
    } else if name.eq("green") {
        Some(GREEN)
    } else if name.eq("blue") {
        Some(BLUE)
    } else if name.eq("cyan") {
        Some(CYAN)
    } else if name.eq("yellow") {
        Some(YELLOW)
    } else if name.eq("magenta") {
        Some(MAGENTA)
    } else if name.eq("gray") || name.eq("grey") {
        Some(GRAY)
    } else if name.eq("light_gray") {
        Some(LIGHT_GRAY)
    } else if name.eq("dark_gray") {
        Some(DARK_GRAY)
    } else if name.eq("orange") {
        Some(ORANGE)
    } else if name.eq("pink") {
        Some(PINK)
    } else if name.eq("purple") {
        Some(PURPLE)
    } else if name.eq("brown") {
        Some(BROWN)
    } else if name.eq("lime") {
        Some(LIME)
    } else if name.eq("navy") {
        Some(NAVY)
    } else if name.eq("olive") {
        Some(OLIVE)
    } else if name.eq("teal") {
        Some(TEAL)
    } else if name.eq("silver") {
        Some(SILVER)
    } else if name.eq("maroon") {
        Some(MAROON)
    } else {
        None
    }
}

/// The colour that `name` stands for, whatever its case; gray for a name
/// that is not known.
pub fn named_color_to_rgb(name: &str) -> (color: u32)
    ensures
        color == match named_color(lowercase(name@)) {
            Some(c) => c,
            None => GRAY,
        },
{
    let lower = lowercase_of(name);
    match color_of_name(lower.as_str()) {
        Some(c) => c,
        None => GRAY,
    }
}

/// A notation of three characters with each character doubled: `0F0` becomes
/// `00FF00`.
pub open spec fn doubled(digits: Seq<char>) -> Seq<char>
    recommends
        digits.len() == 3,
{
    seq![digits[0], digits[0], digits[1], digits[1], digits[2], digits[2]]
}

/// The colour that the notation `s` stands for: an optional `#`, then six
/// hexadecimal digits, or three that are each read twice. Nothing else is a
/// colour in this notation.
pub open spec fn hex_color(s: Seq<char>) -> Option<u32> {
    let digits = if s.len() > 0 && s[0] == '#' {
        s.skip(1)
    } else {
        s
    };
    if digits.len() == 6 && all_hex_digits(digits) {
        Some(hex_value(digits) as u32)
    } else if digits.len() == 3 && all_hex_digits(digits) {
        Some(hex_value(doubled(digits)) as u32)
    } else {
        None
    }
}

/// Up to six hexadecimal digits write a number below `16` to the power of
/// their count.
proof fn lemma_hex_bound(s: Seq<char>)
    requires
        s.len() <= 6,
        all_hex_digits(s),
    ensures
        s.len() == 0 ==> hex_value(s) == 0,
        s.len() == 1 ==> hex_value(s) < 0x10,
        s.len() == 2 ==> hex_value(s) < 0x100,
        s.len() == 3 ==> hex_value(s) < 0x1000,
        s.len() == 4 ==> hex_value(s) < 0x1_0000,
        s.len() == 5 ==> hex_value(s) < 0x10_0000,
        s.len() == 6 ==> hex_value(s) < 0x100_0000,
    decreases s.len(),
{
    if s.len() > 0 {
        assert(all_hex_digits(s.drop_last())) by {
            assert forall|i: int| 0 <= i < s.drop_last().len() implies is_hex_digit(
                #[trigger] s.drop_last()[i],
            ) by {
                assert(s.drop_last()[i] == s[i]);
            }
        }
        lemma_hex_bound(s.drop_last());
        assert(is_hex_digit(s[s.len() - 1]));
    }
}

proof fn lemma_hex_step(s: Seq<char>, from: int, i: int)
    requires
        0 <= from <= i < s.len(),
    ensures
        hex_value(s.subrange(from, i + 1)) == hex_value(s.subrange(from, i)) * 16
            + hex_digit_value(s[i]),
{
    assert(s.subrange(from, i + 1).drop_last() =~= s.subrange(from, i));
}

fn hex_digit(c: char) -> (r: Option<u64>)
    ensures
        r is Some <==> is_hex_digit(c),
        r matches Some(d) ==> d == hex_digit_value(c) && d < 16,
{
    if '0' <= c && c <= '9' {
        Some((c as u32 - '0' as u32) as u64)
    } else if 'a' <= c && c <= 'f' {
        Some((c as u32 - 'a' as u32 + 10) as u64)
    } else if 'A' <= c && c <= 'F' {
        Some((c as u32 - 'A' as u32 + 10) as u64)
    } else {
        None
    }
}

/// Reads `chars[from..to)` as hexadecimal digits. The first component says
/// whether they all are digits; the second is their value, or `None` when it
/// does not fit in 32 bits.
fn scan_hex(chars: &Vec<char>, from: usize, to: usize) -> (r: (bool, Option<u32>))
    requires
        from <= to <= chars@.len(),
    ensures
        r.0 == all_hex_digits(chars@.subrange(from as int, to as int)),
        r.0 ==> (r.1 is Some <==> hex_value(chars@.subrange(from as int, to as int)) <= u32::MAX),
        r.0 ==> (r.1 matches Some(v) ==> v == hex_value(chars@.subrange(from as int, to as int))),
{
    let ghost s = chars@;
    let mut value: u64 = 0;
    let mut fits = true;
    let mut i: usize = from;
    while i < to
        invariant
            from <= i <= to <= chars@.len(),
            s == chars@,
            all_hex_digits(s.subrange(from as int, i as int)),
            fits <==> hex_value(s.subrange(from as int, i as int)) <= u32::MAX,
            fits ==> value == hex_value(s.subrange(from as int, i as int)),
        decreases to - i,
    {
        let d = match hex_digit(chars[i]) {
            Some(d) => d,
            None => {
                assert(!all_hex_digits(s.subrange(from as int, to as int))) by {
                    assert(s.subrange(from as int, to as int)[i - from] == s[i as int]);
                }
                return (false, None);
            },
        };
        proof {
            lemma_hex_step(s, from as int, i as int);
            assert forall|k: int| 0 <= k < i + 1 - from implies is_hex_digit(
                #[trigger] s.subrange(from as int, i + 1)[k],
            ) by {
                if k < i - from {
                    assert(s.subrange(from as int, i as int)[k] == s[from + k]);
                }
            }
        }
        if fits {
            let next: u64 = value * 16 + d;
            if next > u32::MAX as u64 {
                fits = false;
            } else {
                value = next;
            }
        }
        i += 1;
    }
    assert(s.subrange(from as int, i as int) == s.subrange(from as int, to as int));
    if fits {
        (true, Some(value as u32))
    } else {
        (true, None)
    }
}

/// The colour that the notation `text` stands for, if it is one.
pub fn parse_hex_color(text: &str) -> (r: Option<u32>)
    ensures
        r == hex_color(text@),
{
    let chars = chars_of(text);
    let ghost s = chars@;
    let start: usize = if chars.len() > 0 && chars[0] == '#' {
        1
    } else {
        0
    };
    let ghost digits = if start == 1 {
        s.skip(1)
    } else {
        s
    };
    assert(digits =~= s.subrange(start as int, s.len() as int));
    let count = chars.len() - start;
    if count == 6 {
        let (all, value) = scan_hex(&chars, start, chars.len());
        if !all {
            return None;
        }
        proof {
            lemma_hex_bound(digits);
        }
        value
    } else if count == 3 {
        let mut twice: Vec<char> = Vec::new();
        twice.push(chars[start]);
        twice.push(chars[start]);
        twice.push(chars[start + 1]);
        twice.push(chars[start + 1]);
        twice.push(chars[start + 2]);
        twice.push(chars[start + 2]);
        assert(twice@ =~= doubled(digits));
        assert(twice@.subrange(0, 6) =~= twice@);
        let (all, value) = scan_hex(&twice, 0, 6);
        assert(all == all_hex_digits(digits)) by {
            if all_hex_digits(digits) {
                assert(is_hex_digit(digits[0]) && is_hex_digit(digits[1]) && is_hex_digit(
                    digits[2],
                ));
                assert forall|i: int| 0 <= i < 6 implies is_hex_digit(#[trigger] twice@[i]) by {}
            }
            if all_hex_digits(twice@) {
                assert(is_hex_digit(twice@[0]) && is_hex_digit(twice@[2]) && is_hex_digit(
                    twice@[4],
                ));
            }
        }
        if !all {
            return None;
        }
        proof {
            lemma_hex_bound(twice@);
        }
        value
    } else {
        None
    }
}

/// The colour that a colour text stands for: a known name, whatever its
/// case; or hexadecimal notation of three or six digits, with or without a
/// leading `#`; else gray.
pub open spec fn color_value(text: Seq<char>) -> u32 {
    match named_color(lowercase(text)) {
        Some(c) => c,
        None => match hex_color(text) {
            Some(c) => c,
            None => GRAY,
        },
    }
}

/// The colour that `text` stands for, given its lowercase form `lower`: the
/// colour that `lower` names, or else the colour that `text` writes in
/// hexadecimal notation, or else gray.
pub fn color_from(lower: &str, text: &str) -> (color: u32)
    ensures
        color == match named_color(lower@) {
            Some(c) => c,
            None => match hex_color(text@) {
                Some(c) => c,
                None => GRAY,
            },
        },
{
    match color_of_name(lower) {
        Some(c) => c,
        None => match parse_hex_color(text) {
            Some(c) => c,
            None => GRAY,
        },
    }
}

/// The colour that `hex` stands for: a colour name, whatever its case, or
/// three or six hexadecimal digits with or without a leading `#`. Gray for
/// anything else.
pub fn hex_to_rgb(hex: &str) -> (color: u32)
    ensures
        color == color_value(hex@),
{
    let lower = lowercase_of(hex);
    color_from(lower.as_str(), hex)
}


/// The colour with the channels `r`, `g` and `b`.
pub fn pack_rgb(r: u32, g: u32, b: u32) -> (color: u32)
    requires
        r < 256,
        g < 256,
        b < 256,
    ensures
        color == r * 0x10000 + g * 0x100 + b,
        color <= 0xFFFFFF,
{
    r * 0x10000 + g * 0x100 + b
}

/// A colour drawn at random: each channel is some number below 256.
pub fn random_color() -> (color: u32)
    ensures
        color <= 0xFFFFFF,
{
    let r = random_below(256);
    let g = random_below(256);
    let b = random_below(256);
    pack_rgb(r, g, b)
}

} // verus!
