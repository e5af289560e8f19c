use vstd::prelude::*;
use vstd::string::StrSliceExecFns;

use crate::error::WallError;

verus! {

/// An RGBA color with 8-bit channels, as produced by the hex color parser.
#[derive(Clone, Copy, Debug, PartialEq, Eq, Structural)]
pub struct Color {
    pub r: u8,
    pub g: u8,
    pub b: u8,
    pub a: u8,
}

/// A character is a hexadecimal digit (either case).
pub open spec fn is_hex_digit(c: char) -> bool {
    ('0' <= c && c <= '9') || ('a' <= c && c <= 'f') || ('A' <= c && c <= 'F')
}

/// Numeric value of a hexadecimal digit character.
pub open spec fn hex_val(c: char) -> int
    recommends
        is_hex_digit(c),
{
    if '0' <= c && c <= '9' {
        c as int - '0' as int
    } else if 'a' <= c && c <= 'f' {
        10 + c as int - 'a' as int
    } else {
        10 + c as int - 'A' as int
    }
}

/// A color string is valid when it is exactly `#` followed by six hex digits.
pub open spec fn valid_color_str(s: Seq<char>) -> bool {
    &&& s.len() == 7
    &&& s[0] == '#'
    &&& forall|i: int| 1 <= i < 7 ==> is_hex_digit(#[trigger] s[i])
}

/// The byte denoted by two hex digit characters, high digit first.
pub open spec fn byte_of_hex(hi: char, lo: char) -> int
    recommends
        is_hex_digit(hi) && is_hex_digit(lo),
{
    16 * hex_val(hi) + hex_val(lo)
}

/// The color denoted by a valid `#RRGGBB` string, with the given alpha.
pub open spec fn spec_color_of(s: Seq<char>, alpha: u8) -> Color
    recommends
        valid_color_str(s),
{
    Color {
        r: byte_of_hex(s[1], s[2]) as u8,
        g: byte_of_hex(s[3], s[4]) as u8,
        b: byte_of_hex(s[5], s[6]) as u8,
        a: alpha,
    }
}

/// Numeric value of a hex digit character, or `None` when it is not one.
fn hex_digit_value(c: char) -> (r: Option<u8>)
    ensures
        r is Some <==> is_hex_digit(c),
        r matches Some(v) ==> v < 16 && v as int == hex_val(c),
{
    if '0' <= c && c <= '9' {
        Some(c as u8 - '0' as u8)
    } else if 'a' <= c && c <= 'f' {
        Some(10 + (c as u8 - 'a' as u8))
    } else if 'A' <= c && c <= 'F' {
        Some(10 + (c as u8 - 'A' as u8))
    } else {
        None
    }
}

/// Parses a `#RRGGBB` color string into an opaque [`Color`].
///
/// Succeeds exactly on valid 7-character hex color strings; anything else
/// (wrong length, missing `#`, a non-hex character) is `InvalidColorFormat`,
/// with no fallback color.
pub fn color_from_str(s: &str) -> (r: Result<Color, WallError>)
    ensures
        r is Ok <==> valid_color_str(s@),
        r matches Ok(c) ==> c == spec_color_of(s@, 255),
        r matches Err(e) ==> e == WallError::InvalidColorFormat,
{
    let n = s.unicode_len();
    if n != 7 {
        return Err(WallError::InvalidColorFormat);
    }
    if s.get_char(0) != '#' {
        return Err(WallError::InvalidColorFormat);
    }
    let d1 = match hex_digit_value(s.get_char(1)) {
        Some(v) => v,
        None => {
            return Err(WallError::InvalidColorFormat);
        },
    };
    let d2 = match hex_digit_value(s.get_char(2)) {
        Some(v) => v,
        None => {
            return Err(WallError::InvalidColorFormat);
        },
    };
    let d3 = match hex_digit_value(s.get_char(3)) {
        Some(v) => v,
        None => {
            return Err(WallError::InvalidColorFormat);
        },
    };
    let d4 = match hex_digit_value(s.get_char(4)) {
        Some(v) => v,
        None => {
            return Err(WallError::InvalidColorFormat);
        },
    };
    let d5 = match hex_digit_value(s.get_char(5)) {
        Some(v) => v,
        None => {
            return Err(WallError::InvalidColorFormat);
        },
    };
    let d6 = match hex_digit_value(s.get_char(6)) {
        Some(v) => v,
        None => {
            return Err(WallError::InvalidColorFormat);
        },
    };
    Ok(Color { r: 16 * d1 + d2, g: 16 * d3 + d4, b: 16 * d5 + d6, a: 255 })
}

/// The upper-case hex digit character for a value below sixteen.
pub open spec fn hex_char(v: int) -> char
    recommends
        0 <= v < 16,
{
    if v == 0 {
        '0'
    } else if v == 1 {
        '1'
    } else if v == 2 {
        '2'
    } else if v == 3 {
        '3'
    } else if v == 4 {
        '4'
    } else if v == 5 {
        '5'
    } else if v == 6 {
        '6'
    } else if v == 7 {
        '7'
    } else if v == 8 {
        '8'
    } else if v == 9 {
        '9'
    } else if v == 10 {
        'A'
    } else if v == 11 {
        'B'
    } else if v == 12 {
        'C'
    } else if v == 13 {
        'D'
    } else if v == 14 {
        'E'
    } else {
        'F'
    }
}

/// A hex digit that the encoder itself produces: a decimal digit or `A`-`F`.
pub open spec fn is_upper_hex_digit(c: char) -> bool {
    ('0' <= c && c <= '9') || ('A' <= c && c <= 'F')
}

/// The canonical `#RRGGBB` rendering of a color, upper-case, alpha omitted.
pub open spec fn spec_hex_string(c: Color) -> Seq<char> {
    seq![
        '#',
        hex_char(c.r as int / 16),
        hex_char(c.r as int % 16),
        hex_char(c.g as int / 16),
        hex_char(c.g as int % 16),
        hex_char(c.b as int / 16),
        hex_char(c.b as int % 16),
    ]
}

/// One-character string slice for a hex digit value.
fn hex_digit_str(v: u8) -> (r: &'static str)
    requires
        v < 16,
    ensures
        r@ =~= seq![hex_char(v as int)],
{
    proof {
        reveal_strlit("0");
        reveal_strlit("1");
        reveal_strlit("2");
        reveal_strlit("3");
        reveal_strlit("4");
        reveal_strlit("5");
        reveal_strlit("6");
        reveal_strlit("7");
        reveal_strlit("8");
        reveal_strlit("9");
        reveal_strlit("A");
        reveal_strlit("B");
        reveal_strlit("C");
        reveal_strlit("D");
        reveal_strlit("E");
        reveal_strlit("F");
    }
    if v == 0 {
        "0"
    } else if v == 1 {
        "1"
    } else if v == 2 {
        "2"
    } else if v == 3 {
        "3"
    } else if v == 4 {
        "4"
    } else if v == 5 {
        "5"
    } else if v == 6 {
        "6"
    } else if v == 7 {
        "7"
    } else if v == 8 {
        "8"
    } else if v == 9 {
        "9"
    } else if v == 10 {
        "A"
    } else if v == 11 {
        "B"
    } else if v == 12 {
        "C"
    } else if v == 13 {
        "D"
    } else if v == 14 {
        "E"
    } else {
        "F"
    }
}

/// Renders a color as its canonical upper-case `#RRGGBB` string.
pub fn color_to_hex(c: Color) -> (s: String)
    ensures
        s@ =~= spec_hex_string(c),
{
    proof {
        reveal_strlit("#");
    }
    let mut out = String::new();
    out.append("#");
    out.append(hex_digit_str(c.r / 16));
    out.append(hex_digit_str(c.r % 16));
    out.append(hex_digit_str(c.g / 16));
    out.append(hex_digit_str(c.g % 16));
    out.append(hex_digit_str(c.b / 16));
    out.append(hex_digit_str(c.b % 16));
    out
}

/// Encoding inverts decoding on one hex digit.
proof fn lemma_hex_char_of_val(c: char)
    requires
        is_upper_hex_digit(c),
    ensures
        hex_char(hex_val(c)) == c,
{
}

/// Round trip of the color parser: parsing a valid `#RRGGBB` string whose hex
/// digits are the encoder's own (upper-case) alphabet and re-encoding the
/// parsed color yields the identical string.
pub proof fn lemma_color_round_trip(s: Seq<char>)
    requires
        valid_color_str(s),
        forall|i: int| 1 <= i < 7 ==> is_upper_hex_digit(#[trigger] s[i]),
    ensures
        spec_hex_string(spec_color_of(s, 255)) =~= s,
{
    let c = spec_color_of(s, 255);
    assert forall|i: int| 1 <= i < 7 implies 0 <= hex_val(#[trigger] s[i]) < 16 by {}
    assert(c.r as int == 16 * hex_val(s[1]) + hex_val(s[2]));
    assert(c.g as int == 16 * hex_val(s[3]) + hex_val(s[4]));
    assert(c.b as int == 16 * hex_val(s[5]) + hex_val(s[6]));
    assert(c.r as int / 16 == hex_val(s[1]));
    assert(c.r as int % 16 == hex_val(s[2]));
    assert(c.g as int / 16 == hex_val(s[3]));
    assert(c.g as int % 16 == hex_val(s[4]));
    assert(c.b as int / 16 == hex_val(s[5]));
    assert(c.b as int % 16 == hex_val(s[6]));
    lemma_hex_char_of_val(s[1]);
    lemma_hex_char_of_val(s[2]);
    lemma_hex_char_of_val(s[3]);
    lemma_hex_char_of_val(s[4]);
    lemma_hex_char_of_val(s[5]);
    lemma_hex_char_of_val(s[6]);
}

/// Decoding inverts encoding on one hex digit value.
proof fn lemma_hex_val_of_char(v: int)
    requires
        0 <= v < 16,
    ensures
        is_upper_hex_digit(hex_char(v)),
        hex_val(hex_char(v)) == v,
{
}

/// The converse round trip, unrestricted: rendering any color and parsing the
/// rendering back yields the color again (with the parser's opaque alpha).
pub proof fn lemma_color_encode_parse(c: Color)
    ensures
        valid_color_str(spec_hex_string(c)),
        spec_color_of(spec_hex_string(c), 255) == (Color { r: c.r, g: c.g, b: c.b, a: 255 }),
{
    let s = spec_hex_string(c);
    lemma_hex_val_of_char(c.r as int / 16);
    lemma_hex_val_of_char(c.r as int % 16);
    lemma_hex_val_of_char(c.g as int / 16);
    lemma_hex_val_of_char(c.g as int % 16);
    lemma_hex_val_of_char(c.b as int / 16);
    lemma_hex_val_of_char(c.b as int % 16);
    assert forall|i: int| 1 <= i < 7 implies is_hex_digit(#[trigger] s[i]) by {}
    assert(c.r as int == 16 * (c.r as int / 16) + c.r as int % 16);
    assert(c.g as int == 16 * (c.g as int / 16) + c.g as int % 16);
    assert(c.b as int == 16 * (c.b as int / 16) + c.b as int % 16);
}

/// Validator for a command-line color argument, with the user-facing message.
pub fn is_valid_color(color: String) -> (r: Result<(), String>)
    ensures
        r is Ok <==> valid_color_str(color@),
        r matches Err(m) ==> m@ == "Colors must be in the form #RRGGBB"@,
{
    match color_from_str(color.as_str()) {
        Ok(_) => Ok(()),
        Err(_) => Err("Colors must be in the form #RRGGBB".to_owned()),
    }
}

/// A character is a decimal digit.
pub open spec fn is_dec_digit(c: char) -> bool {
    '0' <= c && c <= '9'
}

/// Numeric value of a decimal digit character.
pub open spec fn dec_val(c: char) -> int
    recommends
        is_dec_digit(c),
{
    c as int - '0' as int
}

/// Every character of the sequence is a decimal digit.
pub open spec fn all_dec_digits(s: Seq<char>) -> bool {
    forall|i: int| 0 <= i < s.len() ==> is_dec_digit(#[trigger] s[i])
}

/// The number denoted by a sequence of decimal digits, most significant first.
pub open spec fn dec_value(s: Seq<char>) -> int
    recommends
        all_dec_digits(s),
    decreases s.len(),
{
    if s.len() == 0 {
        0
    } else {
        10 * dec_value(s.drop_last()) + dec_val(s.last())
    }
}

/// The strings accepted as an alpha argument: an optional leading `+`, then
/// one or more decimal digits denoting a value of at most 255. These are
/// exactly the strings on which a standard unsigned byte parse succeeds.
pub open spec fn valid_u8_decimal(s: Seq<char>) -> bool {
    let digits = if s.len() > 0 && s[0] == '+' {
        s.subrange(1, s.len() as int)
    } else {
        s
    };
    &&& digits.len() > 0
    &&& all_dec_digits(digits)
    &&& dec_value(digits) <= 255
}

/// Validator for a command-line alpha argument, with the user-facing message.
pub fn is_alpha(alpha: String) -> (r: Result<(), String>)
    ensures
        r is Ok <==> valid_u8_decimal(alpha@),
        r matches Err(m) ==> m@ == "Alpha must be an integer from 0-255"@,
{
    let s = alpha.as_str();
    let n = s.unicode_len();
    let start: usize = if n > 0 && s.get_char(0) == '+' {
        1
    } else {
        0
    };
    let ghost digits = if s@.len() > 0 && s@[0] == '+' {
        s@.subrange(1, s@.len() as int)
    } else {
        s@
    };
    assert(digits =~= s@.subrange(start as int, s@.len() as int));
    if n == start {
        return Err("Alpha must be an integer from 0-255".to_owned());
    }
    let mut val: u32 = 0;
    let mut i: usize = start;
    while i < n
        invariant
            start <= i <= n,
            n == s@.len(),
            start <= 1,
            digits =~= s@.subrange(start as int, n as int),
            valid_u8_decimal(alpha@) <==> (digits.len() > 0 && all_dec_digits(digits)
                && dec_value(digits) <= 255),
            all_dec_digits(s@.subrange(start as int, i as int)),
            dec_value(s@.subrange(start as int, i as int)) <= 255 ==> val == dec_value(
                s@.subrange(start as int, i as int),
            ),
            dec_value(s@.subrange(start as int, i as int)) > 255 ==> val > 255,
            val <= 2559,
        decreases n - i,
    {
        let ghost pre = s@.subrange(start as int, i as int);
        let c = s.get_char(i);
        if !('0' <= c && c <= '9') {
            assert(digits[i - start] == c);
            return Err("Alpha must be an integer from 0-255".to_owned());
        }
        let d = c as u8 - '0' as u8;
        let ghost post = s@.subrange(start as int, i + 1 as int);
        proof {
            assert(post.drop_last() =~= pre);
            assert(post.last() == s@[i as int]);
        }
        if val <= 255 {
            val = val * 10 + d as u32;
        }
        i += 1;
    }
    proof {
        assert(digits =~= s@.subrange(start as int, n as int));
    }
    if val <= 255 {
        Ok(())
    } else {
        Err("Alpha must be an integer from 0-255".to_owned())
    }
}

} // verus!
