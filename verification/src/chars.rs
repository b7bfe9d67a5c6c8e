//! Classification of characters, as the lexer needs it.

use vstd::prelude::*;

verus! {

pub open spec fn spec_is_ascii_digit(c: char) -> bool {
    '0' <= c && c <= '9'
}

pub open spec fn spec_is_ascii_alphabetic(c: char) -> bool {
    ('a' <= c && c <= 'z') || ('A' <= c && c <= 'Z')
}

pub open spec fn spec_is_ascii_alphanumeric(c: char) -> bool {
    spec_is_ascii_digit(c) || spec_is_ascii_alphabetic(c)
}

/// The characters that Unicode gives the White_Space property.
pub open spec fn spec_is_whitespace(c: char) -> bool {
    let u = c as u32;
    ||| 0x09 <= u <= 0x0D
    ||| u == 0x20
    ||| u == 0x85
    ||| u == 0xA0
    ||| u == 0x1680
    ||| 0x2000 <= u <= 0x200A
    ||| u == 0x2028
    ||| u == 0x2029
    ||| u == 0x202F
    ||| u == 0x205F
    ||| u == 0x3000
}

/// The smallest of the radixes 2, 10 and 16 in which `c` is a digit,
/// or 0 when it is a digit in none of them.
pub open spec fn spec_digit_radix(c: char) -> nat {
    if c == '0' || c == '1' {
        2
    } else if spec_is_ascii_digit(c) {
        10
    } else if ('a' <= c && c <= 'f') || ('A' <= c && c <= 'F') {
        16
    } else {
        0
    }
}

/// The value of `c` as a digit in base 16 (for the digits of smaller bases too).
pub open spec fn spec_digit_value(c: char) -> nat {
    if spec_is_ascii_digit(c) {
        (c as u32 - '0' as u32) as nat
    } else if 'a' <= c && c <= 'f' {
        (c as u32 - 'a' as u32 + 10) as nat
    } else if 'A' <= c && c <= 'F' {
        (c as u32 - 'A' as u32 + 10) as nat
    } else {
        0
    }
}

/// The code points that Unicode gives the White_Space property, one by one.
pub open spec fn unicode_white_space() -> Set<u32> {
    set![
        0x0009u32, 0x000A, 0x000B, 0x000C, 0x000D, 0x0020, 0x0085, 0x00A0, 0x1680,
        0x2000, 0x2001, 0x2002, 0x2003, 0x2004, 0x2005, 0x2006, 0x2007, 0x2008, 0x2009, 0x200A,
        0x2028, 0x2029, 0x202F, 0x205F, 0x3000,
    ]
}

/// Whitespace is exactly what Unicode calls White_Space: tabs, line feeds,
/// vertical tabs, form feeds, carriage returns, spaces, the next-line
/// character, and the wide and narrow spaces, separators and ideographic
/// space.
pub proof fn lemma_whitespace_is_unicode_white_space(c: char)
    ensures
        spec_is_whitespace(c) <==> unicode_white_space().contains(c as u32),
{
    let u = c as u32;
    if spec_is_whitespace(c) {
        if 0x09 <= u <= 0x0D {
            assert(u == 0x09 || u == 0x0A || u == 0x0B || u == 0x0C || u == 0x0D);
        }
        if 0x2000 <= u <= 0x200A {
            assert(u == 0x2000 || u == 0x2001 || u == 0x2002 || u == 0x2003 || u == 0x2004 || u
                == 0x2005 || u == 0x2006 || u == 0x2007 || u == 0x2008 || u == 0x2009 || u
                == 0x200A);
        }
    }
}

/// Whether `c` and `d` are characters of one run of digits (`0`-`9`,
/// `a`-`f` or `A`-`F`) with `d` just after `c`.
pub open spec fn next_in_digit_run(c: char, d: char) -> bool {
    &&& d as u32 == c as u32 + 1
    &&& {
        ||| ('0' <= c && d <= '9')
        ||| ('a' <= c && d <= 'f')
        ||| ('A' <= c && d <= 'F')
    }
}

/// Digit values: `0` is worth nothing; each digit of a run is worth one
/// more than the one before it; `a` and `A` are worth one more than `9`;
/// and a lowercase hexadecimal digit is worth what its uppercase form is.
pub proof fn lemma_digit_values(c: char, d: char)
    ensures
        spec_digit_value('0') == 0,
        spec_digit_value('a') == spec_digit_value('9') + 1,
        spec_digit_value('A') == spec_digit_value('9') + 1,
        next_in_digit_run(c, d) ==> spec_digit_value(d) == spec_digit_value(c) + 1,
        'a' <= c <= 'f' && d as u32 + 32 == c as u32 ==> spec_digit_value(c) == spec_digit_value(d),
{
}

/// Digit radixes: a character that is a digit in base 16 (`0`-`9`, `a`-`f`,
/// `A`-`F`) belongs to the smallest of the bases 2, 10 and 16 whose digits
/// are worth less than the base; any other character belongs to none.
pub proof fn lemma_digit_radix(c: char)
    ensures
        ('0' <= c <= '9' || 'a' <= c <= 'f' || 'A' <= c <= 'F') ==> spec_digit_radix(c) == if spec_digit_value(c) < 2 {
            2nat
        } else if spec_digit_value(c) < 10 {
            10nat
        } else {
            16nat
        },
        !('0' <= c <= '9' || 'a' <= c <= 'f' || 'A' <= c <= 'F') ==> spec_digit_radix(c) == 0,
{
}

pub fn is_ascii_digit(c: char) -> (b: bool)
    ensures
        b == spec_is_ascii_digit(c),
{
    '0' <= c && c <= '9'
}

pub fn is_ascii_alphabetic(c: char) -> (b: bool)
    ensures
        b == spec_is_ascii_alphabetic(c),
{
    ('a' <= c && c <= 'z') || ('A' <= c && c <= 'Z')
}

pub fn is_ascii_alphanumeric(c: char) -> (b: bool)
    ensures
        b == spec_is_ascii_alphanumeric(c),
{
    is_ascii_digit(c) || is_ascii_alphabetic(c)
}

pub fn is_whitespace(c: char) -> (b: bool)
    ensures
        b == spec_is_whitespace(c),
{
    let u = c as u32;
    (0x09 <= u && u <= 0x0D) || u == 0x20 || u == 0x85 || u == 0xA0 || u == 0x1680 || (0x2000
        <= u && u <= 0x200A) || u == 0x2028 || u == 0x2029 || u == 0x202F || u == 0x205F || u
        == 0x3000
}

pub fn digit_radix(c: char) -> (r: u32)
    ensures
        r == spec_digit_radix(c),
{
    if c == '0' || c == '1' {
        2
    } else if is_ascii_digit(c) {
        10
    } else if ('a' <= c && c <= 'f') || ('A' <= c && c <= 'F') {
        16
    } else {
        0
    }
}

pub fn digit_value(c: char) -> (v: u32)
    ensures
        v == spec_digit_value(c),
        v < 16,
{
    if is_ascii_digit(c) {
        c as u32 - '0' as u32
    } else if 'a' <= c && c <= 'f' {
        c as u32 - 'a' as u32 + 10
    } else if 'A' <= c && c <= 'F' {
        c as u32 - 'A' as u32 + 10
    } else {
        0
    }
}

} // verus!
