//! Number literals: decimal, hexadecimal (`0x`) and binary (`0b`), with `_`
//! between digits and, for decimals, one decimal point.

use vstd::prelude::*;
use vstd::string::StringExecFns;

use super::{Lexer, SpecTokenValue, Token, TokenValue};
use super::operators::next_is;

use crate::chars::{
    digit_radix, digit_value, is_ascii_alphanumeric, is_ascii_digit, spec_digit_radix,
    spec_digit_value, spec_is_ascii_alphanumeric, spec_is_ascii_digit,
};
use crate::text::string_from_chars;

verus! {

/// What the scan of a number literal has gathered.
pub struct NumeralScan {
    /// The index just after the literal (once the scan is done).
    pub end: int,
    /// The letters and digits read, with the decimal points, without underscores.
    pub numeral: Seq<char>,
    /// The number of decimal points read.
    pub points: nat,
    /// The largest of the radixes (2, 10 or 16) that the characters read call for.
    pub max_radix: nat,
    /// Whether a character that is no digit in radix 16 was read.
    pub invalid: bool,
    /// What the last character read requires a digit to follow, if anything.
    pub requires: Option<Seq<char>>,
}

/// Whether index `i` of `s` holds `c`.
pub open spec fn char_at(s: Seq<char>, i: int, c: char) -> bool {
    0 <= i < s.len() && s[i] == c
}

/// Scans letters and digits from index `i` on. After each one, an `_` or a
/// lone `.` (not the start of `..`) is passed over and requires a digit to
/// follow. The scan stops at the first character that is neither.
pub open spec fn scan_numeral(s: Seq<char>, i: int, acc: NumeralScan) -> NumeralScan
    decreases s.len() - i,
{
    if 0 <= i < s.len() && spec_is_ascii_alphanumeric(s[i]) {
        let c = s[i];
        let r = spec_digit_radix(c);
        let numeral = acc.numeral.push(c);
        let max_radix = if r > acc.max_radix {
            r
        } else {
            acc.max_radix
        };
        let invalid = acc.invalid || r == 0;
        if char_at(s, i + 1, '_') {
            scan_numeral(
                s,
                i + 2,
                NumeralScan {
                    end: acc.end,
                    numeral,
                    points: acc.points,
                    max_radix,
                    invalid,
                    requires: Some("_"@),
                },
            )
        } else if char_at(s, i + 1, '.') && !char_at(s, i + 2, '.') {
            scan_numeral(
                s,
                i + 2,
                NumeralScan {
                    end: acc.end,
                    numeral: numeral.push('.'),
                    points: acc.points + 1,
                    max_radix,
                    invalid,
                    requires: Some("."@),
                },
            )
        } else {
            scan_numeral(
                s,
                i + 1,
                NumeralScan {
                    end: acc.end,
                    numeral,
                    points: acc.points,
                    max_radix,
                    invalid,
                    requires: None,
                },
            )
        }
    } else {
        NumeralScan { end: i, ..acc }
    }
}

pub proof fn lemma_scan_numeral(s: Seq<char>, i: int, acc: NumeralScan)
    requires
        0 <= i <= s.len(),
    ensures
        i <= scan_numeral(s, i, acc).end <= s.len(),
        scan_numeral(s, i, acc).points <= acc.points + scan_numeral(s, i, acc).end - i,
        i < s.len() && spec_is_ascii_alphanumeric(s[i]) ==> i < scan_numeral(s, i, acc).end,
    decreases s.len() - i,
{
    if i < s.len() && spec_is_ascii_alphanumeric(s[i]) {
        let c = s[i];
        let r = spec_digit_radix(c);
        let numeral = acc.numeral.push(c);
        let max_radix = if r > acc.max_radix {
            r
        } else {
            acc.max_radix
        };
        let invalid = acc.invalid || r == 0;
        if char_at(s, i + 1, '_') {
            lemma_scan_numeral(
                s,
                i + 2,
                NumeralScan {
                    end: acc.end,
                    numeral,
                    points: acc.points,
                    max_radix,
                    invalid,
                    requires: Some("_"@),
                },
            );
        } else if char_at(s, i + 1, '.') && !char_at(s, i + 2, '.') {
            lemma_scan_numeral(
                s,
                i + 2,
                NumeralScan {
                    end: acc.end,
                    numeral: numeral.push('.'),
                    points: acc.points + 1,
                    max_radix,
                    invalid,
                    requires: Some("."@),
                },
            );
        } else {
            lemma_scan_numeral(
                s,
                i + 1,
                NumeralScan {
                    end: acc.end,
                    numeral,
                    points: acc.points,
                    max_radix,
                    invalid,
                    requires: None,
                },
            );
        }
    }
}

/// The value of `digits` read as a number in base `radix`.
pub open spec fn digits_value(digits: Seq<char>, radix: nat) -> nat
    decreases digits.len(),
{
    if digits.len() == 0 {
        0
    } else {
        digits_value(digits.drop_last(), radix) * radix + spec_digit_value(digits.last())
    }
}

proof fn lemma_digits_value_grows(digits: Seq<char>, radix: nat, i: int, j: int)
    requires
        radix >= 1,
        0 <= i <= j <= digits.len(),
    ensures
        digits_value(digits.take(i), radix) <= digits_value(digits.take(j), radix),
    decreases j - i,
{
    if i < j {
        lemma_digits_value_grows(digits, radix, i, j - 1);
        assert(digits.take(j).drop_last() =~= digits.take(j - 1));
        let v = digits_value(digits.take(j - 1), radix);
        assert(v * radix >= v) by (nonlinear_arith)
            requires
                radix >= 1,
        ;
    }
}

/// The value of `digits` in base `radix`, when it fits an `i64`.
fn parse_digits(digits: &Vec<char>, radix: u32) -> (r: Option<i64>)
    requires
        1 <= radix <= 16,
    ensures
        match r {
            Some(v) => digits_value(digits@, radix as nat) <= i64::MAX && v == digits_value(
                digits@,
                radix as nat,
            ),
            None => digits_value(digits@, radix as nat) > i64::MAX,
        },
{
    let mut value: u128 = 0;
    let mut i: usize = 0;
    while i < digits.len()
        invariant
            1 <= radix <= 16,
            i <= digits@.len(),
            value == digits_value(digits@.take(i as int), radix as nat),
            value <= i64::MAX,
        decreases digits@.len() - i,
    {
        let d = digit_value(digits[i]);
        assert(value * (radix as u128) <= 0x8000_0000_0000_0000 * 16) by (nonlinear_arith)
            requires
                value <= i64::MAX,
                radix <= 16,
        ;
        let next = value * (radix as u128) + (d as u128);
        proof {
            assert(digits@.take(i + 1).drop_last() =~= digits@.take(i as int));
            assert(digits@.take(i + 1).last() == digits@[i as int]);
        }
        if next > i64::MAX as u128 {
            proof {
                lemma_digits_value_grows(digits@, radix as nat, i + 1, digits@.len() as int);
                assert(digits@.take(digits@.len() as int) =~= digits@);
            }
            return None;
        }
        value = next;
        i = i + 1;
    }
    assert(digits@.take(i as int) =~= digits@);
    Some(value as i64)
}

/// The prefix that sets a number's radix: the text of the prefix, its length,
/// the radix, and whether a decimal point is allowed. A `0` followed by `x`
/// or `b` is such a prefix.
pub open spec fn numeral_prefix(s: Seq<char>, k: int) -> (Seq<char>, int, nat, bool) {
    if s[k] == '0' && next_is(s, k, 'x') {
        ("0x"@, 2, 16, false)
    } else if s[k] == '0' && next_is(s, k, 'b') {
        ("0b"@, 2, 2, false)
    } else {
        (Seq::empty(), 0, 10, true)
    }
}

pub open spec fn invalid_characters_message(prefix: Seq<char>, numeral: Seq<char>) -> Seq<char> {
    "Number '"@ + prefix + numeral + "' contains invalid characters"@
}

pub open spec fn hexadecimal_digits_message(numeral: Seq<char>) -> Seq<char> {
    "Number contains hexadecimal digits, did you mean 0x"@ + numeral + "?"@
}

pub open spec fn decimal_digits_message(numeral: Seq<char>) -> Seq<char> {
    "Number contains decimal digits, did you mean "@ + numeral + "?"@
}

pub open spec fn unsupported_radix_message(numeral: Seq<char>) -> Seq<char> {
    "Number '"@ + numeral + "' uses unsupported radix"@
}

pub open spec fn missing_digit_message(required_for: Seq<char>) -> Seq<char> {
    "A digit must follow '"@ + required_for + "'"@
}

/// What a scanned number literal stands for. The checks come in this order:
/// characters that are no digits, digits beyond the radix, a missing digit,
/// a decimal point where none is allowed, more than one decimal point.
pub open spec fn numeral_value(
    prefix: Seq<char>,
    radix: nat,
    supports_float: bool,
    scan: NumeralScan,
) -> SpecTokenValue {
    let numeral = scan.numeral;
    if scan.invalid {
        SpecTokenValue::MalformedNumber(invalid_characters_message(prefix, numeral))
    } else if scan.max_radix > radix {
        if scan.max_radix == 16 {
            SpecTokenValue::MalformedNumber(hexadecimal_digits_message(numeral))
        } else if scan.max_radix == 10 {
            SpecTokenValue::MalformedNumber(decimal_digits_message(numeral))
        } else {
            SpecTokenValue::MalformedNumber(unsupported_radix_message(numeral))
        }
    } else if scan.requires is Some {
        SpecTokenValue::MalformedNumber(missing_digit_message(scan.requires->0))
    } else if scan.points > 0 && !supports_float {
        SpecTokenValue::MalformedNumber(
            "Hex and binary number literals do not support floating point"@,
        )
    } else if scan.points > 1 {
        SpecTokenValue::MalformedNumber("Numbers must contain no more than one decimal point"@)
    } else if scan.points > 0 {
        SpecTokenValue::Double(numeral)
    } else if digits_value(numeral, radix) <= i64::MAX {
        SpecTokenValue::Int(digits_value(numeral, radix) as i64)
    } else {
        SpecTokenValue::MalformedNumber("number too large to fit in target type"@)
    }
}

/// A number literal at index `k`, which starts with a decimal digit.
pub open spec fn lex_numeral(s: Seq<char>, k: int) -> Option<(int, SpecTokenValue)> {
    if 0 <= k < s.len() && spec_is_ascii_digit(s[k]) {
        let (prefix, prefix_len, radix, supports_float) = numeral_prefix(s, k);
        let initial = NumeralScan {
            end: 0,
            numeral: Seq::empty(),
            points: 0,
            max_radix: 0,
            invalid: false,
            requires: if prefix_len > 0 {
                Some(prefix)
            } else {
                None
            },
        };
        let scan = scan_numeral(s, k + prefix_len, initial);
        Some((scan.end, numeral_value(prefix, radix, supports_float, scan)))
    } else {
        None
    }
}

pub proof fn lemma_lex_numeral(s: Seq<char>, k: int)
    requires
        0 <= k < s.len(),
    ensures
        lex_numeral(s, k) matches Some((end, _)) ==> k < end <= s.len(),
{
    if spec_is_ascii_digit(s[k]) {
        let (prefix, prefix_len, radix, supports_float) = numeral_prefix(s, k);
        let initial = NumeralScan {
            end: 0,
            numeral: Seq::empty(),
            points: 0,
            max_radix: 0,
            invalid: false,
            requires: if prefix_len > 0 {
                Some(prefix)
            } else {
                None
            },
        };
        lemma_scan_numeral(s, k + prefix_len, initial);
        if prefix_len == 0 {
            assert(spec_is_ascii_alphanumeric(s[k]));
        }
    }
}

/// The view of the requirement that the scan has reached.
spec fn requirement_view(r: Option<&str>) -> Option<Seq<char>> {
    match r {
        Some(t) => Some(t@),
        None => None,
    }
}

impl Lexer {
    pub(super) fn tokenise_numeral(&mut self) -> (r: Option<Token>)
        requires
            old(self).wf(),
            old(self).at_token_start(),
        ensures
            old(self).read_as(final(self), r, lex_numeral(old(self).src(), old(self).idx())),
    {
        let ghost s = self.src();
        let ghost k = self.idx();
        let first = match self.source.peek_next() {
            Some(c) => {
                if !is_ascii_digit(*c) {
                    return None;
                }
                *c
            },
            None => {
                return None;
            },
        };
        let mut requires_digit_for: Option<&str> = None;
        let supports_float: bool;
        let prefix: &str;
        let prefix_len: usize;
        let allowed_radix: u32;
        let second = match self.source.peek(1) {
            Some(c) => *c,
            None => ' ',
        };
        if first == '0' && second == 'x' {
            requires_digit_for = Some("0x");
            supports_float = false;
            prefix = "0x";
            prefix_len = 2;
            allowed_radix = 16;
        } else if first == '0' && second == 'b' {
            requires_digit_for = Some("0b");
            supports_float = false;
            prefix = "0b";
            prefix_len = 2;
            allowed_radix = 2;
        } else {
            supports_float = true;
            prefix = "";
            prefix_len = 0;
            allowed_radix = 10;
        }
        let ghost (spec_prefix, spec_prefix_len, spec_radix, spec_float) = numeral_prefix(s, k);
        assert(prefix_len == spec_prefix_len && allowed_radix == spec_radix && supports_float
            == spec_float);
        assert(prefix_len > 0 ==> prefix@ == spec_prefix);
        self.advance_by(prefix_len);
        let ghost initial = NumeralScan {
            end: 0,
            numeral: Seq::empty(),
            points: 0,
            max_radix: 0,
            invalid: false,
            requires: requirement_view(requires_digit_for),
        };
        let ghost scan = scan_numeral(s, k + spec_prefix_len, initial);
        let mut num_decimal_points: usize = 0;
        let mut max_radix: u32 = 0;
        let mut contains_invalid = false;
        let mut numeral: Vec<char> = Vec::new();
        proof {
            lemma_scan_numeral(s, self.idx(), initial);
        }
        loop
            invariant
                self.wf(),
                old(self).same_token(self),
                self.src() == s,
                k + spec_prefix_len <= self.idx() <= s.len(),
                num_decimal_points <= self.idx(),
                max_radix <= 16,
                scan == scan_numeral(
                    s,
                    self.idx(),
                    NumeralScan {
                        end: 0,
                        numeral: numeral@,
                        points: num_decimal_points as nat,
                        max_radix: max_radix as nat,
                        invalid: contains_invalid,
                        requires: requirement_view(requires_digit_for),
                    },
                ),
            ensures
                self.wf(),
                old(self).same_token(self),
                self.src() == s,
                num_decimal_points <= self.idx(),
                max_radix <= 16,
                !(self.idx() < s.len() && spec_is_ascii_alphanumeric(s[self.idx()])),
                scan == scan_numeral(
                    s,
                    self.idx(),
                    NumeralScan {
                        end: 0,
                        numeral: numeral@,
                        points: num_decimal_points as nat,
                        max_radix: max_radix as nat,
                        invalid: contains_invalid,
                        requires: requirement_view(requires_digit_for),
                    },
                ),
            decreases s.len() - self.idx(),
        {
            let c = match self.source.peek_next() {
                Some(c) => *c,
                None => {
                    break;
                },
            };
            if !is_ascii_alphanumeric(c) {
                break;
            }
            numeral.push(c);
            self.advance();
            let r = digit_radix(c);
            if r > max_radix {
                max_radix = r;
            }
            if r == 0 {
                contains_invalid = true;
            }
            if self.char_is(0, '_') {
                self.advance();
                requires_digit_for = Some("_");
            } else if self.char_is(0, '.') && !self.char_is(1, '.') {
                self.advance();
                num_decimal_points = num_decimal_points + 1;
                requires_digit_for = Some(".");
                numeral.push('.');
            } else {
                requires_digit_for = None;
            }
        }
        assert(scan.numeral == numeral@);
        assert(scan.end == self.idx());
        let text = string_from_chars(numeral.as_slice());
        let value = if contains_invalid {
            let mut message = String::from_str("Number '");
            message.append(prefix);
            message.append(text.as_str());
            message.append("' contains invalid characters");
            proof {
                if prefix_len == 0 {
                    reveal_strlit("");
                }
            }
            TokenValue::MalformedNumber(message)
        } else if max_radix > allowed_radix {
            if max_radix == 16 {
                let mut message = String::from_str(
                    "Number contains hexadecimal digits, did you mean 0x",
                );
                message.append(text.as_str());
                message.append("?");
                TokenValue::MalformedNumber(message)
            } else if max_radix == 10 {
                let mut message = String::from_str("Number contains decimal digits, did you mean ");
                message.append(text.as_str());
                message.append("?");
                TokenValue::MalformedNumber(message)
            } else {
                let mut message = String::from_str("Number '");
                message.append(text.as_str());
                message.append("' uses unsupported radix");
                TokenValue::MalformedNumber(message)
            }
        } else if let Some(required_for) = requires_digit_for {
            let mut message = String::from_str("A digit must follow '");
            message.append(required_for);
            message.append("'");
            TokenValue::MalformedNumber(message)
        } else if num_decimal_points > 0 && !supports_float {
            TokenValue::MalformedNumber(
                String::from_str("Hex and binary number literals do not support floating point"),
            )
        } else if num_decimal_points > 1 {
            TokenValue::MalformedNumber(
                String::from_str("Numbers must contain no more than one decimal point"),
            )
        } else if num_decimal_points > 0 {
            TokenValue::Double(text)
        } else {
            match parse_digits(&numeral, allowed_radix) {
                Some(v) => TokenValue::Int(v),
                None => TokenValue::MalformedNumber(
                    String::from_str("number too large to fit in target type"),
                ),
            }
        };
        Some(self.new_token(value))
    }
}

} // verus!
