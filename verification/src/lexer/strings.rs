//! String literals: a run of one quote character opens the string, and the
//! same run closes it. A backslash starts an escape, and a `{` opens a hole:
//! the string is then a format string, split into a segment before each hole
//! and one after the last, and what stands in a hole is read as tokens.

use vstd::prelude::*;
use vstd::string::StringExecFns;

use super::{Lexer, SpecTokenValue, Token, TokenValue};

use crate::chars::{digit_radix, digit_value, spec_digit_radix, spec_digit_value};
use crate::peekable_stream::{lemma_matches_at, seq_matches_at};
use crate::text::{chars_of, push_char, string_from_chars};

use super::indentation::{unindent, unindent_chars};

verus! {

pub open spec fn is_string_delimiter(c: char) -> bool {
    c == '"' || c == '\''
}

/// The end of the run of `c` that starts at index `i`.
pub open spec fn run_end(s: Seq<char>, i: int, c: char) -> int
    decreases s.len() - i,
{
    if 0 <= i < s.len() && s[i] == c {
        run_end(s, i + 1, c)
    } else {
        i
    }
}

pub proof fn lemma_run_end(s: Seq<char>, i: int, c: char)
    requires
        0 <= i <= s.len(),
    ensures
        i <= run_end(s, i, c) <= s.len(),
        run_end(s, i, c) < s.len() ==> s[run_end(s, i, c)] != c,
        forall|j: int| i <= j < run_end(s, i, c) ==> s[j] == c,
    decreases s.len() - i,
{
    if i < s.len() && s[i] == c {
        lemma_run_end(s, i + 1, c);
    }
}

pub open spec fn missing_closing_message(delimiter: Seq<char>) -> Seq<char> {
    "Missing closing "@ + delimiter
}

pub open spec fn is_hex_digit(c: char) -> bool {
    spec_digit_radix(c) != 0
}

/// The end of the run of hexadecimal digits that starts at index `i`.
pub open spec fn hex_run_end(s: Seq<char>, i: int) -> int
    decreases s.len() - i,
{
    if 0 <= i < s.len() && is_hex_digit(s[i]) {
        hex_run_end(s, i + 1)
    } else {
        i
    }
}

pub proof fn lemma_hex_run_end(s: Seq<char>, i: int)
    requires
        0 <= i <= s.len(),
    ensures
        i <= hex_run_end(s, i) <= s.len(),
        hex_run_end(s, i) < s.len() ==> !is_hex_digit(s[hex_run_end(s, i)]),
        forall|j: int| i <= j < hex_run_end(s, i) ==> is_hex_digit(s[j]),
    decreases s.len() - i,
{
    if i < s.len() && is_hex_digit(s[i]) {
        lemma_hex_run_end(s, i + 1);
    }
}

/// The value of the hexadecimal digits `s[i..j]`.
pub open spec fn hex_value(s: Seq<char>, i: int, j: int) -> nat
    decreases j - i,
{
    if j <= i {
        0
    } else {
        hex_value(s, i, j - 1) * 16 + spec_digit_value(s[j - 1])
    }
}

/// The code point of `c`.
pub open spec fn code_point(c: char) -> nat {
    c as nat
}

/// The character whose code point is `v`.
pub open spec fn char_of(v: nat) -> char {
    choose|c: char| #[trigger] code_point(c) == v
}

/// The character of a code point is the character that has it.
pub proof fn lemma_char_of(c: char)
    ensures
        char_of(code_point(c)) == c,
{
    let d = char_of(code_point(c));
    assert(code_point(d) == code_point(c));
    assert(d as nat == c as nat);
}

/// Whether `v` is the code point of a character.
pub open spec fn is_scalar(v: nat) -> bool {
    v <= 0x10FFFF && !(0xD800 <= v <= 0xDFFF)
}

/// The escape that starts with the backslash at index `i`: how many
/// characters it takes, and the characters it stands for. `\"`, `\'`, `\\`
/// and `\{` stand for the character they escape; `\n`, `\r`, `\t` and `\0`
/// for a line feed, a carriage return, a tab and the null character; `\x`
/// with two hexadecimal digits for a character below 0x80; `\u{...}` with
/// one to six hexadecimal digits for the character of that code point. Any
/// other backslash stands for itself and the character after it (or for
/// itself alone at the end of the text).
pub open spec fn escape(s: Seq<char>, i: int) -> (int, Seq<char>) {
    if i + 1 >= s.len() {
        (1, seq!['\\'])
    } else {
        let c = s[i + 1];
        if c == '"' || c == '\'' || c == '\\' || c == '{' {
            (2, seq![c])
        } else if c == 'n' {
            (2, seq!['\n'])
        } else if c == 'r' {
            (2, seq!['\r'])
        } else if c == 't' {
            (2, seq!['\t'])
        } else if c == '0' {
            (2, seq!['\0'])
        } else if c == 'x' && i + 3 < s.len() && is_hex_digit(s[i + 2]) && is_hex_digit(s[i + 3])
            && hex_value(s, i + 2, i + 4) < 0x80 {
            (4, seq![char_of(hex_value(s, i + 2, i + 4))])
        } else if c == 'u' && i + 2 < s.len() && s[i + 2] == '{' && i + 3 < hex_run_end(s, i + 3)
            <= i + 9 && hex_run_end(s, i + 3) < s.len() && s[hex_run_end(s, i + 3)] == '}'
            && is_scalar(hex_value(s, i + 3, hex_run_end(s, i + 3))) {
            (
                hex_run_end(s, i + 3) + 1 - i,
                seq![char_of(hex_value(s, i + 3, hex_run_end(s, i + 3)))],
            )
        } else {
            (2, seq!['\\', c])
        }
    }
}

/// Where the text of a string segment that starts at index `i` stops: at
/// the delimiter `d`, at a `{` that opens a hole, or at the end of the text.
/// Escapes are stepped over whole.
pub open spec fn segment_end(s: Seq<char>, i: int, d: Seq<char>) -> int
    decreases s.len() - i,
{
    if i < 0 || i >= s.len() || seq_matches_at(s, i, d) || s[i] == '{' {
        i
    } else if s[i] == '\\' {
        if i + escape(s, i).0 <= s.len() && escape(s, i).0 >= 1 {
            segment_end(s, i + escape(s, i).0, d)
        } else {
            s.len() as int
        }
    } else {
        segment_end(s, i + 1, d)
    }
}

/// What the text of a string segment that starts at index `i` stands for:
/// its characters, with each escape replaced by what it stands for.
pub open spec fn segment_value(s: Seq<char>, i: int, d: Seq<char>) -> Seq<char>
    decreases s.len() - i,
{
    if i < 0 || i >= s.len() || seq_matches_at(s, i, d) || s[i] == '{' {
        Seq::empty()
    } else if s[i] == '\\' {
        if i + escape(s, i).0 <= s.len() && escape(s, i).0 >= 1 {
            escape(s, i).1 + segment_value(s, i + escape(s, i).0, d)
        } else {
            Seq::empty()
        }
    } else {
        seq![s[i]] + segment_value(s, i + 1, d)
    }
}

pub proof fn lemma_escape(s: Seq<char>, i: int)
    requires
        0 <= i < s.len(),
    ensures
        1 <= escape(s, i).0,
        i + escape(s, i).0 <= s.len(),
{
}

pub proof fn lemma_segment_end(s: Seq<char>, i: int, d: Seq<char>)
    requires
        0 <= i <= s.len(),
    ensures
        i <= segment_end(s, i, d) <= s.len(),
        segment_end(s, i, d) < s.len() ==> seq_matches_at(s, segment_end(s, i, d), d) || s[segment_end(
            s,
            i,
            d,
        )] == '{',
    decreases s.len() - i,
{
    if i < s.len() && !seq_matches_at(s, i, d) && s[i] != '{' {
        if s[i] == '\\' {
            lemma_escape(s, i);
            lemma_segment_end(s, i + escape(s, i).0, d);
        } else {
            lemma_segment_end(s, i + 1, d);
        }
    }
}

/// A string segment that starts at index `i`, inside a string opened with
/// the delimiter `d`; `resumed` when it follows a hole. The segment ends
/// with the delimiter, which it takes, or before a `{`; it is malformed
/// when the text ends first. A whole string, with no hole, whose text
/// spans lines is unindented.
pub open spec fn lex_segment(s: Seq<char>, i: int, d: Seq<char>, resumed: bool) -> (
    int,
    SpecTokenValue,
) {
    let j = segment_end(s, i, d);
    let v = segment_value(s, i, d);
    if 0 <= j < s.len() && seq_matches_at(s, j, d) {
        (
            j + d.len(),
            if resumed {
                SpecTokenValue::FormatStringEnd(v)
            } else {
                SpecTokenValue::String(
                    if s.subrange(i, j).contains('\n') {
                        unindent(v)
                    } else {
                        v
                    },
                )
            },
        )
    } else if 0 <= j < s.len() {
        (
            j,
            if resumed {
                SpecTokenValue::FormatStringMiddle(v)
            } else {
                SpecTokenValue::FormatStringStart(v)
            },
        )
    } else {
        (j, SpecTokenValue::MalformedString(missing_closing_message(d)))
    }
}

pub proof fn lemma_lex_segment(s: Seq<char>, i: int, d: Seq<char>, resumed: bool)
    requires
        0 <= i <= s.len(),
        d.len() > 0,
    ensures
        i <= lex_segment(s, i, d, resumed).0 <= s.len(),
        lex_segment(s, i, d, resumed).1 is FormatStringStart || lex_segment(s, i, d, resumed).1 is FormatStringMiddle
            ==> lex_segment(s, i, d, resumed).0 < s.len(),
{
    lemma_segment_end(s, i, d);
    let j = segment_end(s, i, d);
    if 0 <= j < s.len() && seq_matches_at(s, j, d) {
        lemma_matches_at(s, j, d);
    }
}

/// The delimiter of a string that opens at index `k`.
pub open spec fn delimiter_at(s: Seq<char>, k: int) -> Seq<char> {
    s.subrange(k, run_end(s, k, s[k]))
}

/// A string at index `k`: its delimiter is the whole run of the quote
/// character it opens with, and a first segment follows.
pub open spec fn lex_string(s: Seq<char>, k: int) -> Option<(int, SpecTokenValue)> {
    if 0 <= k < s.len() && is_string_delimiter(s[k]) {
        Some(lex_segment(s, run_end(s, k, s[k]), delimiter_at(s, k), false))
    } else {
        None
    }
}

pub proof fn lemma_lex_string(s: Seq<char>, k: int)
    requires
        0 <= k < s.len(),
    ensures
        lex_string(s, k) matches Some((end, _)) ==> k < end <= s.len(),
        lex_string(s, k) matches Some((end, v)) ==> (v is FormatStringStart ==> end < s.len()),
        is_string_delimiter(s[k]) ==> delimiter_at(s, k).len() > 0,
{
    if is_string_delimiter(s[k]) {
        lemma_run_end(s, k, s[k]);
        let e = run_end(s, k, s[k]);
        assert(k < e) by {
            lemma_run_end(s, k + 1, s[k]);
        }
        lemma_lex_segment(s, e, delimiter_at(s, k), false);
    }
}

/// A run of hexadecimal digits from `a` to `b` reaches at least to `b`, and
/// ends there when no digit follows.
pub proof fn lemma_hex_digits_run(s: Seq<char>, a: int, b: int)
    requires
        0 <= a <= b <= s.len(),
        forall|j: int| a <= j < b ==> is_hex_digit(#[trigger] s[j]),
    ensures
        hex_run_end(s, a) >= b,
        (b == s.len() || !is_hex_digit(s[b])) ==> hex_run_end(s, a) == b,
    decreases b - a,
{
    lemma_hex_run_end(s, a);
    if a < b {
        assert(is_hex_digit(s[a]));
        lemma_hex_digits_run(s, a + 1, b);
    }
}

/// `char::from_u32`: the character whose code point is `v`, if there is one.
#[verifier::external_body]
fn char_from_u32(v: u32) -> (r: Option<char>)
    ensures
        r is Some <==> is_scalar(v as nat),
        r matches Some(c) ==> code_point(c) == v as nat,
{
    char::from_u32(v)
}

pub open spec fn pow16(n: nat) -> nat
    decreases n,
{
    if n == 0 {
        1
    } else {
        16 * pow16((n - 1) as nat)
    }
}

impl Lexer {
    pub(super) fn tokenise_string(&mut self) -> (r: Option<Token>)
        requires
            old(self).wf(),
            old(self).at_token_start(),
        ensures
            old(self).read_as(final(self), r, lex_string(old(self).src(), old(self).idx())),
    {
        let ghost s = self.src();
        let ghost k = self.idx();
        let delimiter = match self.consume_string_delimiter() {
            Some(d) => d,
            None => {
                return None;
            },
        };
        Some(self.finish_segment(&delimiter, false))
    }

    /// Reads a string segment from the read index on, in a string opened with
    /// `delimiter`, and yields the token read since the token start.
    pub(super) fn finish_segment(&mut self, delimiter: &Vec<char>, resumed: bool) -> (t: Token)
        requires
            old(self).wf(),
            delimiter@.len() > 0,
        ensures
            final(self).wf(),
            old(self).same_token(final(self)),
            final(self).idx() == lex_segment(old(self).src(), old(self).idx(), delimiter@, resumed).0,
            t@ == super::make_token(
                old(self).src(),
                old(self).start_idx(),
                final(self).idx(),
                lex_segment(old(self).src(), old(self).idx(), delimiter@, resumed).1,
            ),
    {
        let ghost s = self.src();
        let ghost i = self.idx();
        let from = self.source.get_index();
        let value = self.read_segment(delimiter);
        let to = self.source.get_index();
        proof {
            lemma_segment_end(s, i, delimiter@);
        }
        if self.source.starts_with_chars(delimiter.as_slice()) {
            proof {
                lemma_matches_at(s, self.idx(), delimiter@);
            }
            self.advance_by(delimiter.len());
            if resumed {
                self.new_token(TokenValue::FormatStringEnd(value))
            } else {
                if self.has_line_feed(from, to) {
                    let chars = chars_of(value.as_str());
                    let text = string_from_chars(unindent_chars(&chars).as_slice());
                    self.new_token(TokenValue::String(text))
                } else {
                    self.new_token(TokenValue::String(value))
                }
            }
        } else if self.source.has_next() {
            if resumed {
                self.new_token(TokenValue::FormatStringMiddle(value))
            } else {
                self.new_token(TokenValue::FormatStringStart(value))
            }
        } else {
            let mut message = String::from_str("Missing closing ");
            let closing = string_from_chars(delimiter.as_slice());
            message.append(closing.as_str());
            self.new_token(TokenValue::MalformedString(message))
        }
    }

    /// Whether the text between two indices holds a line feed.
    fn has_line_feed(&self, from: usize, to: usize) -> (b: bool)
        requires
            self.wf(),
            from <= to <= self.src().len(),
        ensures
            b == self.src().subrange(from as int, to as int).contains('\n'),
    {
        let chars = self.source.unwrap();
        let mut j = from;
        while j < to
            invariant
                chars@ == self.src(),
                from <= j <= to <= chars@.len(),
                !chars@.subrange(from as int, j as int).contains('\n'),
            decreases to - j,
        {
            if chars[j] == '\n' {
                assert(chars@.subrange(from as int, to as int)[j - from] == '\n');
                return true;
            }
            j = j + 1;
            assert forall|x: int| 0 <= x < j - from implies chars@.subrange(from as int, j as int)[x]
                != '\n' by {
                if x < j - 1 - from {
                    assert(chars@.subrange(from as int, j as int)[x] == chars@.subrange(
                        from as int,
                        j - 1,
                    )[x]);
                }
            }
        }
        false
    }

    /// Reads the text of a string segment up to the delimiter, a `{` or the
    /// end of the text, and yields what it stands for.
    fn read_segment(&mut self, delimiter: &Vec<char>) -> (r: String)
        requires
            old(self).wf(),
            delimiter@.len() > 0,
        ensures
            final(self).wf(),
            old(self).same_token(final(self)),
            final(self).idx() == segment_end(old(self).src(), old(self).idx(), delimiter@),
            r@ == segment_value(old(self).src(), old(self).idx(), delimiter@),
    {
        let ghost s = self.src();
        let ghost i0 = self.idx();
        let mut r = String::new();
        proof {
            lemma_segment_end(s, i0, delimiter@);
        }
        loop
            invariant
                self.wf(),
                old(self).same_token(self),
                self.src() == s,
                i0 == old(self).idx(),
                i0 <= self.idx() <= segment_end(s, i0, delimiter@),
                segment_end(s, self.idx(), delimiter@) == segment_end(s, i0, delimiter@),
                segment_value(s, i0, delimiter@) == r@ + segment_value(s, self.idx(), delimiter@),
            ensures
                self.wf(),
                old(self).same_token(self),
                self.src() == s,
                self.idx() == segment_end(s, i0, delimiter@),
                r@ == segment_value(s, i0, delimiter@),
            decreases s.len() - self.idx(),
        {
            let ghost j = self.idx();
            proof {
                lemma_segment_end(s, j, delimiter@);
            }
            let c = match self.source.peek_next() {
                Some(c) => *c,
                None => {
                    assert(r@ =~= r@ + segment_value(s, j, delimiter@));
                    break;
                },
            };
            if self.source.starts_with_chars(delimiter.as_slice()) || c == '{' {
                assert(r@ =~= r@ + segment_value(s, j, delimiter@));
                break;
            }
            let ghost before = r@;
            if c == '\\' {
                proof {
                    lemma_escape(s, j);
                }
                self.read_escape(&mut r);
                proof {
                    lemma_segment_end(s, self.idx(), delimiter@);
                }
                assert(r@ + segment_value(s, self.idx(), delimiter@) =~= before + segment_value(
                    s,
                    j,
                    delimiter@,
                ));
            } else {
                push_char(&mut r, c);
                self.advance();
                proof {
                    lemma_segment_end(s, self.idx(), delimiter@);
                }
                assert(r@ + segment_value(s, self.idx(), delimiter@) =~= before + segment_value(
                    s,
                    j,
                    delimiter@,
                ));
            }
        }
        r
    }

    /// Reads the escape that starts with the backslash at the read index,
    /// and appends what it stands for to `out`.
    fn read_escape(&mut self, out: &mut String)
        requires
            old(self).wf(),
            old(self).idx() < old(self).src().len(),
            old(self).src()[old(self).idx()] == '\\',
        ensures
            final(self).wf(),
            old(self).same_token(final(self)),
            final(self).idx() == old(self).idx() + escape(old(self).src(), old(self).idx()).0,
            final(out)@ == old(out)@ + escape(old(self).src(), old(self).idx()).1,
    {
        let ghost s = self.src();
        let ghost i = self.idx();
        let c = match self.source.peek(1) {
            Some(c) => *c,
            None => {
                push_char(out, '\\');
                self.advance();
                return;
            },
        };
        let simple: Option<char> = if c == '"' || c == '\'' || c == '\\' || c == '{' {
            Some(c)
        } else if c == 'n' {
            Some('\n')
        } else if c == 'r' {
            Some('\r')
        } else if c == 't' {
            Some('\t')
        } else if c == '0' {
            Some('\0')
        } else {
            None
        };
        if let Some(e) = simple {
            push_char(out, e);
            self.advance_by(2);
            return;
        }
        if c == 'x' {
            if let (Some(a), Some(b)) = (self.source.peek(2), self.source.peek(3)) {
                let (a, b) = (*a, *b);
                if digit_radix(a) != 0 && digit_radix(b) != 0 {
                    let v = digit_value(a) * 16 + digit_value(b);
                    proof {
                        reveal_with_fuel(hex_value, 3);
                    }
                    if v < 0x80 {
                        if let Some(ch) = char_from_u32(v) {
                            assert(v == hex_value(s, i + 2, i + 4));
                            proof {
                                lemma_char_of(ch);
                            }
                            push_char(out, ch);
                            self.advance_by(4);
                            return;
                        }
                    }
                }
            }
        }
        if c == 'u' && self.char_is(2, '{') {
            let mut count: usize = 0;
            let mut v: u32 = 0;
            proof {
                reveal_with_fuel(pow16, 8);
            }
            loop
                invariant
                    self.wf(),
                    self.src() == s,
                    self.idx() == i,
                    count <= 7,
                    i + 3 + count <= s.len(),
                    v == hex_value(s, i + 3, i + 3 + count),
                    v < pow16(count as nat),
                    pow16(count as nat) <= pow16(7),
                    forall|j: int| i + 3 <= j < i + 3 + count ==> is_hex_digit(#[trigger] s[j]),
                ensures
                    self.wf(),
                    self.src() == s,
                    self.idx() == i,
                    count <= 7,
                    i + 3 + count <= s.len(),
                    v == hex_value(s, i + 3, i + 3 + count),
                    forall|j: int| i + 3 <= j < i + 3 + count ==> is_hex_digit(#[trigger] s[j]),
                    count < 7 ==> (i + 3 + count == s.len() || !is_hex_digit(s[i + 3 + count])),
                decreases 7 - count,
            {
                if count >= 7 {
                    break;
                }
                let d = match self.source.peek(3 + count) {
                    Some(d) => *d,
                    None => {
                        break;
                    },
                };
                if digit_radix(d) == 0 {
                    break;
                }
                proof {
                    reveal_with_fuel(pow16, 8);
                }
                v = v * 16 + digit_value(d);
                count = count + 1;
            }
            proof {
                lemma_hex_run_end(s, i + 3);
                lemma_hex_digits_run(s, i + 3, i + 3 + count);
            }
            if 1 <= count && count <= 6 && self.char_is(3 + count, '}') {
                if let Some(ch) = char_from_u32(v) {
                    proof {
                        lemma_char_of(ch);
                    }
                    push_char(out, ch);
                    self.advance_by(count + 4);
                    return;
                }
            }
        }
        push_char(out, '\\');
        push_char(out, c);
        self.advance_by(2);
    }

    /// Consumes the run of quote characters that opens a string, and yields it.
    fn consume_string_delimiter(&mut self) -> (r: Option<Vec<char>>)
        requires
            old(self).wf(),
        ensures
            final(self).wf(),
            old(self).same_token(final(self)),
            ({
                let s = old(self).src();
                let k = old(self).idx();
                if 0 <= k < s.len() && is_string_delimiter(s[k]) {
                    &&& final(self).idx() == run_end(s, k, s[k])
                    &&& r matches Some(d) && d@ == s.subrange(k, run_end(s, k, s[k])) && d@.len() > 0
                } else {
                    r is None && final(self).idx() == k
                }
            }),
    {
        let ghost s = self.src();
        let ghost k = self.idx();
        let delimiter_char = match self.source.peek_next() {
            Some(c) => *c,
            None => {
                return None;
            },
        };
        if delimiter_char != '"' && delimiter_char != '\'' {
            return None;
        }
        proof {
            lemma_run_end(s, k, delimiter_char);
            lemma_run_end(s, k + 1, delimiter_char);
        }
        let mut delimiter: Vec<char> = Vec::new();
        loop
            invariant
                self.wf(),
                old(self).same_token(self),
                self.src() == s,
                k <= self.idx() <= run_end(s, k, delimiter_char),
                run_end(s, self.idx(), delimiter_char) == run_end(s, k, delimiter_char),
                delimiter@ == s.subrange(k, self.idx()),
            ensures
                self.wf(),
                old(self).same_token(self),
                self.src() == s,
                self.idx() == run_end(s, k, delimiter_char),
                delimiter@ == s.subrange(k, self.idx()),
            decreases s.len() - self.idx(),
        {
            match self.source.peek_next() {
                Some(c) => {
                    if *c != delimiter_char {
                        break;
                    }
                },
                None => {
                    break;
                },
            }
            delimiter.push(delimiter_char);
            self.advance();
            proof {
                lemma_run_end(s, self.idx(), delimiter_char);
            }
            assert(delimiter@ =~= s.subrange(k, self.idx()));
        }
        Some(delimiter)
    }
}

} // verus!
