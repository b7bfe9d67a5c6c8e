//! The lexer: turns source text into tokens. Every token records the text it
//! was read from and the 1-based positions where it starts and where it ends
//! (the position just after its last character).

use vstd::prelude::*;

use comments::lex_comment;
use numerals::lex_numeral;
use operators::lex_operator;
use special_characters::lex_special_character;
use strings::{delimiter_at, is_string_delimiter, lemma_lex_segment, lex_segment, lex_string};
use symbols::lex_symbol;

use crate::chars::{
    is_whitespace, lemma_whitespace_is_unicode_white_space, spec_is_whitespace,
    unicode_white_space,
};
use crate::common::{position_le, Keyword, Operator, Position, SpecialCharacter};
use crate::peekable_stream::{seq_matches_at, PeekableStream};
use crate::text::string_from_range;

pub mod comments;
pub mod error;
pub mod indentation;
pub mod numerals;
pub mod operators;
pub mod special_characters;
pub mod strings;
pub mod symbols;

verus! {

/// What a token stands for.
///
/// `Double` holds the text of a decimal literal: its digits and its one
/// decimal point, without underscores. Such a text reads as a floating point
/// number, which is infinite when the literal is too large for one.
#[derive(Debug, PartialEq)]
pub enum TokenValue {
    Nil,
    Bool(bool),
    Int(i64),
    Double(String),
    String(String),
    FormatStringStart(String),
    FormatStringMiddle(String),
    FormatStringEnd(String),
    Symbol(String),
    Keyword(Keyword),
    Operator(Operator),
    SpecialCharacter(SpecialCharacter),
    Comment(String),
    UnexpectedCharacter(char),
    MalformedNumber(String),
    MalformedString(String),
}

/// The mathematical model of a [`TokenValue`]: strings become character sequences.
pub enum SpecTokenValue {
    Nil,
    Bool(bool),
    Int(i64),
    Double(Seq<char>),
    String(Seq<char>),
    FormatStringStart(Seq<char>),
    FormatStringMiddle(Seq<char>),
    FormatStringEnd(Seq<char>),
    Symbol(Seq<char>),
    Keyword(Keyword),
    Operator(Operator),
    SpecialCharacter(SpecialCharacter),
    Comment(Seq<char>),
    UnexpectedCharacter(char),
    MalformedNumber(Seq<char>),
    MalformedString(Seq<char>),
}

impl View for TokenValue {
    type V = SpecTokenValue;

    open spec fn view(&self) -> SpecTokenValue {
        match self {
            TokenValue::Nil => SpecTokenValue::Nil,
            TokenValue::Bool(b) => SpecTokenValue::Bool(*b),
            TokenValue::Int(i) => SpecTokenValue::Int(*i),
            TokenValue::Double(s) => SpecTokenValue::Double(s@),
            TokenValue::String(s) => SpecTokenValue::String(s@),
            TokenValue::FormatStringStart(s) => SpecTokenValue::FormatStringStart(s@),
            TokenValue::FormatStringMiddle(s) => SpecTokenValue::FormatStringMiddle(s@),
            TokenValue::FormatStringEnd(s) => SpecTokenValue::FormatStringEnd(s@),
            TokenValue::Symbol(s) => SpecTokenValue::Symbol(s@),
            TokenValue::Keyword(k) => SpecTokenValue::Keyword(*k),
            TokenValue::Operator(o) => SpecTokenValue::Operator(*o),
            TokenValue::SpecialCharacter(c) => SpecTokenValue::SpecialCharacter(*c),
            TokenValue::Comment(s) => SpecTokenValue::Comment(s@),
            TokenValue::UnexpectedCharacter(c) => SpecTokenValue::UnexpectedCharacter(*c),
            TokenValue::MalformedNumber(s) => SpecTokenValue::MalformedNumber(s@),
            TokenValue::MalformedString(s) => SpecTokenValue::MalformedString(s@),
        }
    }
}

impl Clone for TokenValue {
    fn clone(&self) -> (r: Self)
        ensures
            r == *self,
    {
        match self {
            TokenValue::Nil => TokenValue::Nil,
            TokenValue::Bool(b) => TokenValue::Bool(*b),
            TokenValue::Int(i) => TokenValue::Int(*i),
            TokenValue::Double(s) => TokenValue::Double(s.clone()),
            TokenValue::String(s) => TokenValue::String(s.clone()),
            TokenValue::FormatStringStart(s) => TokenValue::FormatStringStart(s.clone()),
            TokenValue::FormatStringMiddle(s) => TokenValue::FormatStringMiddle(s.clone()),
            TokenValue::FormatStringEnd(s) => TokenValue::FormatStringEnd(s.clone()),
            TokenValue::Symbol(s) => TokenValue::Symbol(s.clone()),
            TokenValue::Keyword(k) => TokenValue::Keyword(*k),
            TokenValue::Operator(o) => TokenValue::Operator(*o),
            TokenValue::SpecialCharacter(c) => TokenValue::SpecialCharacter(*c),
            TokenValue::Comment(s) => TokenValue::Comment(s.clone()),
            TokenValue::UnexpectedCharacter(c) => TokenValue::UnexpectedCharacter(*c),
            TokenValue::MalformedNumber(s) => TokenValue::MalformedNumber(s.clone()),
            TokenValue::MalformedString(s) => TokenValue::MalformedString(s.clone()),
        }
    }
}

/// A token: what it stands for, the text it was read from, and where that text lies.
#[derive(Debug, PartialEq)]
pub struct Token {
    pub value: TokenValue,
    pub lexeme: String,
    pub start: Position,
    pub end: Position,
}

/// The mathematical model of a [`Token`].
pub struct SpecToken {
    pub value: SpecTokenValue,
    pub lexeme: Seq<char>,
    pub start: Position,
    pub end: Position,
}

impl View for Token {
    type V = SpecToken;

    open spec fn view(&self) -> SpecToken {
        SpecToken { value: self.value@, lexeme: self.lexeme@, start: self.start, end: self.end }
    }
}

impl Clone for Token {
    fn clone(&self) -> (r: Self)
        ensures
            r == *self,
    {
        Token {
            value: self.value.clone(),
            lexeme: self.lexeme.clone(),
            start: self.start,
            end: self.end,
        }
    }
}

/// The position of index `i` of `s`: one line further for every line break
/// before it, and the column counted from the last of them.
pub open spec fn pos_at(s: Seq<char>, i: int) -> Position
    decreases i,
{
    if i <= 0 {
        Position { line: 1, column: 1 }
    } else {
        let p = pos_at(s, i - 1);
        if s[i - 1] == '\n' {
            Position { line: (p.line + 1) as usize, column: 1 }
        } else {
            Position { line: p.line, column: (p.column + 1) as usize }
        }
    }
}

pub proof fn lemma_pos_at_bounds(s: Seq<char>, i: int)
    requires
        0 <= i < usize::MAX,
    ensures
        1 <= pos_at(s, i).line <= i + 1,
        1 <= pos_at(s, i).column <= i + 1,
    decreases i,
{
    if i > 0 {
        lemma_pos_at_bounds(s, i - 1);
    }
}

/// Positions grow with the index: a later index is at a later line, or at
/// a later column of the same line.
pub proof fn lemma_pos_at_monotone(s: Seq<char>, i: int, j: int)
    requires
        0 <= i <= j < usize::MAX,
    ensures
        position_le(pos_at(s, i), pos_at(s, j)),
    decreases j - i,
{
    if i < j {
        lemma_pos_at_monotone(s, i, j - 1);
        lemma_pos_at_bounds(s, j - 1);
    }
}

/// Tokens lie in order after `previous`: each starts no earlier than
/// `previous` and ends no earlier than it starts, none ends after a later
/// one starts, and each starts at a line and a column of at least 1.
pub open spec fn laid_out(tokens: Seq<SpecToken>, previous: Position) -> bool {
    &&& forall|i: int| 0 <= i < tokens.len() ==> position_le(previous, #[trigger] tokens[i].start)
    &&& forall|i: int, j: int|
        0 <= i < j < tokens.len() ==> position_le(#[trigger] tokens[i].end, #[trigger] tokens[j].start)
    &&& forall|i: int|
        0 <= i < tokens.len() ==> {
            &&& position_le(#[trigger] tokens[i].start, tokens[i].end)
            &&& tokens[i].start.line >= 1
            &&& tokens[i].start.column >= 1
            &&& tokens[i].end.column >= 1
        }
}

/// The first index from `i` on at which `pattern` stands in `s`, or the
/// length of `s` when there is none.
pub open spec fn find_from(s: Seq<char>, i: int, pattern: Seq<char>) -> int
    decreases s.len() - i,
{
    if i >= s.len() || seq_matches_at(s, i, pattern) {
        i
    } else {
        find_from(s, i + 1, pattern)
    }
}

pub proof fn lemma_find_from(s: Seq<char>, i: int, pattern: Seq<char>)
    requires
        0 <= i <= s.len(),
    ensures
        i <= find_from(s, i, pattern) <= s.len(),
        find_from(s, i, pattern) == s.len() || seq_matches_at(s, find_from(s, i, pattern), pattern),
        forall|j: int| i <= j < find_from(s, i, pattern) ==> !seq_matches_at(s, j, pattern),
    decreases s.len() - i,
{
    if i < s.len() && !seq_matches_at(s, i, pattern) {
        lemma_find_from(s, i + 1, pattern);
    }
}

/// The first index from `i` on that holds no whitespace (the length of `s` if there is none).
pub open spec fn skip_whitespace(s: Seq<char>, i: int) -> int
    decreases s.len() - i,
{
    if 0 <= i < s.len() && spec_is_whitespace(s[i]) {
        skip_whitespace(s, i + 1)
    } else {
        i
    }
}

pub proof fn lemma_skip_whitespace(s: Seq<char>, i: int)
    requires
        0 <= i <= s.len(),
    ensures
        i <= skip_whitespace(s, i) <= s.len(),
        skip_whitespace(s, i) < s.len() ==> !spec_is_whitespace(s[skip_whitespace(s, i)]),
    decreases s.len() - i,
{
    if i < s.len() && spec_is_whitespace(s[i]) {
        lemma_skip_whitespace(s, i + 1);
    }
}

/// The token that starts at index `k` of `s` (a character other than
/// whitespace): the index just after it, and what it stands for. The kinds
/// of token are tried in this order: comment, number, string, symbol or
/// keyword, operator, special character; a character that starts none of
/// them is a token of its own.
pub open spec fn lex_token(s: Seq<char>, k: int) -> (int, SpecTokenValue) {
    if let Some(r) = lex_comment(s, k) {
        r
    } else if let Some(r) = lex_numeral(s, k) {
        r
    } else if let Some(r) = lex_string(s, k) {
        r
    } else if let Some(r) = lex_symbol(s, k) {
        r
    } else if let Some(r) = lex_operator(s, k) {
        r
    } else if let Some(r) = lex_special_character(s, k) {
        r
    } else {
        (k + 1, SpecTokenValue::UnexpectedCharacter(s[k]))
    }
}

/// The token read from `s[start..end]`.
pub open spec fn make_token(s: Seq<char>, start: int, end: int, value: SpecTokenValue) -> SpecToken {
    SpecToken {
        value,
        lexeme: s.subrange(start, end),
        start: pos_at(s, start),
        end: pos_at(s, end),
    }
}

pub proof fn lemma_lex_token(s: Seq<char>, k: int)
    requires
        0 <= k < s.len(),
    ensures
        k < lex_token(s, k).0 <= s.len(),
{
    comments::lemma_lex_comment(s, k);
    numerals::lemma_lex_numeral(s, k);
    strings::lemma_lex_string(s, k);
    symbols::lemma_lex_symbol(s, k);
}

/// A format string whose hole is being read: the delimiter it opened with,
/// and how many of the `{` read in the hole are still open.
pub struct OpenFormat {
    pub delimiter: Seq<char>,
    pub depth: nat,
}

/// Every open format string has a delimiter.
pub open spec fn formats_ok(open: Seq<OpenFormat>) -> bool {
    forall|j: int| 0 <= j < open.len() ==> (#[trigger] open[j]).delimiter.len() > 0
}

/// One step of the lexer at index `k` (a character other than whitespace),
/// with the format strings `open` whose holes are being read: where the
/// token's text starts and ends, what it stands for, where reading goes on,
/// and the format strings open after it.
///
/// A `}` that closes the hole of the innermost format string resumes that
/// string: the next segment starts after the `}`. A segment or a string that
/// stops at a `{` opens a hole: the `{` belongs to no token, and reading goes
/// on after it. Inside a hole, `{` and `}` tokens open and close brackets of
/// their own.
pub open spec fn step(s: Seq<char>, k: int, open: Seq<OpenFormat>) -> (
    int,
    int,
    SpecTokenValue,
    int,
    Seq<OpenFormat>,
) {
    if open.len() > 0 && s[k] == '}' && open.last().depth == 0 {
        let (end, value) = lex_segment(s, k + 1, open.last().delimiter, true);
        if value is FormatStringMiddle {
            (k + 1, end, value, end + 1, open)
        } else {
            (k + 1, end, value, end, open.drop_last())
        }
    } else {
        let (end, value) = lex_token(s, k);
        if value is FormatStringStart {
            (k, end, value, end + 1, open.push(OpenFormat { delimiter: delimiter_at(s, k), depth: 0 }))
        } else if open.len() > 0 && value == SpecTokenValue::SpecialCharacter(
            SpecialCharacter::OpenCurlyBracket,
        ) {
            (
                k,
                end,
                value,
                end,
                open.drop_last().push(
                    OpenFormat { delimiter: open.last().delimiter, depth: open.last().depth + 1 },
                ),
            )
        } else if open.len() > 0 && value == SpecTokenValue::SpecialCharacter(
            SpecialCharacter::CloseCurlyBracket,
        ) {
            (
                k,
                end,
                value,
                end,
                open.drop_last().push(
                    OpenFormat {
                        delimiter: open.last().delimiter,
                        depth: (open.last().depth - 1) as nat,
                    },
                ),
            )
        } else {
            (k, end, value, end, open)
        }
    }
}

pub proof fn lemma_step(s: Seq<char>, k: int, open: Seq<OpenFormat>)
    requires
        0 <= k < s.len(),
        formats_ok(open),
    ensures
        ({
            let (start, end, value, next, after) = step(s, k, open);
            &&& k <= start <= end <= next <= s.len()
            &&& k < next
            &&& formats_ok(after)
        }),
{
    if open.len() > 0 && s[k] == '}' && open.last().depth == 0 {
        assert(open.last() == open[open.len() - 1]);
        lemma_lex_segment(s, k + 1, open.last().delimiter, true);
        assert forall|j: int| 0 <= j < open.drop_last().len() implies (
        #[trigger] open.drop_last()[j]).delimiter.len() > 0 by {
            assert(open.drop_last()[j] == open[j]);
        }
    } else {
        lemma_lex_token(s, k);
        let (end, value) = lex_token(s, k);
        if value is FormatStringStart {
            strings::lemma_lex_string(s, k);
            lemma_start_from_string(s, k);
        }
        if open.len() > 0 {
            assert(open.last() == open[open.len() - 1]);
            assert forall|j: int| 0 <= j < open.drop_last().len() implies (
            #[trigger] open.drop_last()[j]).delimiter.len() > 0 by {
                assert(open.drop_last()[j] == open[j]);
            }
        }
        let after = step(s, k, open).4;
        assert forall|j: int| 0 <= j < after.len() implies (#[trigger] after[j]).delimiter.len()
            > 0 by {
            if open.len() > 0 && j < open.len() - 1 {
                assert(open.drop_last()[j] == open[j]);
            }
        }
    }
}

/// Only a string opens a format string.
proof fn lemma_start_from_string(s: Seq<char>, k: int)
    requires
        0 <= k < s.len(),
        lex_token(s, k).1 is FormatStringStart,
    ensures
        lex_string(s, k) == Some(lex_token(s, k)),
        is_string_delimiter(s[k]),
{
    comments::lemma_lex_comment(s, k);
    numerals::lemma_lex_numeral(s, k);
    symbols::lemma_lex_symbol(s, k);
}

/// The tokens of `s` from index `i` on, with the format strings `open`.
pub open spec fn tokens_from(s: Seq<char>, i: int, open: Seq<OpenFormat>) -> Seq<SpecToken>
    decreases s.len() - i,
{
    let k = skip_whitespace(s, i);
    if i < 0 || k >= s.len() {
        Seq::empty()
    } else {
        let (start, end, value, next, after) = step(s, k, open);
        if i < next <= s.len() {
            seq![make_token(s, start, end, value)] + tokens_from(s, next, after)
        } else {
            Seq::empty()
        }
    }
}

/// There are no more tokens from index `i` on than characters.
pub proof fn lemma_tokens_from_len(s: Seq<char>, i: int, open: Seq<OpenFormat>)
    requires
        0 <= i <= s.len(),
        formats_ok(open),
    ensures
        tokens_from(s, i, open).len() <= s.len() - i,
    decreases s.len() - i,
{
    let k = skip_whitespace(s, i);
    lemma_skip_whitespace(s, i);
    if k < s.len() {
        lemma_step(s, k, open);
        let (start, end, value, next, after) = step(s, k, open);
        lemma_tokens_from_len(s, next, after);
    }
}

/// The tokens read from index `i` on lie in order after the position of `i`.
pub proof fn lemma_tokens_from_laid_out(s: Seq<char>, i: int, open: Seq<OpenFormat>)
    requires
        0 <= i <= s.len() < usize::MAX,
        formats_ok(open),
    ensures
        laid_out(tokens_from(s, i, open), pos_at(s, i)),
    decreases s.len() - i,
{
    let k = skip_whitespace(s, i);
    lemma_skip_whitespace(s, i);
    if k < s.len() {
        lemma_step(s, k, open);
        let (start, end, value, next, after) = step(s, k, open);
        lemma_tokens_from_laid_out(s, next, after);
        let t = make_token(s, start, end, value);
        let rest = tokens_from(s, next, after);
        let all = tokens_from(s, i, open);
        assert(all == seq![t] + rest);
        lemma_pos_at_monotone(s, i, start);
        lemma_pos_at_monotone(s, start, end);
        lemma_pos_at_monotone(s, end, next);
        lemma_pos_at_monotone(s, i, next);
        lemma_pos_at_bounds(s, start);
        assert forall|a: int| 0 <= a < all.len() implies position_le(pos_at(s, i), #[trigger] all[a].start) by {
            if a > 0 {
                assert(all[a] == rest[a - 1]);
            }
        }
        assert forall|a: int, b: int|
            0 <= a < b < all.len() implies position_le(#[trigger] all[a].end, #[trigger] all[b].start) by {
            assert(all[b] == rest[b - 1]);
            if a > 0 {
                assert(all[a] == rest[a - 1]);
            }
        }
        lemma_pos_at_bounds(s, end);
        assert forall|a: int| 0 <= a < all.len() implies {
            &&& position_le(#[trigger] all[a].start, all[a].end)
            &&& all[a].start.line >= 1
            &&& all[a].start.column >= 1
            &&& all[a].end.column >= 1
        } by {
            if a > 0 {
                assert(all[a] == rest[a - 1]);
            }
        }
    }
}

/// The tokens of a whole source text.
pub open spec fn spec_tokenise(s: Seq<char>) -> Seq<SpecToken> {
    tokens_from(s, 0, Seq::empty())
}

proof fn lemma_skip_white_space_to_end(s: Seq<char>, i: int)
    requires
        0 <= i <= s.len(),
        forall|k: int| 0 <= k < s.len() ==> spec_is_whitespace(#[trigger] s[k]),
    ensures
        skip_whitespace(s, i) == s.len(),
    decreases s.len() - i,
{
    if i < s.len() {
        lemma_skip_white_space_to_end(s, i + 1);
    }
}

/// A text made only of characters with Unicode's White_Space property (such
/// as spaces, tabs, carriage returns and line feeds) has no tokens.
pub proof fn lemma_white_space_has_no_tokens(s: Seq<char>)
    requires
        forall|k: int| 0 <= k < s.len() ==> unicode_white_space().contains(#[trigger] s[k] as u32),
    ensures
        spec_tokenise(s) == Seq::<SpecToken>::empty(),
{
    assert forall|k: int| 0 <= k < s.len() implies spec_is_whitespace(#[trigger] s[k]) by {
        lemma_whitespace_is_unicode_white_space(s[k]);
        assert(unicode_white_space().contains(s[k] as u32));
    }
    lemma_skip_white_space_to_end(s, 0);
}

/// Whether `t` is a piece of `s`: its lexeme is the text between two indices
/// of `s`, and it starts and ends at the positions of those indices.
pub open spec fn is_piece_of(s: Seq<char>, t: SpecToken) -> bool {
    exists|a: int, b: int| 0 <= a <= b <= s.len() && t == make_token(s, a, b, t.value)
}

proof fn lemma_tokens_from_pieces(s: Seq<char>, i: int, open: Seq<OpenFormat>)
    requires
        0 <= i <= s.len(),
        formats_ok(open),
    ensures
        forall|n: int| 0 <= n < tokens_from(s, i, open).len() ==> is_piece_of(s, #[trigger] tokens_from(s, i, open)[n]),
    decreases s.len() - i,
{
    let k = skip_whitespace(s, i);
    lemma_skip_whitespace(s, i);
    if k < s.len() {
        lemma_step(s, k, open);
        let (start, end, value, next, after) = step(s, k, open);
        lemma_tokens_from_pieces(s, next, after);
        let t = make_token(s, start, end, value);
        let rest = tokens_from(s, next, after);
        let all = tokens_from(s, i, open);
        assert(all == seq![t] + rest);
        assert(is_piece_of(s, t));
        assert forall|n: int| 0 <= n < all.len() implies is_piece_of(s, #[trigger] all[n]) by {
            if n > 0 {
                assert(all[n] == rest[n - 1]);
            }
        }
    }
}

/// Token positions: every token the lexer yields is a piece of the source,
/// with its lexeme taken from the source and its start and end the
/// positions of the first character of the lexeme and of the character
/// after it.
pub proof fn lemma_tokens_are_pieces(s: Seq<char>)
    ensures
        forall|n: int| 0 <= n < spec_tokenise(s).len() ==> is_piece_of(s, #[trigger] spec_tokenise(s)[n]),
{
    lemma_tokens_from_pieces(s, 0, Seq::empty());
}

/// The views of a sequence of tokens.
pub open spec fn token_views(tokens: Seq<Token>) -> Seq<SpecToken> {
    tokens.map_values(|t: Token| t@)
}

/// A format string whose hole the lexer is reading.
pub struct OpenFormatString {
    pub(crate) delimiter: Vec<char>,
    pub(crate) depth: usize,
}

/// A copy of `v`.
fn copy_chars(v: &Vec<char>) -> (r: Vec<char>)
    ensures
        r@ == v@,
{
    let mut r: Vec<char> = Vec::new();
    let mut i: usize = 0;
    while i < v.len()
        invariant
            i <= v@.len(),
            r@ == v@.take(i as int),
        decreases v@.len() - i,
    {
        r.push(v[i]);
        i = i + 1;
        assert(r@ =~= v@.take(i as int));
    }
    assert(v@.take(i as int) =~= v@);
    r
}

pub(crate) open spec fn formats_view(v: Seq<OpenFormatString>) -> Seq<OpenFormat> {
    v.map_values(|f: OpenFormatString| OpenFormat { delimiter: f.delimiter@, depth: f.depth as nat })
}

pub struct Lexer {
    pub(crate) source: PeekableStream<char>,
    pub(crate) position: Position,
    pub(crate) token_start_index: usize,
    pub(crate) token_start_position: Position,
    pub(crate) open_formats: Vec<OpenFormatString>,
}

impl Lexer {
    /// The source text.
    pub(crate) open spec fn src(&self) -> Seq<char> {
        self.source.items()
    }

    /// The read index.
    pub(crate) open spec fn idx(&self) -> int {
        self.source.position() as int
    }

    /// The index at which the token being read started.
    pub(crate) open spec fn start_idx(&self) -> int {
        self.token_start_index as int
    }

    /// The format strings whose holes are being read, innermost last.
    pub(crate) open spec fn formats(&self) -> Seq<OpenFormat> {
        formats_view(self.open_formats@)
    }

    /// The read index lies within the text, and the position follows it.
    pub(crate) open spec fn wf(&self) -> bool {
        &&& formats_ok(self.formats())
        &&& forall|j: int|
            0 <= j < self.open_formats@.len() ==> (#[trigger] self.open_formats@[j]).depth
                <= self.source.position()
        &&& self.source.position() <= self.source.items().len() < usize::MAX
        &&& self.position == pos_at(self.source.items(), self.source.position() as int)
        &&& self.token_start_index <= self.source.position()
        &&& self.token_start_position == pos_at(
            self.source.items(),
            self.token_start_index as int,
        )
    }

    /// A token is being read from the read index on.
    pub(crate) open spec fn at_token_start(&self) -> bool {
        self.start_idx() == self.idx()
    }

    /// `other` reads the same text and keeps the start of the token being read.
    pub(crate) open spec fn same_token(&self, other: &Lexer) -> bool {
        &&& other.formats() == self.formats()
        &&& other.open_formats@ == self.open_formats@
        &&& other.src() == self.src()
        &&& other.start_idx() == self.start_idx()
    }

    /// How a reader of one kind of token leaves the lexer, given what the
    /// specification of that kind says of the text at the read index.
    pub(crate) open spec fn read_as(
        &self,
        after: &Lexer,
        r: Option<Token>,
        expected: Option<(int, SpecTokenValue)>,
    ) -> bool {
        &&& after.wf()
        &&& self.same_token(after)
        &&& match expected {
            None => r is None && after.idx() == self.idx(),
            Some((end, value)) => {
                &&& after.idx() == end
                &&& r matches Some(t) && t@ == make_token(self.src(), self.idx(), end, value)
            },
        }
    }

    /// Splits `source` into tokens.
    pub fn tokenise(source: Vec<char>) -> (tokens: Vec<Token>)
        requires
            source@.len() < usize::MAX,
        ensures
            token_views(tokens@) == spec_tokenise(source@),
    {
        let ghost s = source@;
        let mut lexer = Lexer::new(source);
        let mut tokens: Vec<Token> = Vec::new();
        proof {
            assert(lexer.formats() =~= Seq::<OpenFormat>::empty());
        }
        while lexer.source.has_next()
            invariant
                lexer.wf(),
                lexer.src() == s,
                0 <= lexer.idx() <= s.len(),
                token_views(tokens@) + tokens_from(s, lexer.idx(), lexer.formats()) == spec_tokenise(
                    s,
                ),
            decreases s.len() - lexer.idx(),
        {
            let ghost before = tokens@;
            let ghost i = lexer.idx();
            let ghost open = lexer.formats();
            proof {
                lemma_skip_whitespace(s, i);
                if skip_whitespace(s, i) < s.len() {
                    lemma_step(s, skip_whitespace(s, i), open);
                }
            }
            let next = lexer.tokenise_next();
            match next {
                Some(token) => {
                    tokens.push(token);
                    proof {
                        assert(token_views(tokens@) =~= token_views(before).push(token@));
                        assert(tokens_from(s, i, open) == seq![token@] + tokens_from(
                            s,
                            lexer.idx(),
                            lexer.formats(),
                        ));
                        assert(token_views(tokens@) + tokens_from(s, lexer.idx(), lexer.formats())
                            =~= token_views(before) + tokens_from(s, i, open));
                    }
                },
                None => {},
            }
        }
        proof {
            assert(tokens_from(s, lexer.idx(), lexer.formats()) =~= Seq::<SpecToken>::empty());
            assert(token_views(tokens@) + tokens_from(s, lexer.idx(), lexer.formats()) =~= token_views(
                tokens@,
            ));
        }
        tokens
    }

    fn new(source: Vec<char>) -> (lexer: Self)
        requires
            source@.len() < usize::MAX,
        ensures
            lexer.wf(),
            lexer.src() == source@,
            lexer.idx() == 0,
            lexer.open_formats@.len() == 0,
    {
        let lexer = Lexer {
            source: PeekableStream::new(source),
            position: Position { line: 1, column: 1 },
            token_start_index: 0,
            token_start_position: Position { line: 1, column: 1 },
            open_formats: Vec::new(),
        };
        assert(lexer.formats() =~= Seq::<OpenFormat>::empty());
        lexer
    }

    /// Skips whitespace, then reads the next token, if any remains.
    fn tokenise_next(&mut self) -> (r: Option<Token>)
        requires
            old(self).wf(),
        ensures
            final(self).wf(),
            final(self).src() == old(self).src(),
            ({
                let s = old(self).src();
                let k = skip_whitespace(s, old(self).idx());
                if k >= s.len() {
                    &&& r is None
                    &&& final(self).idx() == s.len()
                    &&& final(self).formats() == old(self).formats()
                } else {
                    let (start, end, value, next, after) = step(s, k, old(self).formats());
                    &&& final(self).idx() == next
                    &&& final(self).formats() == after
                    &&& r matches Some(t) && t@ == make_token(s, start, end, value)
                }
            }),
    {
        let ghost s = self.src();
        let ghost open = self.formats();
        proof {
            lemma_skip_whitespace(s, self.idx());
        }
        loop
            invariant
                self.wf(),
                self.src() == s,
                self.formats() == open,
                skip_whitespace(s, self.idx()) == skip_whitespace(s, old(self).idx()),
                old(self).idx() <= self.idx() <= skip_whitespace(s, old(self).idx()),
            ensures
                self.wf(),
                self.src() == s,
                self.formats() == open,
                self.idx() == skip_whitespace(s, old(self).idx()),
            decreases s.len() - self.idx(),
        {
            let next = self.source.peek_next();
            match next {
                Some(c) => {
                    if !is_whitespace(*c) {
                        break;
                    }
                },
                None => {
                    break;
                },
            }
            self.advance();
            proof {
                lemma_skip_whitespace(s, self.idx());
            }
        }
        if !self.source.has_next() {
            return None;
        }
        let ghost k = self.idx();
        proof {
            lemma_step(s, k, open);
        }
        let n = self.open_formats.len();
        let resume = n > 0 && self.open_formats[n - 1].depth == 0 && self.char_is(0, '}');
        proof {
            if n > 0 {
                assert(open.last() == open[n - 1]);
                assert(open[n - 1].depth == self.open_formats@[n - 1].depth);
                assert(open[n - 1].delimiter == self.open_formats@[n - 1].delimiter@);
            }
        }
        if resume {
            self.advance();
            self.token_start_index = self.source.get_index();
            self.token_start_position = self.position;
            let delimiter = copy_chars(&self.open_formats[n - 1].delimiter);
            proof {
                assert(formats_ok(open));
                assert(open[n - 1].delimiter.len() > 0);
            }
            let t = self.finish_segment(&delimiter, true);
            match &t.value {
                TokenValue::FormatStringMiddle(_) => {
                    self.advance();
                },
                _ => {
                    let ghost before = self.open_formats@;
                    self.open_formats.pop();
                    proof {
                        assert(self.open_formats@ =~= before.drop_last());
                        assert(self.formats() =~= open.drop_last());
                    }
                },
            }
            return Some(t);
        }
        self.token_start_index = self.source.get_index();
        self.token_start_position = self.position;
        proof {
            lemma_lex_token(s, k);
        }
        let token = match self.tokenise_comment() {
            Some(t) => Some(t),
            None => match self.tokenise_numeral() {
                Some(t) => Some(t),
                None => match self.tokenise_string() {
                    Some(t) => Some(t),
                    None => match self.tokenise_symbol() {
                        Some(t) => Some(t),
                        None => match self.tokenise_operator() {
                            Some(t) => Some(t),
                            None => self.tokenise_special_character(),
                        },
                    },
                },
            },
        };
        let t = match token {
            Some(t) => t,
            None => {
                let character = match self.source.peek_next() {
                    Some(c) => *c,
                    None => '\0',
                };
                self.advance();
                self.new_token(TokenValue::UnexpectedCharacter(character))
            },
        };
        match &t.value {
            TokenValue::FormatStringStart(_) => {
                proof {
                    lemma_start_from_string(s, k);
                    strings::lemma_lex_string(s, k);
                }
                let delimiter = self.quote_run(self.token_start_index);
                self.advance();
                let ghost before = self.open_formats@;
                self.open_formats.push(OpenFormatString { delimiter, depth: 0 });
                proof {
                    assert(self.formats() =~= open.push(OpenFormat { delimiter: delimiter_at(s, k), depth: 0 }));
                }
            },
            TokenValue::SpecialCharacter(SpecialCharacter::OpenCurlyBracket) => {
                if n > 0 {
                    let ghost before = self.open_formats@;
                    let f = self.open_formats.pop().unwrap();
                    self.open_formats.push(OpenFormatString { delimiter: f.delimiter, depth: f.depth + 1 });
                    proof {
                        assert(self.formats() =~= open.drop_last().push(
                            OpenFormat { delimiter: open.last().delimiter, depth: open.last().depth + 1 },
                        ));
                    }
                }
            },
            TokenValue::SpecialCharacter(SpecialCharacter::CloseCurlyBracket) => {
                if n > 0 {
                    let ghost before = self.open_formats@;
                    let f = self.open_formats.pop().unwrap();
                    self.open_formats.push(OpenFormatString { delimiter: f.delimiter, depth: f.depth - 1 });
                    proof {
                        assert(self.formats() =~= open.drop_last().push(
                            OpenFormat {
                                delimiter: open.last().delimiter,
                                depth: (open.last().depth - 1) as nat,
                            },
                        ));
                    }
                }
            },
            _ => {},
        }
        Some(t)
    }

    /// The run of quote characters at index `k`: the delimiter of a string that opens there.
    fn quote_run(&self, k: usize) -> (r: Vec<char>)
        requires
            self.wf(),
            k < self.src().len(),
        ensures
            r@ == delimiter_at(self.src(), k as int),
    {
        let ghost s = self.src();
        let chars = self.source.unwrap();
        let c = chars[k];
        let mut r: Vec<char> = Vec::new();
        let mut j = k;
        proof {
            strings::lemma_run_end(s, k as int, c);
        }
        while j < chars.len() && chars[j] == c
            invariant
                chars@ == s,
                k <= j <= strings::run_end(s, k as int, c),
                strings::run_end(s, j as int, c) == strings::run_end(s, k as int, c),
                r@ == s.subrange(k as int, j as int),
                c == s[k as int],
            decreases s.len() - j,
        {
            r.push(c);
            j = j + 1;
            proof {
                strings::lemma_run_end(s, j as int, c);
            }
            assert(r@ =~= s.subrange(k as int, j as int));
        }
        r
    }

    /// The token read since the token start, standing for `value`.
    fn new_token(&self, value: TokenValue) -> (t: Token)
        requires
            self.wf(),
        ensures
            t@ == make_token(self.src(), self.start_idx(), self.idx(), value@),
    {
        Token {
            value,
            lexeme: self.read_lexeme(),
            start: self.token_start_position,
            end: self.position,
        }
    }

    fn read_lexeme(&self) -> (r: String)
        requires
            self.wf(),
        ensures
            r@ == self.src().subrange(self.start_idx(), self.idx()),
    {
        self.read_string(self.token_start_index, self.source.get_index())
    }

    /// The text between two indices of the source.
    fn read_string(&self, start: usize, end: usize) -> (r: String)
        requires
            self.wf(),
            start <= end <= self.src().len(),
        ensures
            r@ == self.src().subrange(start as int, end as int),
    {
        string_from_range(self.source.unwrap(), start, end)
    }

    /// Whether the character `distance` places after the read index is `c`.
    fn char_is(&self, distance: usize, c: char) -> (b: bool)
        requires
            self.wf(),
        ensures
            b == (self.idx() + distance < self.src().len() && self.src()[self.idx() + distance] == c),
    {
        match self.source.peek(distance) {
            Some(d) => *d == c,
            None => false,
        }
    }

    /// Advances `n` characters, or to the end of the text if fewer remain.
    fn advance_by(&mut self, n: usize)
        requires
            old(self).wf(),
        ensures
            final(self).wf(),
            old(self).same_token(final(self)),
            final(self).idx() == if old(self).idx() + n <= old(self).src().len() {
                old(self).idx() + n
            } else {
                old(self).src().len() as int
            },
    {
        let mut i: usize = 0;
        while i < n
            invariant
                self.wf(),
                old(self).same_token(self),
                i <= n,
                self.idx() == if old(self).idx() + i <= old(self).src().len() {
                    old(self).idx() + i
                } else {
                    old(self).src().len() as int
                },
            decreases n - i,
        {
            self.advance();
            i = i + 1;
        }
    }

    /// Moves past the character at the read index, if there is one,
    /// and keeps the position in step.
    fn advance(&mut self)
        requires
            old(self).wf(),
        ensures
            final(self).wf(),
            old(self).same_token(final(self)),
            final(self).idx() == if old(self).idx() < old(self).src().len() {
                old(self).idx() + 1
            } else {
                old(self).idx()
            },
    {
        let ghost s = self.src();
        let ghost i = self.idx();
        proof {
            lemma_pos_at_bounds(s, i);
        }
        let consumed = self.source.consume();
        match consumed {
            Some(c) => {
                if *c == '\n' {
                    self.position.line = self.position.line + 1;
                    self.position.column = 1;
                } else {
                    self.position.column = self.position.column + 1;
                }
            },
            None => {},
        }
    }
}

} // verus!
