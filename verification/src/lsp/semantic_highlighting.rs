//! Semantic highlighting: which tokens the editor colours, and how, in the
//! relative encoding of the editor protocol.

use vstd::prelude::*;

use crate::common::{position_le, Operator, Position};
use crate::lexer::comments::lex_comment;
use crate::lexer::numerals::lex_numeral;
use crate::lexer::operators::lex_operator;
use crate::lexer::special_characters::lex_special_character;
use crate::lexer::strings::{lex_segment, lex_string};
use crate::lexer::symbols::{lex_symbol, special_symbol};
use crate::lexer::{
    laid_out, lemma_tokens_from_laid_out, pos_at, spec_tokenise, token_views, SpecToken,
    SpecTokenValue, Token, TokenValue,
};
use crate::text::{chars_of, line_widths, text_lines, utf8_len, utf8_length};

verus! {

/// The kinds of token that the editor colours. Their order is the order of
/// the legend.
#[derive(Debug, Clone, Copy, PartialEq, Eq, Structural)]
pub enum TokenType {
    Parameter,
    Variable,
    Property,
    Function,
    Keyword,
    Comment,
    String,
    Number,
    Operator,
}

/// The modifiers that the legend offers.
#[derive(Debug, Clone, Copy, PartialEq, Eq, Structural)]
pub enum TokenModifier {
    Readonly,
}

/// The number of a token type: its place in the legend.
pub open spec fn token_type_number(t: TokenType) -> u32 {
    match t {
        TokenType::Parameter => 0,
        TokenType::Variable => 1,
        TokenType::Property => 2,
        TokenType::Function => 3,
        TokenType::Keyword => 4,
        TokenType::Comment => 5,
        TokenType::String => 6,
        TokenType::Number => 7,
        TokenType::Operator => 8,
    }
}

impl TokenType {
    /// The number of this type: its place in the legend.
    pub fn number(self) -> (n: u32)
        ensures
            n == token_type_number(self),
    {
        match self {
            TokenType::Parameter => 0,
            TokenType::Variable => 1,
            TokenType::Property => 2,
            TokenType::Function => 3,
            TokenType::Keyword => 4,
            TokenType::Comment => 5,
            TokenType::String => 6,
            TokenType::Number => 7,
            TokenType::Operator => 8,
        }
    }
}

/// The token types and modifiers, in the order in which the editor numbers them.
pub struct Legend {
    pub token_types: Vec<TokenType>,
    pub token_modifiers: Vec<TokenModifier>,
}

/// The legend: every token type at the place of its number, and the one modifier.
pub fn get_legend() -> (legend: Legend)
    ensures
        legend.token_types@ == seq![
            TokenType::Parameter,
            TokenType::Variable,
            TokenType::Property,
            TokenType::Function,
            TokenType::Keyword,
            TokenType::Comment,
            TokenType::String,
            TokenType::Number,
            TokenType::Operator,
        ],
        forall|t: TokenType| legend.token_types@[#[trigger] token_type_number(t) as int] == t,
        legend.token_modifiers@ == seq![TokenModifier::Readonly],
{
    let token_types = vec![
        TokenType::Parameter,
        TokenType::Variable,
        TokenType::Property,
        TokenType::Function,
        TokenType::Keyword,
        TokenType::Comment,
        TokenType::String,
        TokenType::Number,
        TokenType::Operator,
    ];
    let token_modifiers = vec![TokenModifier::Readonly];
    Legend { token_types, token_modifiers }
}

/// How the editor colours a token with value `v`: literals by their kind,
/// `nil`, `true`, `false` and the word operators `not`, `and`, `or` as
/// keywords; special characters and unexpected characters not at all.
pub open spec fn spec_token_type(v: SpecTokenValue) -> Option<TokenType> {
    match v {
        SpecTokenValue::Nil => Some(TokenType::Keyword),
        SpecTokenValue::Bool(_) => Some(TokenType::Keyword),
        SpecTokenValue::Int(_) => Some(TokenType::Number),
        SpecTokenValue::Double(_) => Some(TokenType::Number),
        SpecTokenValue::String(_) => Some(TokenType::String),
        SpecTokenValue::FormatStringStart(_) => Some(TokenType::String),
        SpecTokenValue::FormatStringMiddle(_) => Some(TokenType::String),
        SpecTokenValue::FormatStringEnd(_) => Some(TokenType::String),
        SpecTokenValue::Symbol(_) => Some(TokenType::Variable),
        SpecTokenValue::Keyword(_) => Some(TokenType::Keyword),
        SpecTokenValue::Operator(op) => match op {
            Operator::Not | Operator::And | Operator::Or => Some(TokenType::Keyword),
            _ => Some(TokenType::Operator),
        },
        SpecTokenValue::SpecialCharacter(_) => None,
        SpecTokenValue::Comment(_) => Some(TokenType::Comment),
        SpecTokenValue::UnexpectedCharacter(_) => None,
        SpecTokenValue::MalformedNumber(_) => Some(TokenType::Number),
        SpecTokenValue::MalformedString(_) => Some(TokenType::String),
    }
}

/// Reserved words are coloured as keywords: every word that the lexer
/// reserves (the keywords, `true`, `false`, `nil`, and the word operators
/// `not`, `and` and `or`) has the keyword colour; an operator written with
/// symbols has the operator colour.
pub proof fn lemma_reserved_words_are_keywords(w: Seq<char>, s: Seq<char>, k: int)
    ensures
        special_symbol(w) is Some ==> spec_token_type(special_symbol(w)->0) == Some(TokenType::Keyword),
        lex_operator(s, k) is Some ==> spec_token_type((lex_operator(s, k)->0).1) == Some(TokenType::Operator),
{
}

/// Colours follow what was read: a number (well formed or not) is coloured
/// as a number, a string or a piece of a format string as a string, a
/// comment as a comment, a word as a keyword when it is reserved and as a
/// variable otherwise, and a bracket or other punctuation not at all.
pub proof fn lemma_colours_follow_the_reader(s: Seq<char>, k: int, d: Seq<char>, resumed: bool)
    ensures
        lex_numeral(s, k) is Some ==> spec_token_type((lex_numeral(s, k)->0).1) == Some(TokenType::Number),
        lex_string(s, k) is Some ==> spec_token_type((lex_string(s, k)->0).1) == Some(TokenType::String),
        spec_token_type(lex_segment(s, k, d, resumed).1) == Some(TokenType::String),
        lex_comment(s, k) is Some ==> spec_token_type((lex_comment(s, k)->0).1) == Some(TokenType::Comment),
        lex_symbol(s, k) is Some ==> spec_token_type((lex_symbol(s, k)->0).1) == if special_symbol(
            s.subrange(k, (lex_symbol(s, k)->0).0),
        ) is Some {
            Some(TokenType::Keyword)
        } else {
            Some(TokenType::Variable)
        },
        lex_special_character(s, k) is Some ==> spec_token_type((lex_special_character(s, k)->0).1) is None,
{
}

/// How the editor colours `token`, if at all.
pub fn get_token_type(token: &Token) -> (r: Option<TokenType>)
    ensures
        r == spec_token_type(token.value@),
{
    match &token.value {
        TokenValue::Nil => Some(TokenType::Keyword),
        TokenValue::Bool(_) => Some(TokenType::Keyword),
        TokenValue::Int(_) => Some(TokenType::Number),
        TokenValue::Double(_) => Some(TokenType::Number),
        TokenValue::String(_) => Some(TokenType::String),
        TokenValue::FormatStringStart(_) => Some(TokenType::String),
        TokenValue::FormatStringMiddle(_) => Some(TokenType::String),
        TokenValue::FormatStringEnd(_) => Some(TokenType::String),
        TokenValue::Symbol(_) => Some(TokenType::Variable),
        TokenValue::Keyword(_) => Some(TokenType::Keyword),
        TokenValue::Operator(op) => match op {
            Operator::Not | Operator::And | Operator::Or => Some(TokenType::Keyword),
            _ => Some(TokenType::Operator),
        },
        TokenValue::SpecialCharacter(_) => None,
        TokenValue::Comment(_) => Some(TokenType::Comment),
        TokenValue::UnexpectedCharacter(_) => None,
        TokenValue::MalformedNumber(_) => Some(TokenType::Number),
        TokenValue::MalformedString(_) => Some(TokenType::String),
    }
}

/// A semantic token as the editor protocol encodes it: its line relative to
/// the line of the token before, its column relative to that token's column
/// when both stand on one line (else relative to the start of the line), its
/// length in UTF-8 bytes, its type and its modifiers.
#[derive(Debug, Clone, Copy, PartialEq, Eq, Structural)]
pub struct SemanticToken {
    pub delta_line: u32,
    pub delta_start: u32,
    pub length: u32,
    pub token_type: u32,
    pub token_modifiers_bitset: u32,
}

/// The position from which a token at `start` counts its column, given the
/// position `previous` the token before left: `previous` itself when both
/// stand on one line, else the start of the token's line.
pub open spec fn column_base(start: Position, previous: Position) -> Position {
    if start.line != previous.line {
        Position { line: start.line, column: 1 }
    } else {
        previous
    }
}

/// Whether a token can be encoded after a token that left `previous`: a
/// coloured token does not start on an earlier line, nor before the column
/// it counts from, and one that spans lines ends on a later line than it
/// starts (and no more than `usize::MAX - 1` lines later).
pub open spec fn token_fits(t: SpecToken, previous: Position) -> bool {
    spec_token_type(t.value) is Some ==> {
        &&& t.start.line >= previous.line
        &&& t.start.column >= column_base(t.start, previous).column
        &&& t.start.line != t.end.line ==> t.start.line < t.end.line && t.end.line - t.start.line
            < usize::MAX
    }
}

/// One semantic token for each of `lines`: the first at the given deltas,
/// each of the others at the start of the next line.
pub open spec fn line_tokens(
    lines: Seq<Seq<char>>,
    delta_line: u32,
    delta_start: u32,
    token_type: u32,
) -> Seq<SemanticToken> {
    Seq::new(
        lines.len(),
        |k: int|
            SemanticToken {
                delta_line: if k == 0 {
                    delta_line
                } else {
                    1
                },
                delta_start: if k == 0 {
                    delta_start
                } else {
                    0
                },
                length: utf8_len(lines[k]) as u32,
                token_type,
                token_modifiers_bitset: 0,
            },
    )
}

/// The semantic tokens of `t`, after a token that left `previous`: none for
/// a token that is not coloured; one for a token on one line; one for each
/// line of a token that spans lines.
pub open spec fn token_encoding(t: SpecToken, previous: Position) -> Seq<SemanticToken> {
    match spec_token_type(t.value) {
        None => Seq::empty(),
        Some(tt) => {
            let delta_line = if t.start.line != previous.line {
                (t.start.line - previous.line) as u32
            } else {
                0u32
            };
            let delta_start = (t.start.column - column_base(t.start, previous).column) as u32;
            if t.start.line == t.end.line {
                seq![
                    SemanticToken {
                        delta_line,
                        delta_start,
                        length: utf8_len(t.lexeme) as u32,
                        token_type: token_type_number(tt),
                        token_modifiers_bitset: 0,
                    },
                ]
            } else {
                line_tokens(text_lines(t.lexeme), delta_line, delta_start, token_type_number(tt))
            }
        },
    }
}

/// The position that `t` leaves for the next token: unchanged by a token
/// that is not coloured; the start of a token on one line; the start of the
/// last line of a token that spans lines.
pub open spec fn position_after(t: SpecToken, previous: Position) -> Position {
    if spec_token_type(t.value) is None {
        previous
    } else if t.start.line == t.end.line {
        t.start
    } else {
        Position { line: t.end.line, column: 1 }
    }
}

/// Whether every token of `tokens` can be encoded, the first after a token
/// that left `previous`.
pub open spec fn encodable(tokens: Seq<SpecToken>, previous: Position) -> bool
    decreases tokens.len(),
{
    tokens.len() > 0 ==> {
        &&& token_fits(tokens[0], previous)
        &&& encodable(tokens.drop_first(), position_after(tokens[0], previous))
    }
}

/// The semantic tokens of `tokens`, the first after a token that left `previous`.
pub open spec fn encoding(tokens: Seq<SpecToken>, previous: Position) -> Seq<SemanticToken>
    decreases tokens.len(),
{
    if tokens.len() == 0 {
        Seq::empty()
    } else {
        token_encoding(tokens[0], previous) + encoding(
            tokens.drop_first(),
            position_after(tokens[0], previous),
        )
    }
}

/// The position before the first token of a text.
pub open spec fn text_start() -> Position {
    Position { line: 1, column: 1 }
}

/// Tokens that lie in order can be encoded.
pub proof fn lemma_laid_out_encodable(tokens: Seq<SpecToken>, previous: Position)
    requires
        laid_out(tokens, previous),
    ensures
        encodable(tokens, previous),
    decreases tokens.len(),
{
    if tokens.len() > 0 {
        let t = tokens[0];
        let rest = tokens.drop_first();
        let next = position_after(t, previous);
        assert forall|i: int| 0 <= i < rest.len() implies position_le(next, #[trigger] rest[i].start) by {
            assert(rest[i] == tokens[i + 1]);
            assert(position_le(tokens[0].end, tokens[i + 1].start));
        }
        assert forall|i: int, j: int|
            0 <= i < j < rest.len() implies position_le(#[trigger] rest[i].end, #[trigger] rest[j].start) by {
            assert(rest[i] == tokens[i + 1]);
            assert(rest[j] == tokens[j + 1]);
        }
        assert forall|i: int| 0 <= i < rest.len() implies {
            &&& position_le(#[trigger] rest[i].start, rest[i].end)
            &&& rest[i].start.line >= 1
            &&& rest[i].start.column >= 1
            &&& rest[i].end.column >= 1
        } by {
            assert(rest[i] == tokens[i + 1]);
        }
        lemma_laid_out_encodable(rest, next);
    }
}

/// The tokens of any text can be encoded, and so can any selection of them.
pub proof fn lemma_text_tokens_encodable(text: Seq<char>, keep: spec_fn(SpecToken) -> bool)
    requires
        text.len() < usize::MAX,
    ensures
        encodable(spec_tokenise(text), text_start()),
        encodable(spec_tokenise(text).filter(keep), text_start()),
{
    lemma_tokens_from_laid_out(text, 0, Seq::empty());
    assert(pos_at(text, 0) == text_start());
    lemma_laid_out_encodable(spec_tokenise(text), text_start());
    lemma_laid_out_filter(spec_tokenise(text), text_start(), keep);
    lemma_laid_out_encodable(spec_tokenise(text).filter(keep), text_start());
}

/// Any selection of tokens that lie in order lies in order.
pub proof fn lemma_laid_out_filter(
    tokens: Seq<SpecToken>,
    previous: Position,
    keep: spec_fn(SpecToken) -> bool,
)
    requires
        laid_out(tokens, previous),
    ensures
        laid_out(tokens.filter(keep), previous),
    decreases tokens.len(),
{
    reveal(Seq::filter);
    if tokens.len() > 0 {
        let front = tokens.drop_last();
        assert forall|i: int, j: int|
            0 <= i < j < front.len() implies position_le(#[trigger] front[i].end, #[trigger] front[j].start) by {
            assert(front[i] == tokens[i]);
            assert(front[j] == tokens[j]);
        }
        lemma_laid_out_filter(front, previous, keep);
        let kept = front.filter(keep);
        if keep(tokens.last()) {
            let all = kept.push(tokens.last());
            assert(tokens.filter(keep) == all);
            assert forall|i: int| 0 <= i < kept.len() implies position_le(
                #[trigger] kept[i].end,
                tokens.last().start,
            ) by {
                assert(kept.contains(kept[i]));
                front.lemma_filter_contains_rev(keep, kept[i]);
                let k = choose|k: int| 0 <= k < front.len() && front[k] == kept[i];
                assert(position_le(tokens[k].end, tokens[tokens.len() - 1].start));
            }
            assert forall|i: int, j: int|
                0 <= i < j < all.len() implies position_le(#[trigger] all[i].end, #[trigger] all[j].start) by {
                assert(all[i] == kept[i]);
                if j < kept.len() {
                    assert(all[j] == kept[j]);
                }
            }
            assert forall|i: int| 0 <= i < all.len() implies position_le(previous, #[trigger] all[i].start) by {
                if i < kept.len() {
                    assert(all[i] == kept[i]);
                }
            }
            assert forall|i: int| 0 <= i < all.len() implies {
                &&& position_le(#[trigger] all[i].start, all[i].end)
                &&& all[i].start.line >= 1
                &&& all[i].start.column >= 1
                &&& all[i].end.column >= 1
            } by {
                if i < kept.len() {
                    assert(all[i] == kept[i]);
                }
            }
        }
    }
}

/// Where an editor places semantic tokens when it reads their relative
/// encoding from line `line` and character `character` (both from 0): each
/// token moves down `delta_line` lines, and then right `delta_start`
/// characters, from the start of its line when it moved down, else from the
/// token before.
pub open spec fn decode(ts: Seq<SemanticToken>, line: int, character: int) -> Seq<(int, int)>
    decreases ts.len(),
{
    if ts.len() == 0 {
        Seq::empty()
    } else {
        let l = line + ts[0].delta_line;
        let c = (if ts[0].delta_line > 0 {
            0
        } else {
            character
        }) + ts[0].delta_start;
        seq![(l, c)] + decode(ts.drop_first(), l, c)
    }
}

/// The starts of the coloured tokens of `tokens`, as lines and characters from 0.
pub open spec fn coloured_starts(tokens: Seq<SpecToken>) -> Seq<(int, int)>
    decreases tokens.len(),
{
    if tokens.len() == 0 {
        Seq::empty()
    } else {
        let rest = coloured_starts(tokens.drop_first());
        if spec_token_type(tokens[0].value) is Some {
            seq![(tokens[0].start.line - 1, tokens[0].start.column - 1)] + rest
        } else {
            rest
        }
    }
}

/// Tokens each on one line, starting at a column of at least 1 and at a line
/// and a column that 32 bits hold.
pub open spec fn on_single_lines(tokens: Seq<SpecToken>) -> bool {
    forall|i: int|
        0 <= i < tokens.len() ==> {
            &&& (#[trigger] tokens[i]).start.line == tokens[i].end.line
            &&& tokens[i].start.column >= 1
            &&& tokens[i].start.line <= u32::MAX
            &&& tokens[i].start.column <= u32::MAX
        }
}

/// Tokens ordered by their starts, none starting before `previous`.
pub open spec fn starts_in_order(tokens: Seq<SpecToken>, previous: Position) -> bool {
    &&& forall|i: int| 0 <= i < tokens.len() ==> position_le(previous, #[trigger] tokens[i].start)
    &&& forall|i: int, j: int|
        0 <= i < j < tokens.len() ==> position_le(#[trigger] tokens[i].start, #[trigger] tokens[j].start)
}

/// Reading the encoding of tokens ordered by their starts, each on one line,
/// places every coloured token at its start; such tokens can always be
/// encoded.
pub proof fn lemma_decode_encoding(tokens: Seq<SpecToken>, previous: Position)
    requires
        starts_in_order(tokens, previous),
        on_single_lines(tokens),
        previous.line >= 1,
        previous.column >= 1,
        previous.line <= u32::MAX,
    ensures
        encodable(tokens, previous),
        decode(encoding(tokens, previous), previous.line - 1, previous.column - 1) == coloured_starts(
            tokens,
        ),
    decreases tokens.len(),
{
    if tokens.len() > 0 {
        let t = tokens[0];
        let rest = tokens.drop_first();
        let next = position_after(t, previous);
        assert(position_le(previous, t.start));
        assert(t.start.line == t.end.line);
        assert(t.start.column >= 1);
        assert forall|i: int| 0 <= i < rest.len() implies position_le(next, #[trigger] rest[i].start) by {
            assert(rest[i] == tokens[i + 1]);
            assert(position_le(tokens[0].start, tokens[i + 1].start));
        }
        assert forall|i: int, j: int|
            0 <= i < j < rest.len() implies position_le(#[trigger] rest[i].start, #[trigger] rest[j].start) by {
            assert(rest[i] == tokens[i + 1]);
            assert(rest[j] == tokens[j + 1]);
        }
        assert forall|i: int| 0 <= i < rest.len() implies {
            &&& (#[trigger] rest[i]).start.line == rest[i].end.line
            &&& rest[i].start.column >= 1
            &&& rest[i].start.line <= u32::MAX
            &&& rest[i].start.column <= u32::MAX
        } by {
            assert(rest[i] == tokens[i + 1]);
        }
        lemma_decode_encoding(rest, next);
        let tail = encoding(rest, next);
        let head = token_encoding(t, previous);
        assert(encoding(tokens, previous) == head + tail);
        if spec_token_type(t.value) is Some {
            assert(head.len() == 1);
            assert((head + tail).drop_first() =~= tail);
            assert((head + tail)[0] == head[0]);
        } else {
            assert(head + tail =~= tail);
        }
    }
}

/// The semantic tokens of `tokens`, in the relative encoding of the editor protocol.
pub fn convert_to_lsp_tokens(tokens: &[Token]) -> (r: Vec<SemanticToken>)
    requires
        encodable(token_views(tokens@), text_start()),
    ensures
        r@ == encoding(token_views(tokens@), text_start()),
{
    let ghost all = token_views(tokens@);
    let mut previous = Position { line: 1, column: 1 };
    let mut r: Vec<SemanticToken> = Vec::new();
    let mut i: usize = 0;
    proof {
        assert(all.skip(0) =~= all);
    }
    while i < tokens.len()
        invariant
            all == token_views(tokens@),
            i <= tokens@.len(),
            encodable(all.skip(i as int), previous),
            encoding(all, text_start()) == r@ + encoding(all.skip(i as int), previous),
        decreases tokens@.len() - i,
    {
        let token = &tokens[i];
        let ghost rest = all.skip(i as int);
        proof {
            assert(rest[0] == token@);
            assert(rest.drop_first() =~= all.skip(i + 1));
        }
        let ghost before = r@;
        let ghost prev0 = previous;
        match get_token_type(token) {
            None => {},
            Some(token_type) => {
                let token_type = token_type.number();
                let delta_line: u32 = if token.start.line != previous.line {
                    let d = token.start.line - previous.line;
                    previous = Position { line: token.start.line, column: 1 };
                    #[verifier::truncate]
                    (d as u32)
                } else {
                    0
                };
                let delta_start = #[verifier::truncate]
                ((token.start.column - previous.column) as u32);
                let lexeme = chars_of(token.lexeme.as_str());
                if token.start.line == token.end.line {
                    previous = token.start;
                    r.push(
                        SemanticToken {
                            delta_line,
                            delta_start,
                            length: #[verifier::truncate]
                            (utf8_length(&lexeme) as u32),
                            token_type,
                            token_modifiers_bitset: 0,
                        },
                    );
                    proof {
                        assert(r@ =~= before + token_encoding(token@, prev0));
                    }
                } else {
                    let widths = line_widths(&lexeme);
                    let ghost lines = text_lines(lexeme@);
                    let mut k: usize = 0;
                    while k < widths.len()
                        invariant
                            k <= widths@.len(),
                            widths@.len() == lines.len(),
                            forall|j: int|
                                0 <= j < widths@.len() ==> widths@[j] == (utf8_len(
                                    #[trigger] lines[j],
                                ) as u32),
                            r@ == before + line_tokens(lines, delta_line, delta_start, token_type).take(
                                k as int,
                            ),
                        decreases widths@.len() - k,
                    {
                        let ghost r0 = r@;
                        r.push(
                            SemanticToken {
                                delta_line: if k == 0 {
                                    delta_line
                                } else {
                                    1
                                },
                                delta_start: if k == 0 {
                                    delta_start
                                } else {
                                    0
                                },
                                length: widths[k],
                                token_type,
                                token_modifiers_bitset: 0,
                            },
                        );
                        proof {
                            assert(line_tokens(lines, delta_line, delta_start, token_type).take(k + 1)
                                =~= line_tokens(lines, delta_line, delta_start, token_type).take(
                                k as int,
                            ).push(r@.last()));
                            assert(r@ =~= r0.push(r@.last()));
                        }
                        k = k + 1;
                    }
                    previous = Position { line: token.end.line, column: 1 };
                    proof {
                        assert(line_tokens(lines, delta_line, delta_start, token_type).take(k as int)
                            =~= line_tokens(lines, delta_line, delta_start, token_type));
                        assert(r@ =~= before + token_encoding(token@, prev0));
                    }
                }
            },
        }
        proof {
            assert(previous == position_after(token@, prev0));
            assert(encoding(rest, prev0) == token_encoding(token@, prev0) + encoding(
                all.skip(i + 1),
                previous,
            ));
            assert(r@ + encoding(all.skip(i + 1), previous) =~= before + encoding(rest, prev0));
        }
        i = i + 1;
    }
    r
}

} // verus!
