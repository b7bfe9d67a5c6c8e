//! A document open in the editor: its tokens and its diagnostics, kept up to
//! date as the editor sends the new text.

use vstd::prelude::*;

use crate::common::position_le;
use crate::lexer::{
    laid_out, lemma_tokens_from_laid_out, lemma_tokens_from_len, pos_at, spec_tokenise, token_views,
    Lexer, SpecToken, Token,
};
use crate::lsp::LspRange;
use crate::lsp::diagnostics::{
    diagnostic_of, diagnostic_views, Diagnostic, DiagnosticView, DiagnosticsBuilder,
};
use crate::lsp::semantic_highlighting::{
    convert_to_lsp_tokens, encoding, lemma_laid_out_encodable, lemma_laid_out_filter, text_start,
    SemanticToken,
};
use crate::parser::{MAX_TOKENS, Parser};
use crate::parser::errors::{position_ok, stmts_errors, tokens_placed, ErrorSpan};
use crate::parser::grammar::spec_parse;
use crate::text::chars_of;

verus! {

/// The diagnostics of a text: those of the syntax errors of its tree.
pub open spec fn text_diagnostics(text: Seq<char>) -> Seq<DiagnosticView> {
    stmts_errors(spec_parse(spec_tokenise(text))).map_values(|e: ErrorSpan| diagnostic_of(e))
}

/// Whether a token overlaps `range`, whose lines and characters count from 0
/// where those of a token count from 1.
pub open spec fn in_range(t: SpecToken, range: LspRange) -> bool {
    let start_line = range.start.line + 1;
    let start_column = range.start.character + 1;
    let end_line = range.end.line + 1;
    let end_column = range.end.character + 1;
    &&& t.end.line >= start_line
    &&& t.start.line <= end_line
    &&& (t.end.line > start_line || t.end.column >= start_column)
    &&& (t.start.line < end_line || t.start.column <= end_column)
}

/// Whether line `l1`, column `c1` comes no later than line `l2`, column `c2`.
pub open spec fn at_or_before(l1: int, c1: int, l2: int, c2: int) -> bool {
    l1 < l2 || (l1 == l2 && c1 <= c2)
}

/// Range selection: a token is selected for a range exactly when their spans
/// overlap, the token ending no earlier than the range starts and starting
/// no later than the range ends (lines and characters of the range count
/// from 0, those of a token from 1). So a token that starts on a line before
/// the range and runs into it is selected, and so is one that starts inside
/// the range and runs past it.
pub proof fn lemma_in_range_is_overlap(t: SpecToken, range: LspRange)
    ensures
        in_range(t, range) <==> at_or_before(
            range.start.line + 1,
            range.start.character + 1,
            t.end.line as int,
            t.end.column as int,
        ) && at_or_before(
            t.start.line as int,
            t.start.column as int,
            range.end.line + 1,
            range.end.character + 1,
        ),
{
}

/// Whether a text can be held: its length fits the lexer and the parser.
pub open spec fn text_fits(text: Seq<char>) -> bool {
    text.len() < usize::MAX && text.len() <= MAX_TOKENS
}

/// A change of a document as the editor sends it: new text for a range, or
/// for the whole document when there is no range.
pub struct ContentChange {
    pub range: Option<LspRange>,
    pub text: String,
}

/// A document: the tokens of its text and the diagnostics of its syntax errors.
pub struct Document {
    tokens: Vec<Token>,
    diagnostics: Vec<Diagnostic>,
}

/// Tokens that lie in order have their places in the text.
proof fn lemma_laid_out_placed(tokens: Seq<SpecToken>, previous: crate::common::Position)
    requires
        laid_out(tokens, previous),
    ensures
        tokens_placed(tokens),
{
    assert forall|i: int| 0 <= i < tokens.len() implies position_ok(#[trigger] tokens[i].start)
        && position_ok(tokens[i].end) by {
        assert(position_le(tokens[i].start, tokens[i].end));
    }
}

/// The tokens and the diagnostics of `text`.
fn analyse(text: &str) -> (r: (Vec<Token>, Vec<Diagnostic>))
    requires
        text_fits(text@),
    ensures
        token_views(r.0@) == spec_tokenise(text@),
        diagnostic_views(r.1@) == text_diagnostics(text@),
        laid_out(token_views(r.0@), text_start()),
{
    let chars = chars_of(text);
    proof {
        lemma_tokens_from_len(chars@, 0, Seq::empty());
        lemma_tokens_from_laid_out(chars@, 0, Seq::empty());
        assert(pos_at(chars@, 0) == text_start());
    }
    let tokens = Lexer::tokenise(chars);
    let copy = copy_tokens(&tokens);
    proof {
        lemma_laid_out_placed(token_views(tokens@), text_start());
    }
    let ast = Parser::parse(copy);
    let builder = DiagnosticsBuilder::new();
    proof {
        assert(builder.errors() + stmts_errors(crate::parser::nodes::stmt_nodes_view(ast@))
            =~= stmts_errors(crate::parser::nodes::stmt_nodes_view(ast@)));
    }
    let diagnostics = builder.build(&ast);
    (tokens, diagnostics)
}

/// A copy of `tokens`.
fn copy_tokens(tokens: &Vec<Token>) -> (r: Vec<Token>)
    ensures
        r@ == tokens@,
{
    let mut r: Vec<Token> = Vec::new();
    let mut i: usize = 0;
    while i < tokens.len()
        invariant
            i <= tokens@.len(),
            r@ == tokens@.take(i as int),
        decreases tokens@.len() - i,
    {
        r.push(tokens[i].clone());
        i = i + 1;
        assert(r@ =~= tokens@.take(i as int));
    }
    assert(tokens@.take(i as int) =~= tokens@);
    r
}

impl Document {
    #[verifier::type_invariant]
    spec fn tokens_in_order(self) -> bool {
        laid_out(token_views(self.tokens@), text_start())
    }

    /// The tokens of the document.
    pub closed spec fn token_list(&self) -> Seq<SpecToken> {
        token_views(self.tokens@)
    }

    /// The diagnostics of the document.
    pub closed spec fn diagnostic_list(&self) -> Seq<DiagnosticView> {
        diagnostic_views(self.diagnostics@)
    }

    /// The document of the text `content`.
    pub fn new(content: String) -> (d: Self)
        requires
            text_fits(content@),
        ensures
            d.token_list() == spec_tokenise(content@),
            d.diagnostic_list() == text_diagnostics(content@),
    {
        let (tokens, diagnostics) = analyse(content.as_str());
        Document { tokens, diagnostics }
    }

    /// Takes the new text of the whole document, when the editor sends one
    /// change without a range; keeps the document as it is otherwise.
    pub fn apply_change(&mut self, changes: Vec<ContentChange>)
        requires
            changes@.len() == 1 && changes@[0].range is None ==> text_fits(changes@[0].text@),
        ensures
            if changes@.len() == 1 && changes@[0].range is None {
                &&& final(self).token_list() == spec_tokenise(changes@[0].text@)
                &&& final(self).diagnostic_list() == text_diagnostics(changes@[0].text@)
            } else {
                &&& final(self).token_list() == old(self).token_list()
                &&& final(self).diagnostic_list() == old(self).diagnostic_list()
            },
    {
        if changes.len() != 1 {
            return;
        }
        let change = &changes[0];
        if change.range.is_some() {
            return;
        }
        let (tokens, diagnostics) = analyse(change.text.as_str());
        self.tokens = tokens;
        self.diagnostics = diagnostics;
    }

    /// The diagnostics of the document.
    pub fn diagnostics(&self) -> (r: &Vec<Diagnostic>)
        ensures
            diagnostic_views(r@) == self.diagnostic_list(),
    {
        &self.diagnostics
    }

    /// The semantic tokens of the whole document.
    pub fn get_tokens_full(&self) -> (r: Vec<SemanticToken>)
        ensures
            r@ == encoding(self.token_list(), text_start()),
    {
        proof {
            use_type_invariant(self);
            lemma_laid_out_encodable(token_views(self.tokens@), text_start());
        }
        convert_to_lsp_tokens(self.tokens.as_slice())
    }

    /// The semantic tokens of the tokens of the document that overlap `range`.
    pub fn get_tokens_range(&self, range: LspRange) -> (r: Vec<SemanticToken>)
        ensures
            r@ == encoding(self.token_list().filter(|t: SpecToken| in_range(t, range)), text_start()),
    {
        proof {
            use_type_invariant(self);
        }
        let selected = tokens_in_range(&self.tokens, range);
        proof {
            lemma_laid_out_filter(
                token_views(self.tokens@),
                text_start(),
                |t: SpecToken| in_range(t, range),
            );
            lemma_laid_out_encodable(token_views(selected@), text_start());
        }
        convert_to_lsp_tokens(selected.as_slice())
    }
}

/// Whether `token` overlaps `range`.
fn token_in_range(token: &Token, range: LspRange) -> (b: bool)
    ensures
        b == in_range(token@, range),
{
    let start_line = range.start.line as u64 + 1;
    let start_column = range.start.character as u64 + 1;
    let end_line = range.end.line as u64 + 1;
    let end_column = range.end.character as u64 + 1;
    let token_start_line = token.start.line as u64;
    let token_start_column = token.start.column as u64;
    let token_end_line = token.end.line as u64;
    let token_end_column = token.end.column as u64;
    token_end_line >= start_line && token_start_line <= end_line && (token_end_line > start_line
        || token_end_column >= start_column) && (token_start_line < end_line || token_start_column
        <= end_column)
}

/// Copies of the tokens that overlap `range`, in order.
fn tokens_in_range(tokens: &Vec<Token>, range: LspRange) -> (r: Vec<Token>)
    ensures
        token_views(r@) == token_views(tokens@).filter(|t: SpecToken| in_range(t, range)),
{
    let ghost keep = |t: SpecToken| in_range(t, range);
    let ghost all = token_views(tokens@);
    let mut r: Vec<Token> = Vec::new();
    let mut i: usize = 0;
    while i < tokens.len()
        invariant
            all == token_views(tokens@),
            keep == (|t: SpecToken| in_range(t, range)),
            i <= tokens@.len(),
            token_views(r@) == all.take(i as int).filter(keep),
        decreases tokens@.len() - i,
    {
        let ghost before = r@;
        proof {
            reveal(Seq::filter);
            assert(all.take(i + 1).drop_last() =~= all.take(i as int));
            assert(all.take(i + 1).last() == tokens@[i as int]@);
        }
        if token_in_range(&tokens[i], range) {
            r.push(tokens[i].clone());
            proof {
                assert(token_views(r@) =~= token_views(before).push(tokens@[i as int]@));
            }
        }
        i = i + 1;
    }
    proof {
        assert(all.take(i as int) =~= all);
    }
    r
}

} // verus!
