//! The parser: turns tokens into a syntax tree. It never fails: what it
//! cannot read becomes a syntax error node, and it reads on after it.

use vstd::prelude::*;
use vstd::string::StringExecFns;

use errors::{
    exprs_errors, lvalues_errors, position_ok, spans_ok, stmt_errors, stmts_errors, tokens_placed,
};
use grammar::{
    after_consume, block_continues, end_at, next_is, rem, sp_block, sp_expression_list,
    sp_lvalue_list, sp_statement, spec_parse, start_at, tok, without_comments, BlockStop,
};
use nodes::{
    expr_node_view, expr_nodes_view, lemma_expr_nodes_push, lemma_lvalue_nodes_push,
    lemma_stmt_nodes_push, lvalue_node_view, lvalue_nodes_view, snode, stmt_node_view,
    stmt_nodes_view, ExpressionNode, LValueNode, SStatement, Statement, StatementNode,
};

use crate::common::{Keyword, Position, SpecialCharacter};
use crate::lexer::{
    lemma_tokens_from_len, spec_tokenise, token_views, Lexer, SpecToken, Token, TokenValue,
};
use crate::peekable_stream::PeekableStream;

pub mod nodes;
pub mod errors;
pub mod operators;
pub mod grammar;
pub mod precedence;
pub mod progress;
mod binary_operators;
mod breaks;
mod definitions;
mod expressions;
mod for_loops;
mod function_calls;
mod function_definitions;
mod if_expressions;
mod index_expressions;
mod lvalues;
mod operands;
mod return_statements;
mod strings;
mod table_definitions;
mod table_unpacks;
mod unary_operators;

verus! {

broadcast use errors::lemma_spans_ok_add;

/// The most tokens that the parser takes.
pub const MAX_TOKENS: u64 = 0x3fff_ffff_ffff_ffff;

pub struct Parser {
    tokens: PeekableStream<Token>,
}

/// Whether two token values are equal.
pub fn token_values_equal(a: &TokenValue, b: &TokenValue) -> (r: bool)
    ensures
        r == (a@ == b@),
{
    match (a, b) {
        (TokenValue::Nil, TokenValue::Nil) => true,
        (TokenValue::Bool(x), TokenValue::Bool(y)) => *x == *y,
        (TokenValue::Int(x), TokenValue::Int(y)) => *x == *y,
        (TokenValue::Double(x), TokenValue::Double(y)) => *x == *y,
        (TokenValue::String(x), TokenValue::String(y)) => *x == *y,
        (TokenValue::FormatStringStart(x), TokenValue::FormatStringStart(y)) => *x == *y,
        (TokenValue::FormatStringMiddle(x), TokenValue::FormatStringMiddle(y)) => *x == *y,
        (TokenValue::FormatStringEnd(x), TokenValue::FormatStringEnd(y)) => *x == *y,
        (TokenValue::Symbol(x), TokenValue::Symbol(y)) => *x == *y,
        (TokenValue::Keyword(x), TokenValue::Keyword(y)) => *x == *y,
        (TokenValue::Operator(x), TokenValue::Operator(y)) => *x == *y,
        (TokenValue::SpecialCharacter(x), TokenValue::SpecialCharacter(y)) => *x == *y,
        (TokenValue::Comment(x), TokenValue::Comment(y)) => *x == *y,
        (TokenValue::UnexpectedCharacter(x), TokenValue::UnexpectedCharacter(y)) => *x == *y,
        (TokenValue::MalformedNumber(x), TokenValue::MalformedNumber(y)) => *x == *y,
        (TokenValue::MalformedString(x), TokenValue::MalformedString(y)) => *x == *y,
        _ => false,
    }
}

/// The statements of a program take up all of its tokens but the comments:
/// no token is left unread.
pub open spec fn reads_all(ts: Seq<SpecToken>) -> bool {
    sp_block(without_comments(ts), 0, BlockStop::EndOfInput, Seq::empty()).0 == without_comments(
        ts,
    ).len()
}

/// Where nodes start and end, when every token has its place.
pub(crate) proof fn lemma_placed_positions(ts: Seq<SpecToken>, i: int)
    ensures
        tokens_placed(ts) ==> position_ok(start_at(ts, i)) && position_ok(end_at(ts, i)),
{
    if tokens_placed(ts) {
        if 0 <= i < ts.len() {
            assert(position_ok(ts[i].start));
        }
        if 1 <= i <= ts.len() {
            assert(position_ok(ts[i - 1].start));
        }
    }
}

/// Splits `source` into tokens and parses them.
pub fn tokenise_and_parse(source: Vec<char>) -> (statements: Vec<StatementNode>)
    requires
        source@.len() < usize::MAX,
        source@.len() <= MAX_TOKENS,
    ensures
        stmt_nodes_view(statements@) == spec_parse(spec_tokenise(source@)),
        reads_all(spec_tokenise(source@)),
{
    proof {
        lemma_tokens_from_len(source@, 0, Seq::empty());
    }
    let tokens = Lexer::tokenise(source);
    Parser::parse(tokens)
}

/// The node of a syntax error in an expression.
pub(crate) fn expression_error(message: &str, start: Position, end: Position) -> (n: ExpressionNode)
    ensures
        expr_node_view(n) == grammar::expr_error(message@, start, end),
{
    ExpressionNode {
        value: Box::new(nodes::Expression::SyntaxError(String::from_str(message))),
        start,
        end,
    }
}

/// The key that `.name` stands for: a string of one segment, the name.
pub(crate) fn name_key_node(name: String, start: Position, end: Position) -> (n: ExpressionNode)
    ensures
        expr_node_view(n) == grammar::name_key(name@, start, end),
        errors::expr_errors(expr_node_view(n)) == Seq::<errors::ErrorSpan>::empty(),
{
    let segment = nodes::StringSegmentNode {
        value: Box::new(nodes::StringSegment::Valid(name)),
        start,
        end,
    };
    let mut segments: Vec<nodes::StringSegmentNode> = Vec::new();
    segments.push(segment);
    proof {
        nodes::lemma_segment_nodes_single(segment);
        assert(segments@ =~= seq![segment]);
        assert(expr_nodes_view(Seq::<ExpressionNode>::empty()) =~= Seq::empty());
        errors::lemma_segments_errors_push(Seq::empty(), nodes::segment_node_view(segment));
        assert(seq![nodes::segment_node_view(segment)] =~= Seq::empty().push(
            nodes::segment_node_view(segment),
        ));
    }
    let arguments: Vec<ExpressionNode> = Vec::new();
    proof {
        assert(arguments@ =~= Seq::<ExpressionNode>::empty());
        assert(errors::segments_errors(nodes::segment_nodes_view(segments@)) =~= Seq::empty());
        assert(errors::exprs_errors(expr_nodes_view(arguments@)) =~= Seq::empty());
    }
    let n = ExpressionNode {
        value: Box::new(nodes::Expression::String { segments, arguments }),
        start,
        end,
    };
    assert(errors::expr_errors(expr_node_view(n)) =~= Seq::<errors::ErrorSpan>::empty());
    n
}

/// The node of a syntax error in a variable.
pub(crate) fn lvalue_error(message: &str, start: Position, end: Position) -> (n: LValueNode)
    ensures
        lvalue_node_view(n) == snode(nodes::SLValue::SyntaxError(message@), start, end),
{
    LValueNode {
        value: Box::new(nodes::LValue::SyntaxError(String::from_str(message))),
        start,
        end,
    }
}

/// The node of a syntax error in a statement.
pub(crate) fn statement_error(message: &str, start: Position, end: Position) -> (n: StatementNode)
    ensures
        stmt_node_view(n) == snode(SStatement::SyntaxError(message@), start, end),
{
    StatementNode {
        value: Box::new(Statement::SyntaxError(String::from_str(message))),
        start,
        end,
    }
}

impl Parser {
    /// The tokens, without comments.
    pub closed spec fn ts(&self) -> Seq<SpecToken> {
        token_views(self.tokens.items())
    }

    /// The read index.
    pub closed spec fn idx(&self) -> int {
        self.tokens.position() as int
    }

    pub closed spec fn wf(&self) -> bool {
        &&& self.tokens.position() <= self.tokens.items().len()
        &&& self.tokens.items().len() <= MAX_TOKENS
    }

    /// The tokens left to read.
    pub open spec fn remaining(&self) -> nat {
        rem(self.ts(), self.idx())
    }

    pub proof fn lemma_wf(&self)
        requires
            self.wf(),
        ensures
            0 <= self.idx() <= self.ts().len() <= MAX_TOKENS,
            self.remaining() == self.ts().len() - self.idx(),
    {
    }

    /// Parses a whole program.
    pub fn parse(tokens: Vec<Token>) -> (statements: Vec<StatementNode>)
        requires
            tokens@.len() <= MAX_TOKENS,
        ensures
            stmt_nodes_view(statements@) == spec_parse(token_views(tokens@)),
            tokens_placed(token_views(tokens@)) ==> spans_ok(
                stmts_errors(stmt_nodes_view(statements@)),
            ),
            reads_all(token_views(tokens@)),
    {
        let mut parser = Self::new(tokens);
        parser.parse_block(BlockStop::EndOfInput)
    }

    /// A parser positioned at the start of `tokens`, with the comments left out.
    pub(crate) fn new(tokens: Vec<Token>) -> (p: Self)
        requires
            tokens@.len() <= MAX_TOKENS,
        ensures
            p.wf(),
            p.ts() == without_comments(token_views(tokens@)),
            p.idx() == 0,
            tokens_placed(token_views(tokens@)) ==> tokens_placed(p.ts()),
    {
        let ghost all = token_views(tokens@);
        let mut kept: Vec<Token> = Vec::new();
        let mut tokens = tokens;
        let ghost original = tokens@;
        let mut i: usize = 0;
        let n = tokens.len();
        while i < n
            invariant
                n == original.len(),
                all == token_views(original),
                i <= n,
                kept@.len() <= i,
                token_views(kept@) == without_comments(all.take(i as int)),
                tokens_placed(all) ==> tokens_placed(token_views(kept@)),
                tokens@.len() == n,
                forall|j: int| i <= j < n ==> tokens@[j] == original[j],
            decreases n - i,
        {
            let token = tokens[i].clone();
            proof {
                assert(all.take(i + 1).drop_last() =~= all.take(i as int));
                assert(all.take(i + 1).last() == token@);
            }
            match token.value {
                TokenValue::Comment(_) => {},
                _ => {
                    let ghost before = kept@;
                    kept.push(token);
                    proof {
                        let v = token_views(kept@);
                        assert(v =~= token_views(before).push(tokens@[i as int]@));
                        if tokens_placed(all) {
                            assert(all[i as int] == tokens@[i as int]@);
                            assert(position_ok(all[i as int].start));
                            errors::lemma_tokens_placed_push(token_views(before), all[i as int]);
                        }
                    }
                },
            }
            i = i + 1;
        }
        proof {
            assert(all.take(n as int) =~= all);
        }
        Parser { tokens: PeekableStream::new(kept) }
    }

    /// The value of the token at the read index.
    fn peek_value(&self) -> (r: Option<TokenValue>)
        requires
            self.wf(),
        ensures
            match r {
                Some(v) => tok(self.ts(), self.idx()) == Some(v@),
                None => tok(self.ts(), self.idx()) is None,
            },
    {
        match self.tokens.peek_next() {
            Some(t) => Some(t.value.clone()),
            None => None,
        }
    }

    /// The value of the token `distance` places after the read index.
    fn peek_value_at(&self, distance: usize) -> (r: Option<TokenValue>)
        requires
            self.wf(),
        ensures
            match r {
                Some(v) => tok(self.ts(), self.idx() + distance) == Some(v@),
                None => tok(self.ts(), self.idx() + distance) is None,
            },
    {
        match self.tokens.peek(distance) {
            Some(t) => Some(t.value.clone()),
            None => None,
        }
    }

    /// Moves past the token at the read index, if there is one.
    fn consume(&mut self)
        requires
            old(self).wf(),
        ensures
            final(self).wf(),
            final(self).ts() == old(self).ts(),
            final(self).idx() == after_consume(old(self).ts(), old(self).idx()),
    {
        let _ = self.tokens.consume();
    }

    /// Whether the token at the read index has the value `value`.
    fn is_next(&self, value: TokenValue) -> (b: bool)
        requires
            self.wf(),
        ensures
            b == next_is(self.ts(), self.idx(), value@),
    {
        match self.tokens.peek_next() {
            Some(t) => token_values_equal(&t.value, &value),
            None => false,
        }
    }

    /// Consumes the token at the read index when it has the value `value`.
    fn consume_if(&mut self, value: TokenValue) -> (b: bool)
        requires
            old(self).wf(),
        ensures
            final(self).wf(),
            final(self).ts() == old(self).ts(),
            b == next_is(old(self).ts(), old(self).idx(), value@),
            final(self).idx() == if b {
                old(self).idx() + 1
            } else {
                old(self).idx()
            },
    {
        if self.is_next(value) {
            self.consume();
            true
        } else {
            false
        }
    }

    /// Where a node that starts at the read index starts.
    fn get_start(&self) -> (p: Position)
        requires
            self.wf(),
        ensures
            p == start_at(self.ts(), self.idx()),
            tokens_placed(self.ts()) ==> position_ok(p),
    {
        proof {
            lemma_placed_positions(self.ts(), self.idx());
        }
        match self.tokens.peek_next() {
            Some(t) => t.start,
            None => match self.tokens.peek_back(1) {
                Some(t) => t.end,
                None => Position { line: 1, column: 1 },
            },
        }
    }

    /// Where a node that ends before the read index ends.
    fn get_end(&self) -> (p: Position)
        requires
            self.wf(),
        ensures
            p == end_at(self.ts(), self.idx()),
            tokens_placed(self.ts()) ==> position_ok(p),
    {
        proof {
            lemma_placed_positions(self.ts(), self.idx());
        }
        match self.tokens.peek_back(1) {
            Some(t) => t.end,
            None => Position { line: 1, column: 1 },
        }
    }

    /// Statements up to where the block stops.
    pub(crate) fn parse_block(&mut self, stop: BlockStop) -> (block: Vec<StatementNode>)
        requires
            old(self).wf(),
        ensures
            tokens_placed(old(self).ts()) ==> spans_ok(stmts_errors(stmt_nodes_view(block@))),
            final(self).wf(),
            final(self).ts() == old(self).ts(),
            old(self).idx() <= final(self).idx() <= old(self).ts().len(),
            sp_block(old(self).ts(), old(self).idx(), stop, Seq::empty()) == (
                final(self).idx(),
                stmt_nodes_view(block@),
            ),
            stop == BlockStop::EndOfInput ==> final(self).idx() == old(self).ts().len(),
        decreases old(self).remaining(), 40nat,
    {
        let ghost ts = self.ts();
        let ghost i0 = self.idx();
        let mut block: Vec<StatementNode> = Vec::new();
        proof {
            self.lemma_wf();
        }
        while self.has_remaining(stop)
            invariant
                ts == old(self).ts(),
                i0 == old(self).idx(),
                self.wf(),
                self.ts() == ts,
                i0 <= self.idx() <= ts.len(),
                sp_block(ts, i0, stop, Seq::empty()) == sp_block(
                    ts,
                    self.idx(),
                    stop,
                    stmt_nodes_view(block@),
                ),
                rem(ts, i0) == ts.len() - i0,
                tokens_placed(ts) ==> spans_ok(stmts_errors(stmt_nodes_view(block@))),
            decreases ts.len() - self.idx(),
        {
            let ghost i = self.idx();
            let ghost before = block@;
            let node = self.parse_statement();
            block.push(node);
            proof {
                lemma_stmt_nodes_push(before, node);
                errors::lemma_stmts_errors_push(stmt_nodes_view(before), stmt_node_view(node));
                self.lemma_wf();
            }
        }
        block
    }

    /// Whether the block goes on at the read index.
    fn has_remaining(&self, stop: BlockStop) -> (b: bool)
        requires
            self.wf(),
        ensures
            b == block_continues(self.ts(), self.idx(), stop),
    {
        if !self.tokens.has_next() {
            return false;
        }
        match stop {
            BlockStop::EndOfInput => true,
            BlockStop::End => !self.is_next(TokenValue::Keyword(Keyword::End)),
            BlockStop::IfBody => !(self.is_next(TokenValue::Keyword(Keyword::End)) || self.is_next(
                TokenValue::Keyword(Keyword::Else),
            ) || self.is_next(TokenValue::Keyword(Keyword::ElseIf))),
        }
    }

    /// A statement: a definition, a `return`, a `break`, or an expression.
    fn parse_statement(&mut self) -> (node: StatementNode)
        requires
            old(self).wf(),
        ensures
            tokens_placed(old(self).ts()) ==> spans_ok(stmt_errors(stmt_node_view(node))),
            final(self).wf(),
            final(self).ts() == old(self).ts(),
            old(self).idx() <= final(self).idx() <= old(self).ts().len(),
            old(self).idx() < old(self).ts().len() ==> old(self).idx() < final(self).idx(),
            sp_statement(old(self).ts(), old(self).idx()) == (final(self).idx(), stmt_node_view(node)),
        decreases old(self).remaining(), 39nat,
    {
        if self.is_next(TokenValue::Keyword(Keyword::Constant)) || self.is_next(
            TokenValue::Keyword(Keyword::Mutable),
        ) || self.is_next(TokenValue::Keyword(Keyword::Export)) {
            self.parse_definition()
        } else if self.is_next(TokenValue::Keyword(Keyword::Return)) {
            self.parse_return()
        } else if self.is_next(TokenValue::Keyword(Keyword::Break)) {
            self.parse_break()
        } else {
            let expr = self.parse_expression();
            StatementNode {
                value: Box::new(Statement::Expression(*expr.value)),
                start: expr.start,
                end: expr.end,
            }
        }
    }

    /// Variables separated by commas.
    fn parse_lvalue_list(&mut self) -> (list: Vec<LValueNode>)
        requires
            old(self).wf(),
        ensures
            tokens_placed(old(self).ts()) ==> spans_ok(lvalues_errors(lvalue_nodes_view(list@))),
            final(self).wf(),
            final(self).ts() == old(self).ts(),
            old(self).idx() <= final(self).idx() <= old(self).ts().len(),
            old(self).idx() < old(self).ts().len() ==> old(self).idx() < final(self).idx(),
            sp_lvalue_list(old(self).ts(), old(self).idx(), Seq::empty()) == (
                final(self).idx(),
                lvalue_nodes_view(list@),
            ),
        decreases old(self).remaining(), 37nat,
    {
        let ghost ts = self.ts();
        let ghost i0 = self.idx();
        let mut elements: Vec<LValueNode> = Vec::new();
        proof {
            self.lemma_wf();
        }
        loop
            invariant_except_break
                ts == old(self).ts(),
                i0 == old(self).idx(),
                self.wf(),
                self.ts() == ts,
                i0 <= self.idx() <= ts.len(),
                i0 < self.idx() || elements@.len() == 0,
                rem(ts, i0) == ts.len() - i0,
                sp_lvalue_list(ts, i0, Seq::empty()) == sp_lvalue_list(
                    ts,
                    self.idx(),
                    lvalue_nodes_view(elements@),
                ),
                tokens_placed(ts) ==> spans_ok(lvalues_errors(lvalue_nodes_view(elements@))),
            ensures
                self.wf(),
                self.ts() == ts,
                i0 <= self.idx() <= ts.len(),
                i0 < ts.len() ==> i0 < self.idx(),
                sp_lvalue_list(ts, i0, Seq::empty()) == (
                    self.idx(),
                    lvalue_nodes_view(elements@),
                ),
                tokens_placed(ts) ==> spans_ok(lvalues_errors(lvalue_nodes_view(elements@))),
            decreases ts.len() - self.idx(),
        {
            let ghost before = elements@;
            let element = self.parse_lvalue();
            elements.push(element);
            proof {
                lemma_lvalue_nodes_push(before, element);
                errors::lemma_lvalues_errors_push(lvalue_nodes_view(before), lvalue_node_view(element));
                self.lemma_wf();
            }
            if !self.consume_if(TokenValue::SpecialCharacter(SpecialCharacter::Comma)) {
                break;
            }
        }
        elements
    }

    /// Expressions separated by commas.
    fn parse_expression_list(&mut self) -> (list: Vec<ExpressionNode>)
        requires
            old(self).wf(),
        ensures
            tokens_placed(old(self).ts()) ==> spans_ok(exprs_errors(expr_nodes_view(list@))),
            final(self).wf(),
            final(self).ts() == old(self).ts(),
            old(self).idx() <= final(self).idx() <= old(self).ts().len(),
            old(self).idx() < old(self).ts().len() ==> old(self).idx() < final(self).idx(),
            sp_expression_list(old(self).ts(), old(self).idx(), Seq::empty()) == (
                final(self).idx(),
                expr_nodes_view(list@),
            ),
        decreases old(self).remaining(), 37nat,
    {
        let ghost ts = self.ts();
        let ghost i0 = self.idx();
        let mut elements: Vec<ExpressionNode> = Vec::new();
        proof {
            self.lemma_wf();
        }
        loop
            invariant_except_break
                ts == old(self).ts(),
                i0 == old(self).idx(),
                self.wf(),
                self.ts() == ts,
                i0 <= self.idx() <= ts.len(),
                i0 < self.idx() || elements@.len() == 0,
                rem(ts, i0) == ts.len() - i0,
                sp_expression_list(ts, i0, Seq::empty()) == sp_expression_list(
                    ts,
                    self.idx(),
                    expr_nodes_view(elements@),
                ),
                tokens_placed(ts) ==> spans_ok(exprs_errors(expr_nodes_view(elements@))),
            ensures
                self.wf(),
                self.ts() == ts,
                i0 <= self.idx() <= ts.len(),
                i0 < ts.len() ==> i0 < self.idx(),
                sp_expression_list(ts, i0, Seq::empty()) == (
                    self.idx(),
                    expr_nodes_view(elements@),
                ),
                tokens_placed(ts) ==> spans_ok(exprs_errors(expr_nodes_view(elements@))),
            decreases ts.len() - self.idx(),
        {
            let ghost before = elements@;
            let element = self.parse_expression();
            elements.push(element);
            proof {
                lemma_expr_nodes_push(before, element);
                errors::lemma_exprs_errors_push(expr_nodes_view(before), expr_node_view(element));
                self.lemma_wf();
            }
            if !self.consume_if(TokenValue::SpecialCharacter(SpecialCharacter::Comma)) {
                break;
            }
        }
        elements
    }
}

} // verus!
