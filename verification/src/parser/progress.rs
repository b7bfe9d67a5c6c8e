//! Progress: an expression never ends before the index it is read from, and
//! an operand takes at least one token whenever one is left.

use vstd::prelude::*;

use super::grammar::{
    clamp, end_at, expr_error, next_is, op, rem, sc, sp_call, sp_index_expression, tok, sp_binary_operator, sp_binary_rhs, sp_expression,
    sp_format_string, sp_if_branches, sp_if_tail, sp_operand, sp_string, sp_sub_expression,
    sp_unary_operator, start_at,
};
use super::nodes::{SExpression, SNode, SStringSegment};

use crate::common::{Operator, Position, SpecialCharacter};
use crate::lexer::{SpecToken, SpecTokenValue};

verus! {

proof fn lemma_if_tail_progress(ts: Seq<SpecToken>, i: int, start: Position, branches: Seq<super::nodes::SIfBranch>)
    requires
        0 <= i <= ts.len(),
    ensures
        i <= sp_if_tail(ts, i, start, branches).0,
{
}

proof fn lemma_if_branches_progress(
    ts: Seq<SpecToken>,
    i: int,
    start: Position,
    branches: Seq<super::nodes::SIfBranch>,
)
    requires
        0 <= i <= ts.len(),
    ensures
        i <= sp_if_branches(ts, i, start, branches).0,
    decreases ts.len() - i,
{
    let (m, condition) = sp_expression(ts, i);
    let m = clamp(m, i, ts.len() as int);
    if super::grammar::next_is(ts, m, super::grammar::kw(crate::common::Keyword::Then)) {
        let (m2, body) = super::grammar::sp_block(ts, m + 1, super::grammar::BlockStop::IfBody, Seq::empty());
        let m2 = clamp(m2, m + 1, ts.len() as int);
        let next_branches = branches.push(super::nodes::SIfBranch { condition, body });
        if m2 < ts.len() {
            lemma_if_branches_progress(ts, m2 + 1, start, next_branches);
        }
        lemma_if_tail_progress(ts, m2, start, next_branches);
    }
}

/// An expression read from index `i` ends no earlier than `i`.
pub proof fn lemma_expression_progress(ts: Seq<SpecToken>, i: int)
    requires
        0 <= i,
    ensures
        i <= sp_expression(ts, i).0,
    decreases rem(ts, i), 36nat,
{
    lemma_operand_progress(ts, i);
    let (m, lhs) = sp_operand(ts, i);
    if !(lhs.value is SyntaxError) {
        let c = clamp(m, i, ts.len() as int);
        lemma_sub_expression_progress(ts, c, lhs, 0);
    }
}

/// Operand progress: an operand read from index `i` takes at least one token
/// when one is left; with none left it takes none and is the error that the
/// expression ran off the end of the program.
pub proof fn lemma_operand_progress(ts: Seq<SpecToken>, i: int)
    requires
        0 <= i,
    ensures
        i <= sp_operand(ts, i).0,
        i < ts.len() ==> i < sp_operand(ts, i).0,
        i >= ts.len() ==> sp_operand(ts, i) == (
            i,
            expr_error("Expression ran off the end of the program"@, start_at(ts, i), end_at(ts, i)),
        ),
    decreases rem(ts, i), 35nat,
{
    if i < ts.len() {
        lemma_unary_progress(ts, i);
        lemma_string_progress(ts, i);
        if ts[i].value == super::grammar::kw(crate::common::Keyword::If) {
            lemma_if_branches_progress(ts, i + 1, start_at(ts, i), Seq::empty());
        }
    }
}

proof fn lemma_unary_progress(ts: Seq<SpecToken>, i: int)
    requires
        0 <= i < ts.len(),
    ensures
        i < sp_unary_operator(ts, i).0,
    decreases rem(ts, i), 34nat,
{
    let j = i + 1;
    let (m, operand) = sp_operand(ts, j);
    let m = clamp(m, j, ts.len() as int);
    lemma_sub_expression_progress(ts, m, operand, super::operators::UNARY_PRECEDENCE);
}

proof fn lemma_sub_expression_progress(ts: Seq<SpecToken>, i: int, lhs: SNode<SExpression>, min: u16)
    requires
        0 <= i,
    ensures
        i <= sp_sub_expression(ts, i, lhs, min).0,
    decreases rem(ts, i), 35nat,
{
    if super::grammar::binds_at_least(ts, i, min) {
        let (m, next) = if next_is(ts, i, sc(SpecialCharacter::OpenBracket)) {
            sp_call(ts, i, lhs, false)
        } else if next_is(ts, i, sc(SpecialCharacter::OpenSquareBracket)) {
            sp_index_expression(ts, i, lhs, false)
        } else if next_is(ts, i, op(Operator::OptionalIndex)) && next_is(
            ts,
            i + 1,
            sc(SpecialCharacter::OpenBracket),
        ) {
            sp_call(ts, i + 1, lhs, true)
        } else if next_is(ts, i, op(Operator::OptionalIndex)) && next_is(
            ts,
            i + 1,
            sc(SpecialCharacter::OpenSquareBracket),
        ) {
            sp_index_expression(ts, i + 1, lhs, true)
        } else {
            lemma_binary_operator_progress(ts, i, lhs);
            sp_binary_operator(ts, i, lhs)
        };
        if i < m <= ts.len() {
            lemma_sub_expression_progress(ts, m, next, min);
        }
    }
}

proof fn lemma_binary_operator_progress(ts: Seq<SpecToken>, i: int, lhs: SNode<SExpression>)
    requires
        0 <= i < ts.len(),
    ensures
        i < sp_binary_operator(ts, i, lhs).0,
    decreases rem(ts, i), 34nat,
{
    let j = i + 1;
    if ts[i].value is Operator {
        let o = ts[i].value->Operator_0;
        let precedence = super::operators::spec_operator_metadata(o).precedence;
        let (m, first) = sp_operand(ts, j);
        let m = clamp(m, j, ts.len() as int);
        lemma_binary_rhs_progress(ts, m, first, precedence);
    }
}

proof fn lemma_binary_rhs_progress(ts: Seq<SpecToken>, i: int, rhs: SNode<SExpression>, precedence: u16)
    requires
        0 <= i,
    ensures
        i <= sp_binary_rhs(ts, i, rhs, precedence).0,
    decreases rem(ts, i), 36nat,
{
    if i < ts.len() && super::operators::spec_token_metadata(ts[i].value) is Some {
        let metadata = super::operators::spec_token_metadata(ts[i].value)->0;
        let next_precedence = metadata.precedence;
        let min = if next_precedence > precedence {
            (precedence + 1) as u16
        } else {
            precedence
        };
        lemma_sub_expression_progress(ts, i, rhs, min);
        let (m, next) = sp_sub_expression(ts, i, rhs, min);
        if i < m <= ts.len() {
            lemma_binary_rhs_progress(ts, m, next, precedence);
        }
    }
}

proof fn lemma_string_progress(ts: Seq<SpecToken>, i: int)
    requires
        0 <= i < ts.len(),
    ensures
        i < sp_string(ts, i).0,
    decreases rem(ts, i), 34nat,
{
    lemma_format_string_progress(ts, i, start_at(ts, i), Seq::empty(), Seq::empty());
}

proof fn lemma_format_string_progress(
    ts: Seq<SpecToken>,
    i: int,
    start: Position,
    segments: Seq<SNode<SStringSegment>>,
    arguments: Seq<SNode<SExpression>>,
)
    requires
        0 <= i,
    ensures
        i <= sp_format_string(ts, i, start, segments, arguments).0,
        i < ts.len() && (ts[i].value is FormatStringStart || ts[i].value is FormatStringMiddle)
            ==> i < sp_format_string(ts, i, start, segments, arguments).0,
    decreases rem(ts, i), 33nat,
{
    if i < ts.len() && (ts[i].value is FormatStringStart || ts[i].value is FormatStringMiddle) {
        let j = i + 1;
        let value = if ts[i].value is FormatStringStart {
            ts[i].value->FormatStringStart_0
        } else {
            ts[i].value->FormatStringMiddle_0
        };
        let segments = segments.push(
            super::nodes::snode(SStringSegment::Valid(value), start, end_at(ts, j)),
        );
        let (m, arguments2) = match tok(ts, j) {
            Some(SpecTokenValue::FormatStringMiddle(_))
            | Some(SpecTokenValue::FormatStringEnd(_))
            | Some(SpecTokenValue::MalformedString(_)) => (
                j,
                arguments.push(
                    expr_error(
                        "Format string holes must not be empty"@,
                        end_at(ts, j),
                        ts[j].start,
                    ),
                ),
            ),
            None => (j, arguments),
            _ => {
                lemma_expression_progress(ts, j);
                let (m, e) = sp_expression(ts, j);
                (m, arguments.push(e))
            },
        };
        if i < m <= ts.len() {
            lemma_format_string_progress(ts, m, start, segments, arguments2);
        }
    }
}

} // verus!
