//! The syntax errors that a tree holds, in the order in which a walk of
//! the tree meets them.

use vstd::prelude::*;

use super::nodes::{
    SExpression, SIfBranch, SLValue, SNode, SStatement, SStringSegment, STableDefinitionElement,
    STableUnpackElement,
};

use crate::common::Position;
use crate::lexer::SpecToken;

verus! {

/// A syntax error found in a tree: its message and the span of its node.
pub struct ErrorSpan {
    pub message: Seq<char>,
    pub start: Position,
    pub end: Position,
}

pub open spec fn error_at(message: Seq<char>, start: Position, end: Position) -> Seq<ErrorSpan> {
    seq![ErrorSpan { message, start, end }]
}

pub open spec fn segment_errors(n: SNode<SStringSegment>) -> Seq<ErrorSpan> {
    match n.value {
        SStringSegment::Valid(_) => Seq::empty(),
        SStringSegment::Malformed(m) => error_at(m, n.start, n.end),
    }
}

pub open spec fn segments_errors(s: Seq<SNode<SStringSegment>>) -> Seq<ErrorSpan>
    decreases s.len(),
{
    if s.len() == 0 {
        Seq::empty()
    } else {
        segments_errors(s.drop_last()) + segment_errors(s.last())
    }
}

/// The errors of an expression node.
pub open spec fn expr_errors(n: SNode<SExpression>) -> Seq<ErrorSpan>
    decreases n,
{
    value_errors(n.value, n.start, n.end)
}

/// The errors of an expression whose node spans `start` to `end`.
pub open spec fn value_errors(e: SExpression, start: Position, end: Position) -> Seq<ErrorSpan>
    decreases e,
{
    match e {
        SExpression::String { segments, arguments } => segments_errors(segments) + exprs_errors(
            arguments,
        ),
        SExpression::TableDefinition { elements } => def_elements_errors(elements),
        SExpression::Block(body) => stmts_errors(body),
        SExpression::UnaryOperator { rhs, .. } => expr_errors(*rhs),
        SExpression::BinaryOperator { lhs, rhs, .. } => expr_errors(*lhs) + expr_errors(*rhs),
        SExpression::Function { parameters, body } => lvalues_errors(parameters) + stmts_errors(
            body,
        ),
        SExpression::If { if_branches, else_branch } => if_branches_errors(if_branches) + match else_branch {
            Some(b) => stmts_errors(b),
            None => Seq::empty(),
        },
        SExpression::For { lhs, enumerable, body } => lvalues_errors(lhs) + expr_errors(*enumerable)
            + stmts_errors(body),
        SExpression::Call { lhs, arguments, .. } => expr_errors(*lhs) + exprs_errors(arguments),
        SExpression::SyntaxError(m) => error_at(m, start, end),
        _ => Seq::empty(),
    }
}

pub open spec fn exprs_errors(s: Seq<SNode<SExpression>>) -> Seq<ErrorSpan>
    decreases s,
{
    if s.len() == 0 {
        Seq::empty()
    } else {
        exprs_errors(s.drop_last()) + expr_errors(s.last())
    }
}

/// The errors of a table definition element.
pub open spec fn def_element_errors(n: SNode<STableDefinitionElement>) -> Seq<ErrorSpan>
    decreases n,
{
    match n.value {
        STableDefinitionElement::Valid { key, value } => expr_errors(key) + expr_errors(value),
        STableDefinitionElement::SyntaxError(m) => error_at(m, n.start, n.end),
    }
}

pub open spec fn def_elements_errors(s: Seq<SNode<STableDefinitionElement>>) -> Seq<ErrorSpan>
    decreases s,
{
    if s.len() == 0 {
        Seq::empty()
    } else {
        def_elements_errors(s.drop_last()) + def_element_errors(s.last())
    }
}

/// The errors of an `if` branch: of its condition, then of its body.
pub open spec fn if_branch_errors(b: SIfBranch) -> Seq<ErrorSpan>
    decreases b,
{
    expr_errors(b.condition) + stmts_errors(b.body)
}

pub open spec fn if_branches_errors(s: Seq<SIfBranch>) -> Seq<ErrorSpan>
    decreases s,
{
    if s.len() == 0 {
        Seq::empty()
    } else {
        if_branches_errors(s.drop_last()) + if_branch_errors(s.last())
    }
}

/// The errors of a table unpack element.
pub open spec fn unpack_element_errors(n: SNode<STableUnpackElement>) -> Seq<ErrorSpan>
    decreases n,
{
    match n.value {
        STableUnpackElement::Valid { key, variable } => expr_errors(key) + lvalue_errors(variable),
        STableUnpackElement::SyntaxError(m) => error_at(m, n.start, n.end),
    }
}

pub open spec fn unpack_elements_errors(s: Seq<SNode<STableUnpackElement>>) -> Seq<ErrorSpan>
    decreases s,
{
    if s.len() == 0 {
        Seq::empty()
    } else {
        unpack_elements_errors(s.drop_last()) + unpack_element_errors(s.last())
    }
}

/// The errors of a variable.
pub open spec fn lvalue_errors(n: SNode<SLValue>) -> Seq<ErrorSpan>
    decreases n,
{
    match n.value {
        SLValue::Symbol(_) => Seq::empty(),
        SLValue::TableUnpack { elements } => unpack_elements_errors(elements),
        SLValue::SyntaxError(m) => error_at(m, n.start, n.end),
    }
}

pub open spec fn lvalues_errors(s: Seq<SNode<SLValue>>) -> Seq<ErrorSpan>
    decreases s,
{
    if s.len() == 0 {
        Seq::empty()
    } else {
        lvalues_errors(s.drop_last()) + lvalue_errors(s.last())
    }
}

/// The errors of a statement. Those of an expression statement are
/// reported over the span of the statement.
pub open spec fn stmt_errors(n: SNode<SStatement>) -> Seq<ErrorSpan>
    decreases n,
{
    match n.value {
        SStatement::Definition { lhs, rhs, .. } => lvalues_errors(lhs) + exprs_errors(rhs),
        SStatement::Return(e) => expr_errors(e),
        SStatement::Break => Seq::empty(),
        SStatement::Expression(e) => value_errors(e, n.start, n.end),
        SStatement::SyntaxError(m) => error_at(m, n.start, n.end),
    }
}

/// The errors of a sequence of statements, in order.
pub open spec fn stmts_errors(s: Seq<SNode<SStatement>>) -> Seq<ErrorSpan>
    decreases s,
{
    if s.len() == 0 {
        Seq::empty()
    } else {
        stmts_errors(s.drop_last()) + stmt_errors(s.last())
    }
}

/// Whether the span of an error starts and ends at a line and a column of at least 1.
pub open spec fn span_ok(e: ErrorSpan) -> bool {
    position_ok(e.start) && position_ok(e.end)
}

pub open spec fn spans_ok(s: Seq<ErrorSpan>) -> bool {
    forall|k: int| 0 <= k < s.len() ==> span_ok(#[trigger] s[k])
}

/// Whether `p` lies at a line and a column of at least 1.
pub open spec fn position_ok(p: Position) -> bool {
    p.line >= 1 && p.column >= 1
}

/// Whether every token starts and ends at a line and a column of at least 1.
pub open spec fn tokens_placed(ts: Seq<SpecToken>) -> bool {
    forall|i: int| 0 <= i < ts.len() ==> position_ok(#[trigger] ts[i].start) && position_ok(ts[i].end)
}

/// An expression node that lies at a place in the text and whose errors all do.
pub open spec fn expr_node_ok(n: SNode<SExpression>) -> bool {
    &&& position_ok(n.start)
    &&& position_ok(n.end)
    &&& spans_ok(expr_errors(n))
}

/// Adding a token that has its place keeps every token in its place.
pub proof fn lemma_tokens_placed_push(ts: Seq<SpecToken>, t: SpecToken)
    requires
        tokens_placed(ts),
        position_ok(t.start),
        position_ok(t.end),
    ensures
        tokens_placed(ts.push(t)),
{
    assert forall|i: int| 0 <= i < ts.push(t).len() implies position_ok(#[trigger] ts.push(t)[i].start)
        && position_ok(ts.push(t)[i].end) by {
        if i < ts.len() {
            assert(ts.push(t)[i] == ts[i]);
        }
    }
}

pub broadcast proof fn lemma_spans_ok_add(a: Seq<ErrorSpan>, b: Seq<ErrorSpan>)
    requires
        spans_ok(a),
        spans_ok(b),
    ensures
        #[trigger] spans_ok(a + b),
{
    assert forall|k: int| 0 <= k < (a + b).len() implies span_ok(#[trigger] (a + b)[k]) by {
        if k < a.len() {
            assert((a + b)[k] == a[k]);
        } else {
            assert((a + b)[k] == b[k - a.len()]);
        }
    }
}

pub proof fn lemma_stmts_errors_push(s: Seq<SNode<SStatement>>, x: SNode<SStatement>)
    ensures
        stmts_errors(s.push(x)) == stmts_errors(s) + stmt_errors(x),
{
    assert(s.push(x).drop_last() =~= s);
}

pub proof fn lemma_exprs_errors_push(s: Seq<SNode<SExpression>>, x: SNode<SExpression>)
    ensures
        exprs_errors(s.push(x)) == exprs_errors(s) + expr_errors(x),
{
    assert(s.push(x).drop_last() =~= s);
}

pub proof fn lemma_lvalues_errors_push(s: Seq<SNode<SLValue>>, x: SNode<SLValue>)
    ensures
        lvalues_errors(s.push(x)) == lvalues_errors(s) + lvalue_errors(x),
{
    assert(s.push(x).drop_last() =~= s);
}

pub proof fn lemma_def_elements_errors_push(s: Seq<SNode<STableDefinitionElement>>, x: SNode<STableDefinitionElement>)
    ensures
        def_elements_errors(s.push(x)) == def_elements_errors(s) + def_element_errors(x),
{
    assert(s.push(x).drop_last() =~= s);
}

pub proof fn lemma_unpack_elements_errors_push(s: Seq<SNode<STableUnpackElement>>, x: SNode<STableUnpackElement>)
    ensures
        unpack_elements_errors(s.push(x)) == unpack_elements_errors(s) + unpack_element_errors(x),
{
    assert(s.push(x).drop_last() =~= s);
}

pub proof fn lemma_if_branches_errors_push(s: Seq<SIfBranch>, x: SIfBranch)
    ensures
        if_branches_errors(s.push(x)) == if_branches_errors(s) + if_branch_errors(x),
{
    assert(s.push(x).drop_last() =~= s);
}

pub proof fn lemma_segments_errors_push(s: Seq<SNode<SStringSegment>>, x: SNode<SStringSegment>)
    ensures
        segments_errors(s.push(x)) == segments_errors(s) + segment_errors(x),
{
    assert(s.push(x).drop_last() =~= s);
}

} // verus!
