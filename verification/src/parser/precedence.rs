//! How a run of operands and binary operators is grouped: every operator
//! appears once, in the order written, and each binds as its precedence and
//! associativity say.

use vstd::prelude::*;

use super::grammar::{
    binds_at_least, clamp, end_at, plain_binary_operator, sp_binary_operator, sp_binary_rhs,
    sp_expression, sp_operand, sp_sub_expression, start_at,
};
use super::nodes::{SExpression, SNode};
use super::grammar::{binary_node, int_node, lemma_precedence};
use super::operators::{
    binding_level, lemma_operator_levels, spec_is_right_hand_side_chained_operator,
    spec_operator_metadata,
};

use crate::common::{Operator, Position};
use crate::lexer::{SpecToken, SpecTokenValue};

verus! {

/// Whether a token is an operand of a chain: an integer or a symbol.
pub open spec fn is_chain_operand(v: SpecTokenValue) -> bool {
    v is Int || v is Symbol
}

/// Operands (integers and symbols) at the even places and plain binary
/// operators at the odd ones, ending with an operand.
pub open spec fn is_operator_chain(ts: Seq<SpecToken>) -> bool {
    &&& ts.len() % 2 == 1
    &&& forall|k: int|
        0 <= k < ts.len() ==> if k % 2 == 0 {
            is_chain_operand((#[trigger] ts[k]).value)
        } else {
            ts[k].value is Operator && plain_binary_operator(ts[k].value->Operator_0)
        }
}

/// Each token's value and span.
pub open spec fn token_marks(ts: Seq<SpecToken>) -> Seq<(SpecTokenValue, Position, Position)> {
    ts.map_values(|t: SpecToken| (t.value, t.start, t.end))
}

/// The integers, symbols and binary operators of a tree, read from left to
/// right, each with its span.
pub open spec fn in_order(n: SNode<SExpression>) -> Seq<(SpecTokenValue, Position, Position)>
    decreases n,
{
    match n.value {
        SExpression::BinaryOperator { op, lhs, rhs } => in_order(*lhs) + seq![
            (SpecTokenValue::Operator(op), n.start, n.end),
        ] + in_order(*rhs),
        SExpression::Int(v) => seq![(SpecTokenValue::Int(v), n.start, n.end)],
        SExpression::Symbol(name) => seq![(SpecTokenValue::Symbol(name), n.start, n.end)],
        _ => Seq::empty(),
    }
}

/// The operator at the top of a binary operator node.
pub open spec fn top_operator(n: SNode<SExpression>) -> Operator {
    n.value->BinaryOperator_op
}

/// Whether every binary operator node of a tree binds as its operator's
/// precedence and associativity say: the operator at the top of its
/// right-hand side chains onto it, and the operator at the top of its
/// left-hand side does not take it as its own right-hand side.
pub open spec fn respects_precedence(n: SNode<SExpression>) -> bool
    decreases n,
{
    match n.value {
        SExpression::BinaryOperator { op, lhs, rhs } => {
            &&& respects_precedence(*lhs)
            &&& respects_precedence(*rhs)
            &&& lhs.value is BinaryOperator ==> !spec_is_right_hand_side_chained_operator(
                spec_operator_metadata(op),
                spec_operator_metadata(lhs.value->BinaryOperator_op).precedence,
            )
            &&& rhs.value is BinaryOperator ==> spec_is_right_hand_side_chained_operator(
                spec_operator_metadata(rhs.value->BinaryOperator_op),
                spec_operator_metadata(op).precedence,
            )
        },
        _ => true,
    }
}

pub open spec fn operator_at(ts: Seq<SpecToken>, k: int) -> Operator {
    ts[k].value->Operator_0
}

pub open spec fn precedence_at(ts: Seq<SpecToken>, k: int) -> u16 {
    spec_operator_metadata(operator_at(ts, k)).precedence
}

/// Operators of one precedence share their associativity.
proof fn lemma_associativity_by_level(o: Operator)
    ensures
        spec_operator_metadata(o).is_right_associative == (spec_operator_metadata(o).precedence
            <= 10),
        spec_operator_metadata(o).precedence <= 1000,
{
}

/// Whether `lhs`, when it is an operator node, may become the left-hand side
/// of the operator at `i`.
pub open spec fn may_take_left(ts: Seq<SpecToken>, i: int, lhs: SNode<SExpression>) -> bool {
    i < ts.len() && lhs.value is BinaryOperator ==> !spec_is_right_hand_side_chained_operator(
        spec_operator_metadata(operator_at(ts, i)),
        spec_operator_metadata(top_operator(lhs)).precedence,
    )
}

proof fn lemma_chain_operand(ts: Seq<SpecToken>, i: int)
    requires
        is_operator_chain(ts),
        0 <= i < ts.len(),
        i % 2 == 0,
    ensures
        sp_operand(ts, i).0 == i + 1,
        !(sp_operand(ts, i).1.value is BinaryOperator),
        !(sp_operand(ts, i).1.value is SyntaxError),
        in_order(sp_operand(ts, i).1) == seq![token_marks(ts)[i]],
{
    assert(is_chain_operand(ts[i].value));
    assert(start_at(ts, i) == ts[i].start);
    assert(end_at(ts, i + 1) == ts[i].end);
}

proof fn lemma_chain_binary_operator(ts: Seq<SpecToken>, i: int, lhs: SNode<SExpression>)
    requires
        is_operator_chain(ts),
        1 <= i < ts.len(),
        i % 2 == 1,
        respects_precedence(lhs),
        may_take_left(ts, i, lhs),
    ensures
        ({
            let (m, t) = sp_binary_operator(ts, i, lhs);
            &&& i + 2 <= m <= ts.len()
            &&& m % 2 == 1
            &&& t.value is BinaryOperator
            &&& top_operator(t) == operator_at(ts, i)
            &&& in_order(t) == in_order(lhs) + token_marks(ts).subrange(i, m)
            &&& respects_precedence(t)
            &&& m < ts.len() ==> !spec_is_right_hand_side_chained_operator(
                spec_operator_metadata(operator_at(ts, m)),
                precedence_at(ts, i),
            )
        }),
    decreases ts.len() - i, 1int,
{
    assert(ts[i].value is Operator && plain_binary_operator(ts[i].value->Operator_0));
    let o = operator_at(ts, i);
    let p = precedence_at(ts, i);
    lemma_associativity_by_level(o);
    lemma_chain_operand(ts, i + 1);
    let (m1, first) = sp_operand(ts, i + 1);
    assert(clamp(m1, i + 1, ts.len() as int) == i + 2);
    lemma_chain_binary_rhs(ts, i + 2, first, p);
    let (m2, rhs) = sp_binary_rhs(ts, i + 2, first, p);
    let (m, t) = sp_binary_operator(ts, i, lhs);
    assert(m == m2);
    assert(t.value == SExpression::BinaryOperator { op: o, lhs: Box::new(lhs), rhs: Box::new(rhs) });
    assert(t.start == ts[i].start);
    assert(t.end == ts[i].end);
    let marks = token_marks(ts);
    assert(in_order(first) == seq![marks[i + 1]]);
    assert(marks[i] == (SpecTokenValue::Operator(o), ts[i].start, ts[i].end));
    assert(in_order(t) == in_order(lhs) + seq![marks[i]] + in_order(rhs));
    assert(marks.subrange(i, m) =~= seq![marks[i]] + seq![marks[i + 1]] + marks.subrange(i + 2, m));
    assert(in_order(t) =~= in_order(lhs) + marks.subrange(i, m));
}

proof fn lemma_chain_binary_rhs(ts: Seq<SpecToken>, i: int, rhs: SNode<SExpression>, p: u16)
    requires
        is_operator_chain(ts),
        1 <= i <= ts.len(),
        i % 2 == 1,
        p <= 1000,
        respects_precedence(rhs),
        may_take_left(ts, i, rhs),
        rhs.value is BinaryOperator ==> spec_is_right_hand_side_chained_operator(
            spec_operator_metadata(top_operator(rhs)),
            p,
        ),
    ensures
        ({
            let (m, t) = sp_binary_rhs(ts, i, rhs, p);
            &&& i <= m <= ts.len()
            &&& m % 2 == 1
            &&& in_order(t) == in_order(rhs) + token_marks(ts).subrange(i, m)
            &&& respects_precedence(t)
            &&& t.value is BinaryOperator ==> spec_is_right_hand_side_chained_operator(
                spec_operator_metadata(top_operator(t)),
                p,
            )
            &&& m < ts.len() ==> !spec_is_right_hand_side_chained_operator(
                spec_operator_metadata(operator_at(ts, m)),
                p,
            )
        }),
    decreases ts.len() - i, 3int,
{
    let marks = token_marks(ts);
    if i < ts.len() {
        assert(ts[i].value is Operator && plain_binary_operator(ts[i].value->Operator_0));
        let q = operator_at(ts, i);
        lemma_associativity_by_level(q);
        if spec_is_right_hand_side_chained_operator(spec_operator_metadata(q), p) {
            let pq = precedence_at(ts, i);
            let min: u16 = if pq > p {
                (p + 1) as u16
            } else {
                p
            };
            lemma_chain_sub_expression(ts, i, rhs, min);
            let (m1, next) = sp_sub_expression(ts, i, rhs, min);
            lemma_associativity_by_level(top_operator(next));
            if m1 < ts.len() {
                lemma_associativity_by_level(operator_at(ts, m1));
            }
            lemma_chain_binary_rhs(ts, m1, next, p);
            let (m, t) = sp_binary_rhs(ts, m1, next, p);
            assert(sp_binary_rhs(ts, i, rhs, p) == (m, t));
            assert(marks.subrange(i, m) =~= marks.subrange(i, m1) + marks.subrange(m1, m));
            assert(in_order(t) =~= in_order(rhs) + marks.subrange(i, m));
        } else {
            assert(marks.subrange(i, i) =~= Seq::<(SpecTokenValue, Position, Position)>::empty());
            assert(in_order(rhs) + marks.subrange(i, i) =~= in_order(rhs));
        }
    } else {
        assert(marks.subrange(i, i) =~= Seq::<(SpecTokenValue, Position, Position)>::empty());
        assert(in_order(rhs) + marks.subrange(i, i) =~= in_order(rhs));
    }
}

proof fn lemma_chain_sub_expression(ts: Seq<SpecToken>, i: int, lhs: SNode<SExpression>, min: u16)
    requires
        is_operator_chain(ts),
        1 <= i <= ts.len(),
        i % 2 == 1,
        respects_precedence(lhs),
        may_take_left(ts, i, lhs),
    ensures
        ({
            let (m, t) = sp_sub_expression(ts, i, lhs, min);
            &&& i <= m <= ts.len()
            &&& m % 2 == 1
            &&& in_order(t) == in_order(lhs) + token_marks(ts).subrange(i, m)
            &&& respects_precedence(t)
            &&& m < ts.len() ==> precedence_at(ts, m) < min
            &&& m == i ==> t == lhs
            &&& m > i ==> t.value is BinaryOperator && spec_operator_metadata(top_operator(t)).precedence >= min
                && plain_binary_operator(top_operator(t))
            &&& i < ts.len() && precedence_at(ts, i) >= min ==> m > i
        }),
    decreases ts.len() - i, 2int,
{
    let marks = token_marks(ts);
    if i < ts.len() {
        assert(ts[i].value is Operator && plain_binary_operator(ts[i].value->Operator_0));
    }
    if binds_at_least(ts, i, min) {
        lemma_chain_binary_operator(ts, i, lhs);
        let (m1, next) = sp_binary_operator(ts, i, lhs);
        lemma_chain_sub_expression(ts, m1, next, min);
        let (m, t) = sp_sub_expression(ts, m1, next, min);
        assert(sp_sub_expression(ts, i, lhs, min) == (m, t));
        assert(marks.subrange(i, m) =~= marks.subrange(i, m1) + marks.subrange(m1, m));
        assert(in_order(t) =~= in_order(lhs) + marks.subrange(i, m));
    } else {
        assert(marks.subrange(i, i) =~= Seq::<(SpecTokenValue, Position, Position)>::empty());
        assert(in_order(lhs) + marks.subrange(i, i) =~= in_order(lhs));
    }
}

/// Operator precedence: a run of operands (integers and symbols) joined by
/// plain binary operators is read whole, into a tree that holds every operand
/// and operator once, in the order written, each with its span, and whose
/// every operator binds as its precedence and associativity say.
pub proof fn lemma_operator_chain(ts: Seq<SpecToken>)
    requires
        is_operator_chain(ts),
    ensures
        sp_expression(ts, 0).0 == ts.len(),
        in_order(sp_expression(ts, 0).1) == token_marks(ts),
        respects_precedence(sp_expression(ts, 0).1),
{
    let marks = token_marks(ts);
    lemma_chain_operand(ts, 0);
    let (m0, first) = sp_operand(ts, 0);
    assert(clamp(m0, 0, ts.len() as int) == 1);
    lemma_chain_sub_expression(ts, 1, first, 0);
    assert(marks =~= seq![marks[0]] + marks.subrange(1, ts.len() as int));
}

/// Three integers and two plain binary operators, `a o1 b o2 c`, are read as
/// `a o1 (b o2 c)` when `o2` stands at a higher level than `o1`, or both are
/// `??`; otherwise as `(a o1 b) o2 c`. So `a + b / c` is `a + (b / c)`, and
/// `a / b + c` is `(a / b) + c`.
pub proof fn lemma_grouping_by_level(ts: Seq<SpecToken>, o1: Operator, o2: Operator)
    requires
        ts.len() == 5,
        ts[0].value is Int,
        ts[2].value is Int,
        ts[4].value is Int,
        ts[1].value == SpecTokenValue::Operator(o1),
        ts[3].value == SpecTokenValue::Operator(o2),
        plain_binary_operator(o1),
        plain_binary_operator(o2),
    ensures
        sp_expression(ts, 0) == (
            5int,
            if binding_level(o2) > binding_level(o1) || (o1 == Operator::OptionalCoalesce && o2
                == Operator::OptionalCoalesce) {
                binary_node(
                    o1,
                    int_node(ts[0]),
                    binary_node(o2, int_node(ts[2]), int_node(ts[4]), ts[3]),
                    ts[1],
                )
            } else {
                binary_node(
                    o2,
                    binary_node(o1, int_node(ts[0]), int_node(ts[2]), ts[1]),
                    int_node(ts[4]),
                    ts[3],
                )
            },
        ),
{
    lemma_precedence(ts, o1, o2);
    lemma_operator_levels(o1, o2);
    lemma_operator_levels(o2, o1);
}

} // verus!
