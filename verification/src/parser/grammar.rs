//! What the parser makes of a token sequence, as mathematics. Each function
//! reads from index `i` of the tokens and yields the index after what it read,
//! and the node it built.

use vstd::prelude::*;

use super::nodes::{
    snode, SExpression, SIfBranch, SLValue, SNode, SStatement, SStringSegment,
    STableDefinitionElement, STableUnpackElement,
};
use super::operators::{
    spec_is_binary_operator_with_greater_or_equal_precedence,
    spec_is_right_hand_side_chained_operator, spec_operator_metadata, spec_token_metadata,
    UNARY_PRECEDENCE,
};

use crate::common::{Keyword, Operator, Position, SpecialCharacter};
use crate::lexer::{SpecToken, SpecTokenValue};

verus! {

/// Where a block of statements ends.
#[derive(Debug, Clone, Copy, PartialEq, Eq, Structural)]
pub enum BlockStop {
    /// At the end of the tokens.
    EndOfInput,
    /// Before `end`.
    End,
    /// Before `end`, `else` or `elseif`.
    IfBody,
}

/// The tokens left from index `i` on.
pub open spec fn rem(ts: Seq<SpecToken>, i: int) -> nat {
    if i <= ts.len() {
        (ts.len() - i) as nat
    } else {
        0
    }
}

pub open spec fn tok(ts: Seq<SpecToken>, i: int) -> Option<SpecTokenValue> {
    if 0 <= i < ts.len() {
        Some(ts[i].value)
    } else {
        None
    }
}

pub open spec fn next_is(ts: Seq<SpecToken>, i: int, v: SpecTokenValue) -> bool {
    tok(ts, i) == Some(v)
}

pub open spec fn kw(k: Keyword) -> SpecTokenValue {
    SpecTokenValue::Keyword(k)
}

pub open spec fn sc(c: SpecialCharacter) -> SpecTokenValue {
    SpecTokenValue::SpecialCharacter(c)
}

pub open spec fn op(o: Operator) -> SpecTokenValue {
    SpecTokenValue::Operator(o)
}

/// The index after consuming a token at index `i`, if there is one.
pub open spec fn after_consume(ts: Seq<SpecToken>, i: int) -> int {
    if 0 <= i < ts.len() {
        i + 1
    } else {
        i
    }
}

/// Where a node that starts at index `i` starts: where the token there
/// starts, else where the token before ends, else at the first position.
pub open spec fn start_at(ts: Seq<SpecToken>, i: int) -> Position {
    if 0 <= i < ts.len() {
        ts[i].start
    } else if 1 <= i <= ts.len() {
        ts[i - 1].end
    } else {
        Position { line: 1, column: 1 }
    }
}

/// Where a node that ends before index `i` ends: where the token before ends,
/// else at the first position.
pub open spec fn end_at(ts: Seq<SpecToken>, i: int) -> Position {
    if 1 <= i <= ts.len() {
        ts[i - 1].end
    } else {
        Position { line: 1, column: 1 }
    }
}

/// `m`, when it lies between `lo` and `hi`; else `lo`.
pub open spec fn clamp(m: int, lo: int, hi: int) -> int {
    if lo <= m <= hi {
        m
    } else {
        lo
    }
}

pub open spec fn expr_error(message: Seq<char>, start: Position, end: Position) -> SNode<SExpression> {
    snode(SExpression::SyntaxError(message), start, end)
}

pub open spec fn block_continues(ts: Seq<SpecToken>, i: int, stop: BlockStop) -> bool {
    0 <= i < ts.len() && match stop {
        BlockStop::EndOfInput => true,
        BlockStop::End => ts[i].value != kw(Keyword::End),
        BlockStop::IfBody => !(ts[i].value == kw(Keyword::End) || ts[i].value == kw(Keyword::Else)
            || ts[i].value == kw(Keyword::ElseIf)),
    }
}

pub open spec fn is_definition_keyword(v: SpecTokenValue) -> bool {
    v == kw(Keyword::Constant) || v == kw(Keyword::Mutable) || v == kw(Keyword::Export)
}

/// Statements up to where the block stops, after the statements `acc`.
pub open spec fn sp_block(ts: Seq<SpecToken>, i: int, stop: BlockStop, acc: Seq<SNode<SStatement>>) -> (
    int,
    Seq<SNode<SStatement>>,
)
    decreases rem(ts, i), 40nat,
{
    if block_continues(ts, i, stop) {
        let (m, st) = sp_statement(ts, i);
        if i < m <= ts.len() {
            sp_block(ts, m, stop, acc.push(st))
        } else {
            (m, acc.push(st))
        }
    } else {
        (i, acc)
    }
}

/// A statement: a definition, a `return`, a `break`, or an expression.
pub open spec fn sp_statement(ts: Seq<SpecToken>, i: int) -> (int, SNode<SStatement>)
    decreases rem(ts, i), 39nat,
{
    if tok(ts, i) is Some && is_definition_keyword(tok(ts, i)->0) {
        sp_definition(ts, i)
    } else if next_is(ts, i, kw(Keyword::Return)) {
        sp_return(ts, i)
    } else if next_is(ts, i, kw(Keyword::Break)) {
        sp_break(ts, i)
    } else {
        let (m, e) = sp_expression(ts, i);
        (m, snode(SStatement::Expression(e.value), e.start, e.end))
    }
}

/// `def`, `mut` or `export`, variables, `=`, values. `def` and `export`
/// define constants.
pub open spec fn sp_definition(ts: Seq<SpecToken>, i: int) -> (int, SNode<SStatement>)
    decreases rem(ts, i), 38nat,
{
    let start = start_at(ts, i);
    let j = after_consume(ts, i);
    if tok(ts, i) is Some && is_definition_keyword(tok(ts, i)->0) {
        let keyword = tok(ts, i)->0;
        let (m1, lhs) = sp_lvalue_list(ts, j, Seq::empty());
        let m1 = clamp(m1, j, ts.len() as int);
        if next_is(ts, m1, op(Operator::Assignment)) {
            let (m2, rhs) = sp_expression_list(ts, m1 + 1, Seq::empty());
            (
                m2,
                snode(
                    SStatement::Definition {
                        is_constant: keyword == kw(Keyword::Constant) || keyword == kw(
                            Keyword::Export,
                        ),
                        is_export: keyword == kw(Keyword::Export),
                        lhs,
                        rhs,
                    },
                    start,
                    end_at(ts, m2),
                ),
            )
        } else {
            (
                m1,
                snode(
                    SStatement::SyntaxError("Expected '=' following definition"@),
                    start,
                    end_at(ts, m1),
                ),
            )
        }
    } else {
        (
            j,
            snode(
                SStatement::SyntaxError("Expected 'def', 'mut' or 'export'"@),
                start,
                end_at(ts, j),
            ),
        )
    }
}

pub open spec fn sp_return(ts: Seq<SpecToken>, i: int) -> (int, SNode<SStatement>)
    decreases rem(ts, i), 38nat,
{
    let start = start_at(ts, i);
    let j = after_consume(ts, i);
    if !next_is(ts, i, kw(Keyword::Return)) {
        (j, snode(SStatement::SyntaxError("Expected 'return' keyword"@), start, end_at(ts, j)))
    } else {
        let (m, e) = sp_expression(ts, j);
        (m, snode(SStatement::Return(e), start, end_at(ts, m)))
    }
}

pub open spec fn sp_break(ts: Seq<SpecToken>, i: int) -> (int, SNode<SStatement>)
    decreases rem(ts, i), 38nat,
{
    let start = start_at(ts, i);
    let j = after_consume(ts, i);
    if !next_is(ts, i, kw(Keyword::Break)) {
        (j, snode(SStatement::SyntaxError("Expected 'break' keyword"@), start, end_at(ts, j)))
    } else {
        (j, snode(SStatement::Break, start, end_at(ts, j)))
    }
}

/// Variables separated by commas, after the variables `acc`.
pub open spec fn sp_lvalue_list(ts: Seq<SpecToken>, i: int, acc: Seq<SNode<SLValue>>) -> (
    int,
    Seq<SNode<SLValue>>,
)
    decreases rem(ts, i), 37nat,
{
    let (m, lv) = sp_lvalue(ts, i);
    let m = clamp(m, i, ts.len() as int);
    if next_is(ts, m, sc(SpecialCharacter::Comma)) {
        sp_lvalue_list(ts, m + 1, acc.push(lv))
    } else {
        (m, acc.push(lv))
    }
}

/// Expressions separated by commas, after the expressions `acc`.
pub open spec fn sp_expression_list(
    ts: Seq<SpecToken>,
    i: int,
    acc: Seq<SNode<SExpression>>,
) -> (int, Seq<SNode<SExpression>>)
    decreases rem(ts, i), 37nat,
{
    let (m, e) = sp_expression(ts, i);
    let m = clamp(m, i, ts.len() as int);
    if next_is(ts, m, sc(SpecialCharacter::Comma)) {
        sp_expression_list(ts, m + 1, acc.push(e))
    } else {
        (m, acc.push(e))
    }
}

/// A variable: a symbol or a table unpack.
pub open spec fn sp_lvalue(ts: Seq<SpecToken>, i: int) -> (int, SNode<SLValue>)
    decreases rem(ts, i), 35nat,
{
    match tok(ts, i) {
        Some(SpecTokenValue::Symbol(symbol)) => (
            i + 1,
            snode(SLValue::Symbol(symbol), start_at(ts, i), end_at(ts, i + 1)),
        ),
        Some(SpecTokenValue::SpecialCharacter(SpecialCharacter::OpenCurlyBracket)) => sp_table_unpack(
            ts,
            i,
        ),
        _ => {
            let j = after_consume(ts, i);
            (
                j,
                snode(
                    SLValue::SyntaxError("Expected variable name or table unpack"@),
                    start_at(ts, i),
                    end_at(ts, j),
                ),
            )
        },
    }
}

/// `{`, unpack elements separated by commas (a trailing comma allowed), `}`.
pub open spec fn sp_table_unpack(ts: Seq<SpecToken>, i: int) -> (int, SNode<SLValue>)
    decreases rem(ts, i), 34nat,
{
    let start = start_at(ts, i);
    let j = after_consume(ts, i);
    if !next_is(ts, i, sc(SpecialCharacter::OpenCurlyBracket)) {
        (
            j,
            snode(
                SLValue::SyntaxError("Expected '{' to open table unpack"@),
                start,
                end_at(ts, j),
            ),
        )
    } else {
        let (m, elements) = sp_unpack_elements(ts, j, 1, Seq::empty());
        let m = clamp(m, j, ts.len() as int);
        if next_is(ts, m, sc(SpecialCharacter::CloseCurlyBracket)) {
            (m + 1, snode(SLValue::TableUnpack { elements }, start, end_at(ts, m + 1)))
        } else {
            (
                m,
                snode(
                    SLValue::SyntaxError("Expected '}' to close table unpack"@),
                    start,
                    end_at(ts, m),
                ),
            )
        }
    }
}

/// Unpack elements up to `}`, separated by commas, after the elements `acc`;
/// `counter` is the index that the next element without a key takes.
pub open spec fn sp_unpack_elements(
    ts: Seq<SpecToken>,
    i: int,
    counter: int,
    acc: Seq<SNode<STableUnpackElement>>,
) -> (int, Seq<SNode<STableUnpackElement>>)
    decreases rem(ts, i), 37nat,
{
    if next_is(ts, i, sc(SpecialCharacter::CloseCurlyBracket)) {
        (i, acc)
    } else {
        let (m, element, next_counter) = sp_unpack_element(ts, i, counter);
        let m = clamp(m, i, ts.len() as int);
        if next_is(ts, m, sc(SpecialCharacter::Comma)) {
            sp_unpack_elements(ts, m + 1, next_counter, acc.push(element))
        } else {
            (m, acc.push(element))
        }
    }
}

/// The key of a `.name` element: the name as a string.
pub open spec fn name_key(name: Seq<char>, start: Position, end: Position) -> SNode<SExpression> {
    snode(
        SExpression::String {
            segments: seq![snode(SStringSegment::Valid(name), start, end)],
            arguments: Seq::empty(),
        },
        start,
        end,
    )
}

/// An unpack element: `.name` (or `.name = variable`), `[key] = variable`,
/// or a variable that takes the next numeric key.
pub open spec fn sp_unpack_element(ts: Seq<SpecToken>, i: int, counter: int) -> (
    int,
    SNode<STableUnpackElement>,
    int,
)
    decreases rem(ts, i), 36nat,
{
    let start = start_at(ts, i);
    match tok(ts, i) {
        Some(SpecTokenValue::Operator(Operator::Index)) => {
            let j = i + 1;
            match tok(ts, j) {
                Some(SpecTokenValue::Symbol(name)) => {
                    let k = j + 1;
                    let key = name_key(name, start, end_at(ts, k));
                    if next_is(ts, k, op(Operator::Assignment)) {
                        let (m, variable) = sp_lvalue(ts, k + 1);
                        (
                            m,
                            snode(STableUnpackElement::Valid { key, variable }, start, end_at(ts, m)),
                            counter,
                        )
                    } else {
                        let variable = snode(SLValue::Symbol(name), start, end_at(ts, k));
                        (
                            k,
                            snode(STableUnpackElement::Valid { key, variable }, start, end_at(ts, k)),
                            counter,
                        )
                    }
                },
                _ => (
                    j,
                    snode(
                        STableUnpackElement::SyntaxError(
                            "Expected key name after '.' in table unpack"@,
                        ),
                        start,
                        end_at(ts, j),
                    ),
                    counter,
                ),
            }
        },
        Some(SpecTokenValue::SpecialCharacter(SpecialCharacter::OpenSquareBracket)) => {
            let (m, key) = sp_expression(ts, i + 1);
            let m = clamp(m, i + 1, ts.len() as int);
            if !next_is(ts, m, sc(SpecialCharacter::CloseSquareBracket)) {
                (
                    m,
                    snode(
                        STableUnpackElement::SyntaxError(
                            "Expected ']' to close table unpack index expression"@,
                        ),
                        start,
                        end_at(ts, m),
                    ),
                    counter,
                )
            } else if !next_is(ts, m + 1, op(Operator::Assignment)) {
                (
                    m + 1,
                    snode(
                        STableUnpackElement::SyntaxError(
                            "Expected '=' after table unpack index expression"@,
                        ),
                        start,
                        end_at(ts, m + 1),
                    ),
                    counter,
                )
            } else {
                let (m2, variable) = sp_lvalue(ts, m + 2);
                (
                    m2,
                    snode(STableUnpackElement::Valid { key, variable }, start, end_at(ts, m2)),
                    counter,
                )
            }
        },
        _ => {
            let (m, variable) = sp_lvalue(ts, i);
            let key = snode(SExpression::Int(counter as i64), start, end_at(ts, m));
            (
                m,
                snode(STableUnpackElement::Valid { key, variable }, start, end_at(ts, m)),
                counter + 1,
            )
        },
    }
}

/// `{`, definition elements separated by commas (a trailing comma allowed), `}`.
pub open spec fn sp_table_definition(ts: Seq<SpecToken>, i: int) -> (int, SNode<SExpression>)
    decreases rem(ts, i), 33nat,
{
    let start = start_at(ts, i);
    let j = after_consume(ts, i);
    if !next_is(ts, i, sc(SpecialCharacter::OpenCurlyBracket)) {
        (j, expr_error("Expected '{' to open table definition"@, start, end_at(ts, j)))
    } else {
        let (m, elements) = sp_def_elements(ts, j, 1, Seq::empty());
        let m = clamp(m, j, ts.len() as int);
        if next_is(ts, m, sc(SpecialCharacter::CloseCurlyBracket)) {
            (m + 1, snode(SExpression::TableDefinition { elements }, start, end_at(ts, m + 1)))
        } else {
            (m, expr_error("Expected '}' to close table definition"@, start, end_at(ts, m)))
        }
    }
}

pub open spec fn sp_def_elements(
    ts: Seq<SpecToken>,
    i: int,
    counter: int,
    acc: Seq<SNode<STableDefinitionElement>>,
) -> (int, Seq<SNode<STableDefinitionElement>>)
    decreases rem(ts, i), 37nat,
{
    if next_is(ts, i, sc(SpecialCharacter::CloseCurlyBracket)) {
        (i, acc)
    } else {
        let (m, element, next_counter) = sp_def_element(ts, i, counter);
        let m = clamp(m, i, ts.len() as int);
        if next_is(ts, m, sc(SpecialCharacter::Comma)) {
            sp_def_elements(ts, m + 1, next_counter, acc.push(element))
        } else {
            (m, acc.push(element))
        }
    }
}

/// A definition element: `.name` (or `.name = value`), `[key] = value`, or a
/// value that takes the next numeric key.
pub open spec fn sp_def_element(ts: Seq<SpecToken>, i: int, counter: int) -> (
    int,
    SNode<STableDefinitionElement>,
    int,
)
    decreases rem(ts, i), 36nat,
{
    let start = start_at(ts, i);
    match tok(ts, i) {
        Some(SpecTokenValue::Operator(Operator::Index)) => {
            let j = i + 1;
            match tok(ts, j) {
                Some(SpecTokenValue::Symbol(name)) => {
                    let k = j + 1;
                    let key = name_key(name, start, end_at(ts, k));
                    if next_is(ts, k, op(Operator::Assignment)) {
                        let (m, value) = sp_expression(ts, k + 1);
                        (
                            m,
                            snode(STableDefinitionElement::Valid { key, value }, start, end_at(ts, m)),
                            counter,
                        )
                    } else {
                        let value = snode(SExpression::Symbol(name), start, end_at(ts, k));
                        (
                            k,
                            snode(STableDefinitionElement::Valid { key, value }, start, end_at(ts, k)),
                            counter,
                        )
                    }
                },
                _ => (
                    j,
                    snode(
                        STableDefinitionElement::SyntaxError(
                            "Expected key name after '.' in table definition"@,
                        ),
                        start,
                        end_at(ts, j),
                    ),
                    counter,
                ),
            }
        },
        Some(SpecTokenValue::SpecialCharacter(SpecialCharacter::OpenSquareBracket)) => {
            let (m, key) = sp_expression(ts, i + 1);
            let m = clamp(m, i + 1, ts.len() as int);
            if !next_is(ts, m, sc(SpecialCharacter::CloseSquareBracket)) {
                (
                    m,
                    snode(
                        STableDefinitionElement::SyntaxError(
                            "Expected ']' to close table definition index expression"@,
                        ),
                        start,
                        end_at(ts, m),
                    ),
                    counter,
                )
            } else if !next_is(ts, m + 1, op(Operator::Assignment)) {
                (
                    m + 1,
                    snode(
                        STableDefinitionElement::SyntaxError(
                            "Expected '=' after table definition index expression"@,
                        ),
                        start,
                        end_at(ts, m + 1),
                    ),
                    counter,
                )
            } else {
                let (m2, value) = sp_expression(ts, m + 2);
                (
                    m2,
                    snode(STableDefinitionElement::Valid { key, value }, start, end_at(ts, m2)),
                    counter,
                )
            }
        },
        _ => {
            let (m, value) = sp_expression(ts, i);
            let key = snode(SExpression::Int(counter as i64), start, end_at(ts, m));
            (
                m,
                snode(STableDefinitionElement::Valid { key, value }, start, end_at(ts, m)),
                counter + 1,
            )
        },
    }
}

/// An operand, then the binary operators, calls and indexes that follow it.
pub open spec fn sp_expression(ts: Seq<SpecToken>, i: int) -> (int, SNode<SExpression>)
    decreases rem(ts, i), 35nat,
{
    let (m, lhs) = sp_operand(ts, i);
    if lhs.value is SyntaxError {
        (m, lhs)
    } else {
        sp_sub_expression(ts, clamp(m, i, ts.len() as int), lhs, 0)
    }
}

pub open spec fn binds_at_least(ts: Seq<SpecToken>, i: int, min_precedence: u16) -> bool {
    tok(ts, i) is Some && spec_is_binary_operator_with_greater_or_equal_precedence(
        tok(ts, i)->0,
        min_precedence,
    )
}

/// Applies to `lhs` each binary operator, call or index that follows and
/// binds at least as tightly as `min_precedence`.
pub open spec fn sp_sub_expression(
    ts: Seq<SpecToken>,
    i: int,
    lhs: SNode<SExpression>,
    min_precedence: u16,
) -> (int, SNode<SExpression>)
    decreases rem(ts, i), 34nat,
{
    if binds_at_least(ts, i, min_precedence) {
        let (m, next) = if next_is(ts, i, sc(SpecialCharacter::OpenBracket)) {
            sp_call(ts, i, lhs, false)
        } else if next_is(ts, i, sc(SpecialCharacter::OpenSquareBracket)) {
            sp_index_expression(ts, i, lhs, false)
        } else if next_is(ts, i, op(Operator::OptionalIndex)) && next_is(
            ts,
            i + 1,
            sc(SpecialCharacter::OpenBracket),
        ) {
            sp_call(ts, i + 1, lhs, true)
        } else if next_is(ts, i, op(Operator::OptionalIndex)) && next_is(
            ts,
            i + 1,
            sc(SpecialCharacter::OpenSquareBracket),
        ) {
            sp_index_expression(ts, i + 1, lhs, true)
        } else {
            sp_binary_operator(ts, i, lhs)
        };
        if i < m <= ts.len() {
            sp_sub_expression(ts, m, next, min_precedence)
        } else {
            (m, next)
        }
    } else {
        (i, lhs)
    }
}

/// Whether `lhs` may stand on the left of `=`: a symbol or an index (not an
/// optional one).
pub open spec fn is_assignable(lhs: SNode<SExpression>) -> bool {
    lhs.value is Symbol || (lhs.value is BinaryOperator && lhs.value->BinaryOperator_op
        == Operator::Index)
}

/// A binary operator and its right-hand side. The node spans the operator.
pub open spec fn sp_binary_operator(ts: Seq<SpecToken>, i: int, lhs: SNode<SExpression>) -> (
    int,
    SNode<SExpression>,
)
    decreases rem(ts, i), 33nat,
{
    let start = start_at(ts, i);
    let j = after_consume(ts, i);
    let end = end_at(ts, j);
    match tok(ts, i) {
        Some(SpecTokenValue::Operator(o)) => {
            let precedence = spec_operator_metadata(o).precedence;
            let (m, first) = sp_operand(ts, j);
            let m = clamp(m, j, ts.len() as int);
            let (m2, rhs) = sp_binary_rhs(ts, m, first, precedence);
            match o {
                Operator::Assignment => if is_assignable(lhs) {
                    (
                        m2,
                        snode(
                            SExpression::BinaryOperator {
                                op: o,
                                lhs: Box::new(lhs),
                                rhs: Box::new(rhs),
                            },
                            start,
                            end,
                        ),
                    )
                } else {
                    (
                        m2,
                        expr_error(
                            "Expected symbol or index expression (without optional chaining) on left side of assignment operator"@,
                            lhs.start,
                            lhs.end,
                        ),
                    )
                },
                Operator::Index | Operator::OptionalIndex => match rhs.value {
                    SExpression::Symbol(name) => (
                        m2,
                        snode(
                            SExpression::BinaryOperator {
                                op: o,
                                lhs: Box::new(lhs),
                                rhs: Box::new(name_key(name, rhs.start, rhs.end)),
                            },
                            start,
                            end,
                        ),
                    ),
                    _ => (
                        m2,
                        expr_error(
                            "Expected symbol on right-hand side of index operator"@,
                            rhs.start,
                            rhs.end,
                        ),
                    ),
                },
                _ => (
                    m2,
                    snode(
                        SExpression::BinaryOperator { op: o, lhs: Box::new(lhs), rhs: Box::new(rhs) },
                        start,
                        end,
                    ),
                ),
            }
        },
        _ => (j, expr_error("Expected binary operator"@, start, end)),
    }
}

/// Extends the right-hand side of an operator of the given precedence while
/// the next operator chains onto it.
pub open spec fn sp_binary_rhs(
    ts: Seq<SpecToken>,
    i: int,
    rhs: SNode<SExpression>,
    precedence: u16,
) -> (int, SNode<SExpression>)
    decreases rem(ts, i), 35nat,
{
    if tok(ts, i) is Some && spec_token_metadata(tok(ts, i)->0) is Some
        && spec_is_right_hand_side_chained_operator(
        spec_token_metadata(tok(ts, i)->0)->0,
        precedence,
    ) {
        let next_precedence = spec_token_metadata(tok(ts, i)->0)->0.precedence;
        let min = if next_precedence > precedence {
            (precedence + 1) as u16
        } else {
            precedence
        };
        let (m, next) = sp_sub_expression(ts, i, rhs, min);
        if i < m <= ts.len() {
            sp_binary_rhs(ts, m, next, precedence)
        } else {
            (m, next)
        }
    } else {
        (i, rhs)
    }
}

/// A unary operator (or `-`) and its operand. The node spans the operator.
pub open spec fn sp_unary_operator(ts: Seq<SpecToken>, i: int) -> (int, SNode<SExpression>)
    decreases rem(ts, i), 33nat,
{
    let start = start_at(ts, i);
    let j = after_consume(ts, i);
    let end = end_at(ts, j);
    match tok(ts, i) {
        Some(SpecTokenValue::Operator(o)) => if spec_operator_metadata(o).is_unary || o
            == Operator::Subtract {
            let (m, operand) = sp_operand(ts, j);
            let m = clamp(m, j, ts.len() as int);
            let (m2, rhs) = sp_sub_expression(ts, m, operand, UNARY_PRECEDENCE);
            (m2, snode(SExpression::UnaryOperator { op: o, rhs: Box::new(rhs) }, start, end))
        } else {
            (j, expr_error("Expected operand or unary operator"@, start, end))
        },
        _ => (j, expr_error("Expected operand or unary operator"@, start, end)),
    }
}

pub open spec fn unexpected_character_message(c: char) -> Seq<char> {
    "Unexpected character '"@.push(c) + "'"@
}

pub open spec fn malformed_number_message(message: Seq<char>) -> Seq<char> {
    "Malformed number: "@ + message
}

/// A literal, a symbol, a bracketed expression, a unary operation, a table,
/// a `do` block, a function, an `if`, a `for`, or a string.
pub open spec fn sp_operand(ts: Seq<SpecToken>, i: int) -> (int, SNode<SExpression>)
    decreases rem(ts, i), 34nat,
{
    let start = start_at(ts, i);
    let j = after_consume(ts, i);
    match tok(ts, i) {
        Some(SpecTokenValue::Operator(_)) => sp_unary_operator(ts, i),
        Some(SpecTokenValue::SpecialCharacter(SpecialCharacter::OpenBracket)) => {
            let (m, inner) = sp_expression(ts, j);
            let m = clamp(m, j, ts.len() as int);
            if next_is(ts, m, sc(SpecialCharacter::CloseBracket)) {
                (m + 1, inner)
            } else {
                (m, expr_error("Expected ')' to close inner expression"@, start, end_at(ts, m)))
            }
        },
        Some(SpecTokenValue::SpecialCharacter(SpecialCharacter::OpenCurlyBracket)) => sp_table_definition(
            ts,
            i,
        ),
        Some(SpecTokenValue::SpecialCharacter(_)) => (
            j,
            expr_error("Unexpected special character in expression"@, start, end_at(ts, j)),
        ),
        Some(SpecTokenValue::Keyword(Keyword::Do)) => {
            let (m, block) = sp_block(ts, j, BlockStop::End, Seq::empty());
            let m = clamp(m, j, ts.len() as int);
            if next_is(ts, m, kw(Keyword::End)) {
                (m + 1, snode(SExpression::Block(block), start, end_at(ts, m + 1)))
            } else {
                (m, expr_error("Expected 'end' to close 'do' block"@, start, end_at(ts, m)))
            }
        },
        Some(SpecTokenValue::Keyword(Keyword::Function)) => sp_function_definition(ts, i),
        Some(SpecTokenValue::Keyword(Keyword::If)) => sp_if(ts, i),
        Some(SpecTokenValue::Keyword(Keyword::For)) => sp_for(ts, i),
        Some(SpecTokenValue::Keyword(_)) => (
            j,
            expr_error("Unexpected keyword in expression"@, start, end_at(ts, j)),
        ),
        Some(SpecTokenValue::Nil) => (j, snode(SExpression::Nil, start, end_at(ts, j))),
        Some(SpecTokenValue::Bool(b)) => (j, snode(SExpression::Bool(b), start, end_at(ts, j))),
        Some(SpecTokenValue::Int(v)) => (j, snode(SExpression::Int(v), start, end_at(ts, j))),
        Some(SpecTokenValue::Double(t)) => (j, snode(SExpression::Double(t), start, end_at(ts, j))),
        Some(SpecTokenValue::String(_))
        | Some(SpecTokenValue::MalformedString(_))
        | Some(SpecTokenValue::FormatStringStart(_))
        | Some(SpecTokenValue::FormatStringMiddle(_))
        | Some(SpecTokenValue::FormatStringEnd(_)) => sp_string(ts, i),
        Some(SpecTokenValue::Symbol(name)) => (
            j,
            snode(SExpression::Symbol(name), start, end_at(ts, j)),
        ),
        Some(SpecTokenValue::Comment(_)) => (
            j,
            expr_error(
                "Comments were not stripped from parser tokens (this should not happen!)"@,
                start,
                end_at(ts, j),
            ),
        ),
        Some(SpecTokenValue::UnexpectedCharacter(c)) => (
            j,
            expr_error(unexpected_character_message(c), start, end_at(ts, j)),
        ),
        Some(SpecTokenValue::MalformedNumber(message)) => (
            j,
            expr_error(malformed_number_message(message), start, end_at(ts, j)),
        ),
        None => (i, expr_error("Expression ran off the end of the program"@, start, end_at(ts, i))),
    }
}

/// A string: a whole string literal, or a format string.
pub open spec fn sp_string(ts: Seq<SpecToken>, i: int) -> (int, SNode<SExpression>)
    decreases rem(ts, i), 33nat,
{
    let start = start_at(ts, i);
    let j = after_consume(ts, i);
    match tok(ts, i) {
        Some(SpecTokenValue::String(value)) => (
            j,
            snode(
                SExpression::String {
                    segments: seq![snode(SStringSegment::Valid(value), start, end_at(ts, j))],
                    arguments: Seq::empty(),
                },
                start,
                end_at(ts, j),
            ),
        ),
        Some(SpecTokenValue::MalformedString(message)) => (
            j,
            expr_error(message, start, end_at(ts, j)),
        ),
        Some(SpecTokenValue::FormatStringStart(_)) => sp_format_string(
            ts,
            i,
            start,
            Seq::empty(),
            Seq::empty(),
        ),
        Some(SpecTokenValue::FormatStringMiddle(_))
        | Some(SpecTokenValue::FormatStringEnd(_)) => (
            j,
            expr_error(
                "Found middle/end format string segment as start of string expression (this should never happen!)"@,
                start,
                end_at(ts, j),
            ),
        ),
        _ => (j, expr_error("Expected string"@, start, end_at(ts, j))),
    }
}

/// The segments of a format string and the expressions in its holes, after
/// the segments and arguments read so far. Every segment node starts where
/// the format string starts. A malformed string (one that runs off the end
/// of the text) ends the format string as a malformed segment.
pub open spec fn sp_format_string(
    ts: Seq<SpecToken>,
    i: int,
    start: Position,
    segments: Seq<SNode<SStringSegment>>,
    arguments: Seq<SNode<SExpression>>,
) -> (int, SNode<SExpression>)
    decreases rem(ts, i), 32nat,
{
    match tok(ts, i) {
        Some(SpecTokenValue::FormatStringEnd(value)) => {
            let j = i + 1;
            let segments = segments.push(snode(SStringSegment::Valid(value), start, end_at(ts, j)));
            (j, snode(SExpression::String { segments, arguments }, start, end_at(ts, j)))
        },
        Some(SpecTokenValue::MalformedString(message)) => {
            let j = i + 1;
            let segments = segments.push(
                snode(SStringSegment::Malformed(message), start, end_at(ts, j)),
            );
            (j, snode(SExpression::String { segments, arguments }, start, end_at(ts, j)))
        },
        Some(SpecTokenValue::FormatStringStart(value))
        | Some(SpecTokenValue::FormatStringMiddle(value)) => {
            let j = i + 1;
            let segments = segments.push(snode(SStringSegment::Valid(value), start, end_at(ts, j)));
            let (m, arguments) = match tok(ts, j) {
                Some(SpecTokenValue::FormatStringMiddle(_))
                | Some(SpecTokenValue::FormatStringEnd(_))
                | Some(SpecTokenValue::MalformedString(_)) => (
                    j,
                    arguments.push(
                        expr_error(
                            "Format string holes must not be empty"@,
                            end_at(ts, j),
                            ts[j].start,
                        ),
                    ),
                ),
                None => (j, arguments),
                _ => {
                    let (m, e) = sp_expression(ts, j);
                    (m, arguments.push(e))
                },
            };
            if i < m <= ts.len() {
                sp_format_string(ts, m, start, segments, arguments)
            } else {
                (m, snode(SExpression::String { segments, arguments }, start, end_at(ts, m)))
            }
        },
        _ => (i, expr_error("Format string is unterminated"@, start, end_at(ts, i))),
    }
}

/// `if`, then branches, an optional `else` branch, `end`.
pub open spec fn sp_if(ts: Seq<SpecToken>, i: int) -> (int, SNode<SExpression>)
    decreases rem(ts, i), 33nat,
{
    let start = start_at(ts, i);
    let j = after_consume(ts, i);
    if !next_is(ts, i, kw(Keyword::If)) {
        (j, expr_error("Expected 'if' keyword"@, start, end_at(ts, j)))
    } else {
        sp_if_branches(ts, j, start, Seq::empty())
    }
}

pub open spec fn is_branch_end(v: SpecTokenValue) -> bool {
    v == kw(Keyword::End) || v == kw(Keyword::Else) || v == kw(Keyword::ElseIf)
}

/// A condition, `then`, a body; then `elseif` and more branches, or the rest.
pub open spec fn sp_if_branches(
    ts: Seq<SpecToken>,
    i: int,
    start: Position,
    branches: Seq<SIfBranch>,
) -> (int, SNode<SExpression>)
    decreases rem(ts, i), 36nat,
{
    let (m, condition) = sp_expression(ts, i);
    let m = clamp(m, i, ts.len() as int);
    if !next_is(ts, m, kw(Keyword::Then)) {
        (m, expr_error("Expected 'then' after condition"@, start, end_at(ts, m)))
    } else {
        let (m2, body) = sp_block(ts, m + 1, BlockStop::IfBody, Seq::empty());
        let m2 = clamp(m2, m + 1, ts.len() as int);
        if !(tok(ts, m2) is Some && is_branch_end(tok(ts, m2)->0)) {
            (
                m2,
                expr_error(
                    "Expected 'end', 'else', or 'elseif' after if expression body"@,
                    start,
                    end_at(ts, m2),
                ),
            )
        } else {
            let branches = branches.push(SIfBranch { condition, body });
            if next_is(ts, m2, kw(Keyword::ElseIf)) {
                sp_if_branches(ts, m2 + 1, start, branches)
            } else {
                sp_if_tail(ts, m2, start, branches)
            }
        }
    }
}

/// An optional `else` branch, then `end`.
pub open spec fn sp_if_tail(
    ts: Seq<SpecToken>,
    i: int,
    start: Position,
    branches: Seq<SIfBranch>,
) -> (int, SNode<SExpression>)
    decreases rem(ts, i), 35nat,
{
    let (m, else_branch) = if next_is(ts, i, kw(Keyword::Else)) {
        let (m, body) = sp_block(ts, i + 1, BlockStop::End, Seq::empty());
        (clamp(m, i + 1, ts.len() as int), Some(body))
    } else {
        (i, None)
    };
    if next_is(ts, m, kw(Keyword::End)) {
        (
            m + 1,
            snode(
                SExpression::If { if_branches: branches, else_branch },
                start,
                end_at(ts, m + 1),
            ),
        )
    } else {
        (m, expr_error("Expected 'end' to close if expression"@, start, end_at(ts, m)))
    }
}

/// `for`, variables, `in`, an expression, `do`, a body, `end`.
pub open spec fn sp_for(ts: Seq<SpecToken>, i: int) -> (int, SNode<SExpression>)
    decreases rem(ts, i), 33nat,
{
    let start = start_at(ts, i);
    let j = after_consume(ts, i);
    if !next_is(ts, i, kw(Keyword::For)) {
        (j, expr_error("Expected 'for' keyword"@, start, end_at(ts, j)))
    } else {
        let (m, lhs) = sp_lvalue_list(ts, j, Seq::empty());
        let m = clamp(m, j, ts.len() as int);
        if !next_is(ts, m, kw(Keyword::In)) {
            (
                m,
                expr_error(
                    "Expected 'in' keyword to follow for loop variable declarations"@,
                    start,
                    end_at(ts, m),
                ),
            )
        } else {
            let (m2, enumerable) = sp_expression(ts, m + 1);
            let m2 = clamp(m2, m + 1, ts.len() as int);
            if !next_is(ts, m2, kw(Keyword::Do)) {
                (
                    m2,
                    expr_error(
                        "Expected 'do' keyword to follow for loop enumerable"@,
                        start,
                        end_at(ts, m2),
                    ),
                )
            } else {
                let (m3, body) = sp_block(ts, m2 + 1, BlockStop::End, Seq::empty());
                let m3 = clamp(m3, m2 + 1, ts.len() as int);
                if !next_is(ts, m3, kw(Keyword::End)) {
                    (
                        m3,
                        expr_error(
                            "Expected 'end' keyword to close for loop body"@,
                            start,
                            end_at(ts, m3),
                        ),
                    )
                } else {
                    (
                        m3 + 1,
                        snode(
                            SExpression::For { lhs, enumerable: Box::new(enumerable), body },
                            start,
                            end_at(ts, m3 + 1),
                        ),
                    )
                }
            }
        }
    }
}

/// `fn`, `(`, parameters, `)`, a body, `end`.
pub open spec fn sp_function_definition(ts: Seq<SpecToken>, i: int) -> (int, SNode<SExpression>)
    decreases rem(ts, i), 33nat,
{
    let start = start_at(ts, i);
    let j = after_consume(ts, i);
    if !next_is(ts, i, kw(Keyword::Function)) {
        (j, expr_error("Expected 'function' keyword"@, start, end_at(ts, j)))
    } else if !next_is(ts, j, sc(SpecialCharacter::OpenBracket)) {
        (j, expr_error("Expected '(' to open function parameter list"@, start, end_at(ts, j)))
    } else {
        let k = j + 1;
        let (m, parameters) = if next_is(ts, k, sc(SpecialCharacter::CloseBracket)) {
            (k, Seq::empty())
        } else {
            sp_lvalue_list(ts, k, Seq::empty())
        };
        let m = clamp(m, k, ts.len() as int);
        if !next_is(ts, m, sc(SpecialCharacter::CloseBracket)) {
            (
                m,
                expr_error(
                    "Expected ')' to close function parameter list"@,
                    start,
                    end_at(ts, m),
                ),
            )
        } else {
            let (m2, body) = sp_block(ts, m + 1, BlockStop::End, Seq::empty());
            let m2 = clamp(m2, m + 1, ts.len() as int);
            if !next_is(ts, m2, kw(Keyword::End)) {
                (
                    m2,
                    expr_error(
                        "Expected 'end' keyword to close function body"@,
                        start,
                        end_at(ts, m2),
                    ),
                )
            } else {
                (
                    m2 + 1,
                    snode(SExpression::Function { parameters, body }, start, end_at(ts, m2 + 1)),
                )
            }
        }
    }
}

/// `(`, arguments, `)` after the callee `lhs`.
pub open spec fn sp_call(ts: Seq<SpecToken>, i: int, lhs: SNode<SExpression>, is_optional: bool) -> (
    int,
    SNode<SExpression>,
)
    decreases rem(ts, i), 33nat,
{
    let start = start_at(ts, i);
    let j = after_consume(ts, i);
    if !next_is(ts, i, sc(SpecialCharacter::OpenBracket)) {
        (j, expr_error("Expected '(' to open function argument list"@, start, end_at(ts, j)))
    } else {
        let (m, arguments) = if next_is(ts, j, sc(SpecialCharacter::CloseBracket)) {
            (j, Seq::empty())
        } else {
            sp_expression_list(ts, j, Seq::empty())
        };
        let m = clamp(m, j, ts.len() as int);
        if !next_is(ts, m, sc(SpecialCharacter::CloseBracket)) {
            (
                m,
                expr_error("Expected ')' to close function argument list"@, start, end_at(ts, m)),
            )
        } else {
            (
                m + 1,
                snode(
                    SExpression::Call { is_optional, lhs: Box::new(lhs), arguments },
                    start,
                    end_at(ts, m + 1),
                ),
            )
        }
    }
}

/// `[`, an expression, `]` after the table `lhs`.
pub open spec fn sp_index_expression(
    ts: Seq<SpecToken>,
    i: int,
    lhs: SNode<SExpression>,
    is_optional: bool,
) -> (int, SNode<SExpression>)
    decreases rem(ts, i), 33nat,
{
    let start = start_at(ts, i);
    let j = after_consume(ts, i);
    if !next_is(ts, i, sc(SpecialCharacter::OpenSquareBracket)) {
        (j, expr_error("Expected '[' to open table index"@, start, end_at(ts, j)))
    } else {
        let (m, rhs) = sp_expression(ts, j);
        let m = clamp(m, j, ts.len() as int);
        if !next_is(ts, m, sc(SpecialCharacter::CloseSquareBracket)) {
            (m, expr_error("Expected ']' to close table index"@, start, end_at(ts, m)))
        } else {
            let o = if is_optional {
                Operator::OptionalIndex
            } else {
                Operator::Index
            };
            (
                m + 1,
                snode(
                    SExpression::BinaryOperator { op: o, lhs: Box::new(lhs), rhs: Box::new(rhs) },
                    start,
                    end_at(ts, m + 1),
                ),
            )
        }
    }
}

/// The tokens without the comments.
pub open spec fn without_comments(ts: Seq<SpecToken>) -> Seq<SpecToken>
    decreases ts.len(),
{
    if ts.len() == 0 {
        Seq::empty()
    } else if ts.last().value is Comment {
        without_comments(ts.drop_last())
    } else {
        without_comments(ts.drop_last()).push(ts.last())
    }
}

/// A binary operator that builds a plain operator node: not assignment, not
/// an index, and not only unary.
pub open spec fn plain_binary_operator(o: Operator) -> bool {
    &&& o != Operator::Assignment
    &&& o != Operator::Index
    &&& o != Operator::OptionalIndex
    &&& !spec_operator_metadata(o).is_unary
}

/// The node of a binary operator `o` applied to `lhs` and `rhs`, spanning the
/// operator's token `t`.
pub open spec fn binary_node(o: Operator, lhs: SNode<SExpression>, rhs: SNode<SExpression>, t: SpecToken) -> SNode<SExpression> {
    snode(SExpression::BinaryOperator { op: o, lhs: Box::new(lhs), rhs: Box::new(rhs) }, t.start, t.end)
}

/// The node of an integer token.
pub open spec fn int_node(t: SpecToken) -> SNode<SExpression> {
    snode(SExpression::Int(t.value->Int_0), t.start, t.end)
}

/// Precedence and associativity: `a o1 b o2 c`, with integers `a`, `b`, `c`
/// and plain binary operators `o1`, `o2`, is read as `a o1 (b o2 c)` when
/// `o2` binds tighter than `o1`, or as tightly and to the right; otherwise
/// as `(a o1 b) o2 c`. All five tokens are read.
pub proof fn lemma_precedence(ts: Seq<SpecToken>, o1: Operator, o2: Operator)
    requires
        ts.len() == 5,
        ts[0].value is Int,
        ts[2].value is Int,
        ts[4].value is Int,
        ts[1].value == SpecTokenValue::Operator(o1),
        ts[3].value == SpecTokenValue::Operator(o2),
        plain_binary_operator(o1),
        plain_binary_operator(o2),
    ensures
        sp_expression(ts, 0) == (
            5int,
            if spec_is_right_hand_side_chained_operator(
                spec_operator_metadata(o2),
                spec_operator_metadata(o1).precedence,
            ) {
                binary_node(
                    o1,
                    int_node(ts[0]),
                    binary_node(o2, int_node(ts[2]), int_node(ts[4]), ts[3]),
                    ts[1],
                )
            } else {
                binary_node(
                    o2,
                    binary_node(o1, int_node(ts[0]), int_node(ts[2]), ts[1]),
                    int_node(ts[4]),
                    ts[3],
                )
            },
        ),
{
    let a = int_node(ts[0]);
    let b = int_node(ts[2]);
    let c = int_node(ts[4]);
    let p1 = spec_operator_metadata(o1).precedence;
    let p2 = spec_operator_metadata(o2).precedence;
    assert(sp_operand(ts, 0) == (1int, a));
    assert(sp_operand(ts, 2) == (3int, b));
    assert(sp_operand(ts, 4) == (5int, c));
    assert(sp_binary_rhs(ts, 5, c, p2) == (5int, c));
    if spec_is_right_hand_side_chained_operator(spec_operator_metadata(o2), p1) {
        let inner = binary_node(o2, b, c, ts[3]);
        let outer = binary_node(o1, a, inner, ts[1]);
        let min = if p2 > p1 {
            (p1 + 1) as u16
        } else {
            p1
        };
        assert(sp_binary_operator(ts, 3, b) == (5int, inner));
        assert(sp_sub_expression(ts, 5, inner, min) == (5int, inner));
        assert(binds_at_least(ts, 3, min));
        assert(sp_sub_expression(ts, 3, b, min) == (5int, inner));
        assert(sp_binary_rhs(ts, 5, inner, p1) == (5int, inner));
        assert(sp_binary_rhs(ts, 3, b, p1) == (5int, inner));
        assert(sp_binary_operator(ts, 1, a) == (5int, outer));
        assert(sp_sub_expression(ts, 5, outer, 0) == (5int, outer));
        assert(sp_sub_expression(ts, 1, a, 0) == (5int, outer));
    } else {
        let left = binary_node(o1, a, b, ts[1]);
        let top = binary_node(o2, left, c, ts[3]);
        assert(sp_binary_rhs(ts, 3, b, p1) == (3int, b));
        assert(sp_binary_operator(ts, 1, a) == (3int, left));
        assert(sp_binary_operator(ts, 3, left) == (5int, top));
        assert(sp_sub_expression(ts, 5, top, 0) == (5int, top));
        assert(sp_sub_expression(ts, 3, left, 0) == (5int, top));
        assert(sp_sub_expression(ts, 1, a, 0) == (5int, top));
    }
}

/// Leaving out the comments twice leaves out no more than once.
pub proof fn lemma_without_comments_idempotent(ts: Seq<SpecToken>)
    ensures
        without_comments(without_comments(ts)) == without_comments(ts),
    decreases ts.len(),
{
    if ts.len() > 0 {
        lemma_without_comments_idempotent(ts.drop_last());
        let w = without_comments(ts.drop_last());
        if !(ts.last().value is Comment) {
            assert(w.push(ts.last()).drop_last() =~= w);
        }
    }
}

/// Comments do not change what a program parses to.
pub proof fn lemma_parse_ignores_comments(ts: Seq<SpecToken>)
    ensures
        spec_parse(without_comments(ts)) == spec_parse(ts),
{
    lemma_without_comments_idempotent(ts);
}

/// The statements of a whole program.
pub open spec fn spec_parse(ts: Seq<SpecToken>) -> Seq<SNode<SStatement>> {
    sp_block(without_comments(ts), 0, BlockStop::EndOfInput, Seq::empty()).1
}

} // verus!
