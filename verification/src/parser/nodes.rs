//! The syntax tree, and its mathematical model.

use vstd::prelude::*;

use crate::common::{Operator, Position};

verus! {

broadcast use vstd::std_specs::vec::group_vec_axioms;

/// A node of the syntax tree: a value and the positions where its text starts and ends.
#[derive(Debug)]
pub struct Node<T> {
    pub value: Box<T>,
    pub start: Position,
    pub end: Position,
}

#[derive(Debug)]
pub enum StringSegment {
    Valid(String),
    Malformed(String),
}

pub type StringSegmentNode = Node<StringSegment>;

#[derive(Debug)]
pub enum TableDefinitionElement {
    Valid { key: ExpressionNode, value: ExpressionNode },
    SyntaxError(String),
}

pub type TableDefinitionElementNode = Node<TableDefinitionElement>;

#[derive(Debug)]
pub struct IfBranch {
    pub condition: ExpressionNode,
    pub body: Vec<StatementNode>,
}

/// `Double` holds the text of a decimal literal, as the token did.
#[derive(Debug)]
pub enum Expression {
    Nil,
    Bool(bool),
    Int(i64),
    Double(String),
    String { segments: Vec<StringSegmentNode>, arguments: Vec<ExpressionNode> },
    TableDefinition { elements: Vec<TableDefinitionElementNode> },
    Symbol(String),
    Block(Vec<StatementNode>),
    UnaryOperator { op: Operator, rhs: ExpressionNode },
    BinaryOperator { op: Operator, lhs: ExpressionNode, rhs: ExpressionNode },
    Function { parameters: Vec<LValueNode>, body: Vec<StatementNode> },
    If { if_branches: Vec<IfBranch>, else_branch: Option<Vec<StatementNode>> },
    For { lhs: Vec<LValueNode>, enumerable: ExpressionNode, body: Vec<StatementNode> },
    Call { is_optional: bool, lhs: ExpressionNode, arguments: Vec<ExpressionNode> },
    SyntaxError(String),
}

pub type ExpressionNode = Node<Expression>;

#[derive(Debug)]
pub enum TableUnpackElement {
    Valid { key: ExpressionNode, variable: LValueNode },
    SyntaxError(String),
}

pub type TableUnpackElementNode = Node<TableUnpackElement>;

#[derive(Debug)]
pub enum LValue {
    Symbol(String),
    TableUnpack { elements: Vec<TableUnpackElementNode> },
    SyntaxError(String),
}

pub type LValueNode = Node<LValue>;

#[derive(Debug)]
pub enum Statement {
    Definition { is_constant: bool, is_export: bool, lhs: Vec<LValueNode>, rhs: Vec<ExpressionNode> },
    Return(ExpressionNode),
    Break,
    Expression(Expression),
    SyntaxError(String),
}

pub type StatementNode = Node<Statement>;

// ---------------------------------------------------------------------------
// The model.

pub struct SNode<T> {
    pub value: T,
    pub start: Position,
    pub end: Position,
}

pub enum SStringSegment {
    Valid(Seq<char>),
    Malformed(Seq<char>),
}

pub enum STableDefinitionElement {
    Valid { key: SNode<SExpression>, value: SNode<SExpression> },
    SyntaxError(Seq<char>),
}

pub struct SIfBranch {
    pub condition: SNode<SExpression>,
    pub body: Seq<SNode<SStatement>>,
}

pub enum SExpression {
    Nil,
    Bool(bool),
    Int(i64),
    Double(Seq<char>),
    String { segments: Seq<SNode<SStringSegment>>, arguments: Seq<SNode<SExpression>> },
    TableDefinition { elements: Seq<SNode<STableDefinitionElement>> },
    Symbol(Seq<char>),
    Block(Seq<SNode<SStatement>>),
    UnaryOperator { op: Operator, rhs: Box<SNode<SExpression>> },
    BinaryOperator { op: Operator, lhs: Box<SNode<SExpression>>, rhs: Box<SNode<SExpression>> },
    Function { parameters: Seq<SNode<SLValue>>, body: Seq<SNode<SStatement>> },
    If { if_branches: Seq<SIfBranch>, else_branch: Option<Seq<SNode<SStatement>>> },
    For {
        lhs: Seq<SNode<SLValue>>,
        enumerable: Box<SNode<SExpression>>,
        body: Seq<SNode<SStatement>>,
    },
    Call { is_optional: bool, lhs: Box<SNode<SExpression>>, arguments: Seq<SNode<SExpression>> },
    SyntaxError(Seq<char>),
}

pub enum STableUnpackElement {
    Valid { key: SNode<SExpression>, variable: SNode<SLValue> },
    SyntaxError(Seq<char>),
}

pub enum SLValue {
    Symbol(Seq<char>),
    TableUnpack { elements: Seq<SNode<STableUnpackElement>> },
    SyntaxError(Seq<char>),
}

pub enum SStatement {
    Definition {
        is_constant: bool,
        is_export: bool,
        lhs: Seq<SNode<SLValue>>,
        rhs: Seq<SNode<SExpression>>,
    },
    Return(SNode<SExpression>),
    Break,
    Expression(SExpression),
    SyntaxError(Seq<char>),
}

/// The model of a node whose value has the model `value`.
pub open spec fn snode<T>(value: T, start: Position, end: Position) -> SNode<T> {
    SNode { value, start, end }
}

pub open spec fn segment_view(s: StringSegment) -> SStringSegment {
    match s {
        StringSegment::Valid(t) => SStringSegment::Valid(t@),
        StringSegment::Malformed(t) => SStringSegment::Malformed(t@),
    }
}

pub open spec fn segment_node_view(n: StringSegmentNode) -> SNode<SStringSegment> {
    snode(segment_view(*n.value), n.start, n.end)
}

pub open spec fn segment_nodes_view(s: Seq<StringSegmentNode>) -> Seq<SNode<SStringSegment>>
    decreases s.len(),
{
    if s.len() == 0 {
        Seq::empty()
    } else {
        segment_nodes_view(s.drop_last()).push(segment_node_view(s.last()))
    }
}

pub open spec fn expr_node_view(n: ExpressionNode) -> SNode<SExpression>
    decreases n,
{
    snode(expr_view(*n.value), n.start, n.end)
}

pub open spec fn expr_nodes_view(s: Seq<ExpressionNode>) -> Seq<SNode<SExpression>>
    decreases s,
{
    if s.len() == 0 {
        Seq::empty()
    } else {
        expr_nodes_view(s.drop_last()).push(expr_node_view(s.last()))
    }
}

pub open spec fn stmt_node_view(n: StatementNode) -> SNode<SStatement>
    decreases n,
{
    snode(stmt_view(*n.value), n.start, n.end)
}

pub open spec fn stmt_nodes_view(s: Seq<StatementNode>) -> Seq<SNode<SStatement>>
    decreases s,
{
    if s.len() == 0 {
        Seq::empty()
    } else {
        stmt_nodes_view(s.drop_last()).push(stmt_node_view(s.last()))
    }
}

pub open spec fn lvalue_node_view(n: LValueNode) -> SNode<SLValue>
    decreases n,
{
    snode(lvalue_view(*n.value), n.start, n.end)
}

pub open spec fn lvalue_nodes_view(s: Seq<LValueNode>) -> Seq<SNode<SLValue>>
    decreases s,
{
    if s.len() == 0 {
        Seq::empty()
    } else {
        lvalue_nodes_view(s.drop_last()).push(lvalue_node_view(s.last()))
    }
}

pub open spec fn def_element_node_view(n: TableDefinitionElementNode) -> SNode<
    STableDefinitionElement,
>
    decreases n,
{
    snode(
        match *n.value {
            TableDefinitionElement::Valid { key, value } => STableDefinitionElement::Valid {
                key: expr_node_view(key),
                value: expr_node_view(value),
            },
            TableDefinitionElement::SyntaxError(t) => STableDefinitionElement::SyntaxError(t@),
        },
        n.start,
        n.end,
    )
}

pub open spec fn def_element_nodes_view(s: Seq<TableDefinitionElementNode>) -> Seq<
    SNode<STableDefinitionElement>,
>
    decreases s,
{
    if s.len() == 0 {
        Seq::empty()
    } else {
        def_element_nodes_view(s.drop_last()).push(def_element_node_view(s.last()))
    }
}

pub open spec fn unpack_element_node_view(n: TableUnpackElementNode) -> SNode<STableUnpackElement>
    decreases n,
{
    snode(
        match *n.value {
            TableUnpackElement::Valid { key, variable } => STableUnpackElement::Valid {
                key: expr_node_view(key),
                variable: lvalue_node_view(variable),
            },
            TableUnpackElement::SyntaxError(t) => STableUnpackElement::SyntaxError(t@),
        },
        n.start,
        n.end,
    )
}

pub open spec fn unpack_element_nodes_view(s: Seq<TableUnpackElementNode>) -> Seq<
    SNode<STableUnpackElement>,
>
    decreases s,
{
    if s.len() == 0 {
        Seq::empty()
    } else {
        unpack_element_nodes_view(s.drop_last()).push(unpack_element_node_view(s.last()))
    }
}

pub open spec fn if_branch_view(b: IfBranch) -> SIfBranch
    decreases b,
{
    SIfBranch { condition: expr_node_view(b.condition), body: stmt_nodes_view(b.body@) }
}

pub open spec fn if_branches_view(s: Seq<IfBranch>) -> Seq<SIfBranch>
    decreases s,
{
    if s.len() == 0 {
        Seq::empty()
    } else {
        if_branches_view(s.drop_last()).push(if_branch_view(s.last()))
    }
}

pub open spec fn lvalue_view(l: LValue) -> SLValue
    decreases l,
{
    match l {
        LValue::Symbol(t) => SLValue::Symbol(t@),
        LValue::TableUnpack { elements } => SLValue::TableUnpack {
            elements: unpack_element_nodes_view(elements@),
        },
        LValue::SyntaxError(t) => SLValue::SyntaxError(t@),
    }
}

pub open spec fn stmt_view(s: Statement) -> SStatement
    decreases s,
{
    match s {
        Statement::Definition { is_constant, is_export, lhs, rhs } => SStatement::Definition {
            is_constant,
            is_export,
            lhs: lvalue_nodes_view(lhs@),
            rhs: expr_nodes_view(rhs@),
        },
        Statement::Return(e) => SStatement::Return(expr_node_view(e)),
        Statement::Break => SStatement::Break,
        Statement::Expression(e) => SStatement::Expression(expr_view(e)),
        Statement::SyntaxError(t) => SStatement::SyntaxError(t@),
    }
}

pub open spec fn expr_view(e: Expression) -> SExpression
    decreases e,
{
    match e {
        Expression::Nil => SExpression::Nil,
        Expression::Bool(b) => SExpression::Bool(b),
        Expression::Int(i) => SExpression::Int(i),
        Expression::Double(t) => SExpression::Double(t@),
        Expression::String { segments, arguments } => SExpression::String {
            segments: segment_nodes_view(segments@),
            arguments: expr_nodes_view(arguments@),
        },
        Expression::TableDefinition { elements } => SExpression::TableDefinition {
            elements: def_element_nodes_view(elements@),
        },
        Expression::Symbol(t) => SExpression::Symbol(t@),
        Expression::Block(b) => SExpression::Block(stmt_nodes_view(b@)),
        Expression::UnaryOperator { op, rhs } => SExpression::UnaryOperator {
            op,
            rhs: Box::new(expr_node_view(rhs)),
        },
        Expression::BinaryOperator { op, lhs, rhs } => SExpression::BinaryOperator {
            op,
            lhs: Box::new(expr_node_view(lhs)),
            rhs: Box::new(expr_node_view(rhs)),
        },
        Expression::Function { parameters, body } => SExpression::Function {
            parameters: lvalue_nodes_view(parameters@),
            body: stmt_nodes_view(body@),
        },
        Expression::If { if_branches, else_branch } => SExpression::If {
            if_branches: if_branches_view(if_branches@),
            else_branch: match else_branch {
                Some(b) => Some(stmt_nodes_view(b@)),
                None => None,
            },
        },
        Expression::For { lhs, enumerable, body } => SExpression::For {
            lhs: lvalue_nodes_view(lhs@),
            enumerable: Box::new(expr_node_view(enumerable)),
            body: stmt_nodes_view(body@),
        },
        Expression::Call { is_optional, lhs, arguments } => SExpression::Call {
            is_optional,
            lhs: Box::new(expr_node_view(lhs)),
            arguments: expr_nodes_view(arguments@),
        },
        Expression::SyntaxError(t) => SExpression::SyntaxError(t@),
    }
}

pub proof fn lemma_expr_nodes_push(s: Seq<ExpressionNode>, x: ExpressionNode)
    ensures
        expr_nodes_view(s.push(x)) == expr_nodes_view(s).push(expr_node_view(x)),
{
    assert(s.push(x).drop_last() =~= s);
}

pub proof fn lemma_stmt_nodes_push(s: Seq<StatementNode>, x: StatementNode)
    ensures
        stmt_nodes_view(s.push(x)) == stmt_nodes_view(s).push(stmt_node_view(x)),
{
    assert(s.push(x).drop_last() =~= s);
}

pub proof fn lemma_lvalue_nodes_push(s: Seq<LValueNode>, x: LValueNode)
    ensures
        lvalue_nodes_view(s.push(x)) == lvalue_nodes_view(s).push(lvalue_node_view(x)),
{
    assert(s.push(x).drop_last() =~= s);
}

pub proof fn lemma_segment_nodes_push(s: Seq<StringSegmentNode>, x: StringSegmentNode)
    ensures
        segment_nodes_view(s.push(x)) == segment_nodes_view(s).push(segment_node_view(x)),
{
    assert(s.push(x).drop_last() =~= s);
}

pub proof fn lemma_segment_nodes_single(x: StringSegmentNode)
    ensures
        segment_nodes_view(seq![x]) == seq![segment_node_view(x)],
{
    let empty = Seq::<StringSegmentNode>::empty();
    assert(seq![x] =~= empty.push(x));
    lemma_segment_nodes_push(empty, x);
    assert(segment_nodes_view(empty) =~= Seq::empty());
    assert(segment_nodes_view(seq![x]) =~= seq![segment_node_view(x)]);
}

pub proof fn lemma_def_element_nodes_push(
    s: Seq<TableDefinitionElementNode>,
    x: TableDefinitionElementNode,
)
    ensures
        def_element_nodes_view(s.push(x)) == def_element_nodes_view(s).push(
            def_element_node_view(x),
        ),
{
    assert(s.push(x).drop_last() =~= s);
}

pub proof fn lemma_unpack_element_nodes_push(s: Seq<TableUnpackElementNode>, x: TableUnpackElementNode)
    ensures
        unpack_element_nodes_view(s.push(x)) == unpack_element_nodes_view(s).push(
            unpack_element_node_view(x),
        ),
{
    assert(s.push(x).drop_last() =~= s);
}

pub proof fn lemma_if_branches_push(s: Seq<IfBranch>, x: IfBranch)
    ensures
        if_branches_view(s.push(x)) == if_branches_view(s).push(if_branch_view(x)),
{
    assert(s.push(x).drop_last() =~= s);
}

} // verus!
