//! Diagnostics: the syntax errors of a syntax tree, in the order in which a
//! walk of the tree meets them, as the editor protocol reports them.

use vstd::prelude::*;
use vstd::string::StringExecFns;

use crate::common::Position;
use crate::lsp::{LspPosition, LspRange};
use crate::parser::errors::{
    def_element_errors, def_elements_errors, error_at, expr_errors, exprs_errors, if_branch_errors,
    if_branches_errors, lvalue_errors, lvalues_errors, segment_errors, segments_errors, span_ok,
    spans_ok, stmt_errors, stmts_errors, unpack_element_errors, unpack_elements_errors,
    value_errors, ErrorSpan,
};
use crate::parser::nodes::{
    def_element_node_view, def_element_nodes_view, expr_node_view, expr_nodes_view, expr_view,
    if_branch_view, if_branches_view, lvalue_node_view, lvalue_nodes_view, segment_node_view,
    segment_nodes_view, stmt_node_view, stmt_nodes_view, unpack_element_node_view,
    unpack_element_nodes_view, Expression, ExpressionNode, IfBranch, LValue, LValueNode, Statement,
    StatementNode, StringSegment, StringSegmentNode, TableDefinitionElement,
    TableDefinitionElementNode, TableUnpackElement, TableUnpackElementNode,
};

verus! {

broadcast use vstd::std_specs::vec::group_vec_axioms;

/// A position of the text as the editor protocol counts it, from 0.
pub open spec fn lsp_position(p: Position) -> LspPosition {
    LspPosition { line: (p.line - 1) as u32, character: (p.column - 1) as u32 }
}

/// How serious a diagnostic is, as the editor protocol grades it.
#[derive(Debug, Clone, Copy, PartialEq, Eq, Structural)]
pub enum DiagnosticSeverity {
    Error,
    Warning,
    Information,
    Hint,
}

/// A diagnostic as the editor protocol reports it: a problem over a range of
/// the text, how serious it is, and what reports it.
pub struct Diagnostic {
    pub range: LspRange,
    pub severity: Option<DiagnosticSeverity>,
    pub message: String,
    pub source: String,
}

/// The mathematical model of a [`Diagnostic`].
pub struct DiagnosticView {
    pub range: LspRange,
    pub severity: Option<DiagnosticSeverity>,
    pub message: Seq<char>,
    pub source: Seq<char>,
}

impl View for Diagnostic {
    type V = DiagnosticView;

    open spec fn view(&self) -> DiagnosticView {
        DiagnosticView {
            range: self.range,
            severity: self.severity,
            message: self.message@,
            source: self.source@,
        }
    }
}

/// The diagnostic of an error: its span counted from 0, the severity of an
/// error, its message, and `moonjuice` as its source.
pub open spec fn diagnostic_of(e: ErrorSpan) -> DiagnosticView {
    DiagnosticView {
        range: LspRange { start: lsp_position(e.start), end: lsp_position(e.end) },
        severity: Some(DiagnosticSeverity::Error),
        message: e.message,
        source: "moonjuice"@,
    }
}

pub open spec fn diagnostic_views(s: Seq<Diagnostic>) -> Seq<DiagnosticView> {
    s.map_values(|d: Diagnostic| d@)
}

/// An error found on the walk.
struct Found {
    message: String,
    start: Position,
    end: Position,
}

spec fn found_view(f: Found) -> ErrorSpan {
    ErrorSpan { message: f.message@, start: f.start, end: f.end }
}

/// Walks syntax trees and gathers their errors.
pub struct DiagnosticsBuilder {
    found: Vec<Found>,
}

fn lsp_position_of(p: Position) -> (r: LspPosition)
    requires
        p.line >= 1,
        p.column >= 1,
    ensures
        r == lsp_position(p),
{
    LspPosition {
        line: #[verifier::truncate]
        ((p.line - 1) as u32),
        character: #[verifier::truncate]
        ((p.column - 1) as u32),
    }
}

impl DiagnosticsBuilder {
    /// The errors gathered so far.
    pub closed spec fn errors(&self) -> Seq<ErrorSpan> {
        self.found@.map_values(|f: Found| found_view(f))
    }

    pub fn new() -> (b: Self)
        ensures
            b.errors() == Seq::<ErrorSpan>::empty(),
    {
        let b = DiagnosticsBuilder { found: Vec::new() };
        assert(b.errors() =~= Seq::<ErrorSpan>::empty());
        b
    }

    /// The diagnostics of the errors gathered so far and of the errors of
    /// `ast`, in the order of a walk of the tree.
    pub fn build(self, ast: &Vec<StatementNode>) -> (diagnostics: Vec<Diagnostic>)
        requires
            spans_ok(self.errors() + stmts_errors(stmt_nodes_view(ast@))),
        ensures
            diagnostic_views(diagnostics@) == (self.errors() + stmts_errors(
                stmt_nodes_view(ast@),
            )).map_values(|e: ErrorSpan| diagnostic_of(e)),
    {
        let mut builder = self;
        builder.visit_statement_nodes(ast);
        let ghost all = builder.errors();
        let mut diagnostics: Vec<Diagnostic> = Vec::new();
        let mut i: usize = 0;
        while i < builder.found.len()
            invariant
                all == builder.errors(),
                spans_ok(all),
                i <= builder.found@.len(),
                diagnostic_views(diagnostics@) == all.take(i as int).map_values(
                    |e: ErrorSpan| diagnostic_of(e),
                ),
            decreases builder.found@.len() - i,
        {
            let f = &builder.found[i];
            proof {
                assert(all[i as int] == found_view(*f));
                assert(span_ok(all[i as int]));
            }
            let ghost before = diagnostics@;
            diagnostics.push(
                Diagnostic {
                    range: LspRange { start: lsp_position_of(f.start), end: lsp_position_of(f.end) },
                    severity: Some(DiagnosticSeverity::Error),
                    message: f.message.clone(),
                    source: String::from_str("moonjuice"),
                },
            );
            proof {
                assert(diagnostic_views(diagnostics@) =~= diagnostic_views(before).push(
                    diagnostic_of(all[i as int]),
                ));
                assert(all.take(i + 1) =~= all.take(i as int).push(all[i as int]));
                assert(all.take(i + 1).map_values(|e: ErrorSpan| diagnostic_of(e)) =~= all.take(
                    i as int,
                ).map_values(|e: ErrorSpan| diagnostic_of(e)).push(diagnostic_of(all[i as int])));
            }
            i = i + 1;
        }
        proof {
            assert(all.take(i as int) =~= all);
        }
        diagnostics
    }

    fn report(&mut self, message: &String, start: Position, end: Position)
        ensures
            final(self).errors() == old(self).errors() + error_at(message@, start, end),
    {
        let ghost before = self.found@;
        self.found.push(Found { message: message.clone(), start, end });
        proof {
            assert(self.errors() =~= before.map_values(|f: Found| found_view(f)).push(
                found_view(self.found@.last()),
            ));
        }
        assert(self.errors() =~= old(self).errors() + error_at(message@, start, end));
    }

    fn visit_statement_nodes(&mut self, statements: &Vec<StatementNode>)
        ensures
            final(self).errors() == old(self).errors() + stmts_errors(stmt_nodes_view(statements@)),
        decreases statements,
    {
        let mut i: usize = 0;
        while i < statements.len()
            invariant
                i <= statements@.len(),
                self.errors() == old(self).errors() + stmts_errors(
                    stmt_nodes_view(statements@.take(i as int)),
                ),
            decreases statements@.len() - i,
        {
            let ghost before = self.errors();
            proof {
                assert(decreases_to!(statements => statements@[i as int]));
            }
            self.visit_statement_node(&statements[i]);
            proof {
                assert(statements@.take(i + 1) =~= statements@.take(i as int).push(statements@[i as int]));
                crate::parser::nodes::lemma_stmt_nodes_push(statements@.take(i as int), statements@[i as int]);
                assert(stmt_nodes_view(statements@.take(i + 1)).drop_last() =~= stmt_nodes_view(statements@.take(i as int)));
            }
            i = i + 1;
        }
        proof {
            assert(statements@.take(i as int) =~= statements@);
        }
    }

    fn visit_statement_node(&mut self, statement: &StatementNode)
        ensures
            final(self).errors() == old(self).errors() + stmt_errors(stmt_node_view(*statement)),
        decreases statement,
    {
        match &*statement.value {
            Statement::Definition { lhs, rhs, .. } => {
                self.visit_lvalue_nodes(lhs);
                self.visit_expression_nodes(rhs);
            },
            Statement::Return(expression) => self.visit_expression_node(expression),
            Statement::Break => {},
            Statement::Expression(expression) => self.visit_expression(
                statement.start,
                statement.end,
                expression,
            ),
            Statement::SyntaxError(error) => self.report(error, statement.start, statement.end),
        }
        proof {
            assert(final(self).errors() =~= old(self).errors() + stmt_errors(stmt_node_view(*statement)));
        }
    }

    fn visit_lvalue_nodes(&mut self, items: &Vec<LValueNode>)
        ensures
            final(self).errors() == old(self).errors() + lvalues_errors(lvalue_nodes_view(items@)),
        decreases items,
    {
        let mut i: usize = 0;
        while i < items.len()
            invariant
                i <= items@.len(),
                self.errors() == old(self).errors() + lvalues_errors(lvalue_nodes_view(items@.take(i as int))),
            decreases items@.len() - i,
        {
            proof {
                assert(decreases_to!(items => items@[i as int]));
            }
            self.visit_lvalue_node(&items[i]);
            proof {
                assert(items@.take(i + 1) =~= items@.take(i as int).push(items@[i as int]));
                crate::parser::nodes::lemma_lvalue_nodes_push(items@.take(i as int), items@[i as int]);
                assert(lvalue_nodes_view(items@.take(i + 1)).drop_last() =~= lvalue_nodes_view(items@.take(i as int)));
            }
            i = i + 1;
        }
        proof {
            assert(items@.take(i as int) =~= items@);
        }
    }

    fn visit_expression_nodes(&mut self, items: &Vec<ExpressionNode>)
        ensures
            final(self).errors() == old(self).errors() + exprs_errors(expr_nodes_view(items@)),
        decreases items,
    {
        let mut i: usize = 0;
        while i < items.len()
            invariant
                i <= items@.len(),
                self.errors() == old(self).errors() + exprs_errors(expr_nodes_view(items@.take(i as int))),
            decreases items@.len() - i,
        {
            proof {
                assert(decreases_to!(items => items@[i as int]));
            }
            self.visit_expression_node(&items[i]);
            proof {
                assert(items@.take(i + 1) =~= items@.take(i as int).push(items@[i as int]));
                crate::parser::nodes::lemma_expr_nodes_push(items@.take(i as int), items@[i as int]);
                assert(expr_nodes_view(items@.take(i + 1)).drop_last() =~= expr_nodes_view(items@.take(i as int)));
            }
            i = i + 1;
        }
        proof {
            assert(items@.take(i as int) =~= items@);
        }
    }

    fn visit_table_unpack_element_nodes(&mut self, items: &Vec<TableUnpackElementNode>)
        ensures
            final(self).errors() == old(self).errors() + unpack_elements_errors(unpack_element_nodes_view(items@)),
        decreases items,
    {
        let mut i: usize = 0;
        while i < items.len()
            invariant
                i <= items@.len(),
                self.errors() == old(self).errors() + unpack_elements_errors(unpack_element_nodes_view(items@.take(i as int))),
            decreases items@.len() - i,
        {
            proof {
                assert(decreases_to!(items => items@[i as int]));
            }
            self.visit_table_unpack_element_node(&items[i]);
            proof {
                assert(items@.take(i + 1) =~= items@.take(i as int).push(items@[i as int]));
                crate::parser::nodes::lemma_unpack_element_nodes_push(items@.take(i as int), items@[i as int]);
                assert(unpack_element_nodes_view(items@.take(i + 1)).drop_last() =~= unpack_element_nodes_view(items@.take(i as int)));
            }
            i = i + 1;
        }
        proof {
            assert(items@.take(i as int) =~= items@);
        }
    }

    fn visit_table_definition_elements(&mut self, items: &Vec<TableDefinitionElementNode>)
        ensures
            final(self).errors() == old(self).errors() + def_elements_errors(def_element_nodes_view(items@)),
        decreases items,
    {
        let mut i: usize = 0;
        while i < items.len()
            invariant
                i <= items@.len(),
                self.errors() == old(self).errors() + def_elements_errors(def_element_nodes_view(items@.take(i as int))),
            decreases items@.len() - i,
        {
            proof {
                assert(decreases_to!(items => items@[i as int]));
            }
            self.visit_table_definition_element(&items[i]);
            proof {
                assert(items@.take(i + 1) =~= items@.take(i as int).push(items@[i as int]));
                crate::parser::nodes::lemma_def_element_nodes_push(items@.take(i as int), items@[i as int]);
                assert(def_element_nodes_view(items@.take(i + 1)).drop_last() =~= def_element_nodes_view(items@.take(i as int)));
            }
            i = i + 1;
        }
        proof {
            assert(items@.take(i as int) =~= items@);
        }
    }

    fn visit_string_segments(&mut self, items: &Vec<StringSegmentNode>)
        ensures
            final(self).errors() == old(self).errors() + segments_errors(segment_nodes_view(items@)),
        decreases items,
    {
        let mut i: usize = 0;
        while i < items.len()
            invariant
                i <= items@.len(),
                self.errors() == old(self).errors() + segments_errors(segment_nodes_view(items@.take(i as int))),
            decreases items@.len() - i,
        {
            proof {
                assert(decreases_to!(items => items@[i as int]));
            }
            self.visit_string_segment(&items[i]);
            proof {
                assert(items@.take(i + 1) =~= items@.take(i as int).push(items@[i as int]));
                crate::parser::nodes::lemma_segment_nodes_push(items@.take(i as int), items@[i as int]);
                assert(segment_nodes_view(items@.take(i + 1)).drop_last() =~= segment_nodes_view(items@.take(i as int)));
            }
            i = i + 1;
        }
        proof {
            assert(items@.take(i as int) =~= items@);
        }
    }

    fn visit_if_branches(&mut self, items: &Vec<IfBranch>)
        ensures
            final(self).errors() == old(self).errors() + if_branches_errors(if_branches_view(items@)),
        decreases items,
    {
        let mut i: usize = 0;
        while i < items.len()
            invariant
                i <= items@.len(),
                self.errors() == old(self).errors() + if_branches_errors(if_branches_view(items@.take(i as int))),
            decreases items@.len() - i,
        {
            proof {
                assert(decreases_to!(items => items@[i as int]));
            }
            self.visit_if_branch(&items[i]);
            proof {
                assert(items@.take(i + 1) =~= items@.take(i as int).push(items@[i as int]));
                crate::parser::nodes::lemma_if_branches_push(items@.take(i as int), items@[i as int]);
                assert(if_branches_view(items@.take(i + 1)).drop_last() =~= if_branches_view(items@.take(i as int)));
            }
            i = i + 1;
        }
        proof {
            assert(items@.take(i as int) =~= items@);
        }
    }

    fn visit_lvalue_node(&mut self, lvalue: &LValueNode)
        ensures
            final(self).errors() == old(self).errors() + lvalue_errors(lvalue_node_view(*lvalue)),
        decreases lvalue,
    {
        match &*lvalue.value {
            LValue::Symbol(_) => {},
            LValue::TableUnpack { elements } => self.visit_table_unpack_element_nodes(elements),
            LValue::SyntaxError(error) => self.report(error, lvalue.start, lvalue.end),
        }
        proof {
            assert(final(self).errors() =~= old(self).errors() + lvalue_errors(lvalue_node_view(*lvalue)));
        }
    }

    fn visit_table_unpack_element_node(&mut self, element: &TableUnpackElementNode)
        ensures
            final(self).errors() == old(self).errors() + unpack_element_errors(
                unpack_element_node_view(*element),
            ),
        decreases element,
    {
        match &*element.value {
            TableUnpackElement::Valid { key, variable } => {
                self.visit_expression_node(key);
                self.visit_lvalue_node(variable);
            },
            TableUnpackElement::SyntaxError(error) => self.report(error, element.start, element.end),
        }
        proof {
            assert(final(self).errors() =~= old(self).errors() + unpack_element_errors(
                unpack_element_node_view(*element),
            ));
        }
    }

    fn visit_expression_node(&mut self, expression: &ExpressionNode)
        ensures
            final(self).errors() == old(self).errors() + expr_errors(expr_node_view(*expression)),
        decreases expression,
    {
        self.visit_expression(expression.start, expression.end, &expression.value);
    }

    fn visit_expression(&mut self, start: Position, end: Position, expression: &Expression)
        ensures
            final(self).errors() == old(self).errors() + value_errors(expr_view(*expression), start, end),
        decreases expression,
    {
        match expression {
            Expression::String { segments, arguments } => {
                self.visit_string_segments(segments);
                self.visit_expression_nodes(arguments);
            },
            Expression::TableDefinition { elements } => self.visit_table_definition_elements(elements),
            Expression::Block(body) => self.visit_statement_nodes(body),
            Expression::UnaryOperator { rhs, .. } => self.visit_expression_node(rhs),
            Expression::BinaryOperator { lhs, rhs, .. } => {
                self.visit_expression_node(lhs);
                self.visit_expression_node(rhs);
            },
            Expression::Function { parameters, body } => {
                self.visit_lvalue_nodes(parameters);
                self.visit_statement_nodes(body);
            },
            Expression::If { if_branches, else_branch } => {
                self.visit_if_branches(if_branches);
                match else_branch {
                    Some(body) => self.visit_statement_nodes(body),
                    None => {},
                }
            },
            Expression::For { lhs, enumerable, body } => {
                self.visit_lvalue_nodes(lhs);
                self.visit_expression_node(enumerable);
                self.visit_statement_nodes(body);
            },
            Expression::Call { lhs, arguments, .. } => {
                self.visit_expression_node(lhs);
                self.visit_expression_nodes(arguments);
            },
            Expression::SyntaxError(error) => self.report(error, start, end),
            _ => {},
        }
        proof {
            assert(final(self).errors() =~= old(self).errors() + value_errors(expr_view(*expression), start, end));
        }
    }

    fn visit_if_branch(&mut self, branch: &IfBranch)
        ensures
            final(self).errors() == old(self).errors() + if_branch_errors(if_branch_view(*branch)),
        decreases branch,
    {
        self.visit_expression_node(&branch.condition);
        self.visit_statement_nodes(&branch.body);
        proof {
            assert(final(self).errors() =~= old(self).errors() + if_branch_errors(if_branch_view(*branch)));
        }
    }

    fn visit_string_segment(&mut self, segment: &StringSegmentNode)
        ensures
            final(self).errors() == old(self).errors() + segment_errors(segment_node_view(*segment)),
    {
        match &*segment.value {
            StringSegment::Valid(_) => {},
            StringSegment::Malformed(error) => self.report(error, segment.start, segment.end),
        }
        proof {
            assert(final(self).errors() =~= old(self).errors() + segment_errors(segment_node_view(*segment)));
        }
    }

    fn visit_table_definition_element(&mut self, element: &TableDefinitionElementNode)
        ensures
            final(self).errors() == old(self).errors() + def_element_errors(
                def_element_node_view(*element),
            ),
        decreases element,
    {
        match &*element.value {
            TableDefinitionElement::Valid { key, value } => {
                self.visit_expression_node(key);
                self.visit_expression_node(value);
            },
            TableDefinitionElement::SyntaxError(error) => self.report(error, element.start, element.end),
        }
        proof {
            assert(final(self).errors() =~= old(self).errors() + def_element_errors(
                def_element_node_view(*element),
            ));
        }
    }
}

} // verus!
