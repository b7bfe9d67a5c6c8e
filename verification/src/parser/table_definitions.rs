use vstd::prelude::*;
use vstd::string::StringExecFns;

use super::Parser;
use super::errors::{def_element_errors, def_elements_errors, expr_node_ok, spans_ok, tokens_placed};
use super::grammar::{rem, sp_def_element, sp_def_elements, sp_table_definition};
use super::nodes::{
    def_element_node_view, def_element_nodes_view, expr_node_view, lemma_def_element_nodes_push,
    Expression, ExpressionNode, TableDefinitionElement, TableDefinitionElementNode,
};

use crate::common::{Operator, SpecialCharacter};
use crate::lexer::TokenValue;

verus! {

broadcast use super::errors::lemma_spans_ok_add;

impl Parser {
    /// `{`, elements separated by commas (a trailing comma allowed), `}`.
    pub(super) fn parse_table_definition(&mut self) -> (node: ExpressionNode)
        requires
            old(self).wf(),
        ensures
            tokens_placed(old(self).ts()) ==> expr_node_ok(expr_node_view(node)),
            final(self).wf(),
            final(self).ts() == old(self).ts(),
            old(self).idx() <= final(self).idx() <= old(self).ts().len(),
            old(self).idx() < old(self).ts().len() ==> old(self).idx() < final(self).idx(),
            sp_table_definition(old(self).ts(), old(self).idx()) == (final(self).idx(), expr_node_view(node)),
        decreases old(self).remaining(), 33nat,
    {
        proof {
            self.lemma_wf();
        }
        let start = self.get_start();
        let is_open = self.is_next(TokenValue::SpecialCharacter(SpecialCharacter::OpenCurlyBracket));
        self.consume();
        if !is_open {
            return super::expression_error("Expected '{' to open table definition", start, self.get_end());
        }
        proof {
            self.lemma_wf();
        }
        let elements = self.parse_table_definition_elements();
        if !self.consume_if(TokenValue::SpecialCharacter(SpecialCharacter::CloseCurlyBracket)) {
            return super::expression_error("Expected '}' to close table definition", start, self.get_end());
        }
        ExpressionNode { value: Box::new(Expression::TableDefinition { elements }), start, end: self.get_end() }
    }

    /// Elements up to `}`, separated by commas; those without a key take the
    /// numeric keys from 1 on.
    fn parse_table_definition_elements(&mut self) -> (elements: Vec<TableDefinitionElementNode>)
        requires
            old(self).wf(),
        ensures
            tokens_placed(old(self).ts()) ==> spans_ok(def_elements_errors(def_element_nodes_view(elements@))),
            final(self).wf(),
            final(self).ts() == old(self).ts(),
            old(self).idx() <= final(self).idx() <= old(self).ts().len(),
            sp_def_elements(old(self).ts(), old(self).idx(), 1, Seq::empty()) == (
                final(self).idx(),
                def_element_nodes_view(elements@),
            ),
        decreases old(self).remaining(), 37nat,
    {
        let ghost ts = self.ts();
        let ghost i0 = self.idx();
        let mut elements: Vec<TableDefinitionElementNode> = Vec::new();
        let mut next_numeric_index: i64 = 1;
        proof {
            self.lemma_wf();
        }
        loop
            invariant_except_break
                ts == old(self).ts(),
                i0 == old(self).idx(),
                self.wf(),
                self.ts() == ts,
                i0 <= self.idx() <= ts.len(),
                rem(ts, i0) == ts.len() - i0,
                1 <= next_numeric_index <= self.idx() - i0 + 1,
                sp_def_elements(ts, i0, 1, Seq::empty()) == sp_def_elements(
                    ts,
                    self.idx(),
                    next_numeric_index as int,
                    def_element_nodes_view(elements@),
                ),
                tokens_placed(ts) ==> spans_ok(def_elements_errors(def_element_nodes_view(elements@))),
            ensures
                self.wf(),
                self.ts() == ts,
                i0 <= self.idx() <= ts.len(),
                sp_def_elements(ts, i0, 1, Seq::empty()) == (self.idx(), def_element_nodes_view(elements@)),
                tokens_placed(ts) ==> spans_ok(def_elements_errors(def_element_nodes_view(elements@))),
            decreases ts.len() - self.idx(),
        {
            if self.is_next(TokenValue::SpecialCharacter(SpecialCharacter::CloseCurlyBracket)) {
                break;
            }
            let ghost before = elements@;
            let (element, next) = self.parse_table_definition_element(next_numeric_index);
            next_numeric_index = next;
            elements.push(element);
            proof {
                lemma_def_element_nodes_push(before, element);
                super::errors::lemma_def_elements_errors_push(def_element_nodes_view(before), def_element_node_view(element));
                self.lemma_wf();
            }
            if !self.consume_if(TokenValue::SpecialCharacter(SpecialCharacter::Comma)) {
                break;
            }
        }
        elements
    }

    /// An element: `.name` (or `.name = value`), `[key] = value`, or a value
    /// that takes the next numeric key. Yields the element and the next
    /// numeric key.
    #[verifier::rlimit(40)]
    fn parse_table_definition_element(&mut self, next_numeric_index: i64) -> (r: (TableDefinitionElementNode, i64))
        requires
            old(self).wf(),
            1 <= next_numeric_index <= 0x4000_0000_0000_0000,
        ensures
            tokens_placed(old(self).ts()) ==> spans_ok(def_element_errors(def_element_node_view(r.0))),
            final(self).wf(),
            final(self).ts() == old(self).ts(),
            old(self).idx() <= final(self).idx() <= old(self).ts().len(),
            next_numeric_index <= r.1 <= next_numeric_index + 1,
            sp_def_element(old(self).ts(), old(self).idx(), next_numeric_index as int) == (
                final(self).idx(),
                def_element_node_view(r.0),
                r.1 as int,
            ),
        decreases old(self).remaining(), 36nat,
    {
        proof {
            self.lemma_wf();
        }
        let start = self.get_start();
        match self.peek_value() {
            Some(TokenValue::Operator(Operator::Index)) => {
                self.consume();
                match self.peek_value() {
                    Some(TokenValue::Symbol(symbol)) => {
                        self.consume();
                        let key = super::name_key_node(symbol.clone(), start, self.get_end());
                        if self.consume_if(TokenValue::Operator(Operator::Assignment)) {
                            proof {
                                self.lemma_wf();
                            }
                            let item = self.parse_expression();
                            (
                                TableDefinitionElementNode {
                                    value: Box::new(TableDefinitionElement::Valid { key, value: item }),
                                    start,
                                    end: self.get_end(),
                                },
                                next_numeric_index,
                            )
                        } else {
                            let item = ExpressionNode { value: Box::new(Expression::Symbol(symbol)), start, end: self.get_end() };
                            (
                                TableDefinitionElementNode {
                                    value: Box::new(TableDefinitionElement::Valid { key, value: item }),
                                    start,
                                    end: self.get_end(),
                                },
                                next_numeric_index,
                            )
                        }
                    },
                    _ => (
                        TableDefinitionElementNode {
                            value: Box::new(
                                TableDefinitionElement::SyntaxError(
                                    String::from_str("Expected key name after '.' in table definition"),
                                ),
                            ),
                            start,
                            end: self.get_end(),
                        },
                        next_numeric_index,
                    ),
                }
            },
            Some(TokenValue::SpecialCharacter(SpecialCharacter::OpenSquareBracket)) => {
                self.consume();
                proof {
                    self.lemma_wf();
                }
                let key = self.parse_expression();
                if !self.consume_if(
                    TokenValue::SpecialCharacter(SpecialCharacter::CloseSquareBracket),
                ) {
                    (
                        TableDefinitionElementNode {
                            value: Box::new(
                                TableDefinitionElement::SyntaxError(
                                    String::from_str(
                                        "Expected ']' to close table definition index expression",
                                    ),
                                ),
                            ),
                            start,
                            end: self.get_end(),
                        },
                        next_numeric_index,
                    )
                } else if !self.consume_if(TokenValue::Operator(Operator::Assignment)) {
                    (
                        TableDefinitionElementNode {
                            value: Box::new(
                                TableDefinitionElement::SyntaxError(
                                    String::from_str("Expected '=' after table definition index expression"),
                                ),
                            ),
                            start,
                            end: self.get_end(),
                        },
                        next_numeric_index,
                    )
                } else {
                    proof {
                        self.lemma_wf();
                    }
                    let item = self.parse_expression();
                    (
                        TableDefinitionElementNode {
                            value: Box::new(TableDefinitionElement::Valid { key, value: item }),
                            start,
                            end: self.get_end(),
                        },
                        next_numeric_index,
                    )
                }
            },
            _ => {
                let item = self.parse_expression();
                let key = ExpressionNode {
                    value: Box::new(Expression::Int(next_numeric_index)),
                    start,
                    end: self.get_end(),
                };
                (
                    TableDefinitionElementNode {
                        value: Box::new(TableDefinitionElement::Valid { key, value: item }),
                        start,
                        end: self.get_end(),
                    },
                    next_numeric_index + 1,
                )
            },
        }
    }
}

} // verus!
