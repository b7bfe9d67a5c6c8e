use vstd::prelude::*;
use vstd::string::StringExecFns;

use super::{lvalue_error, Parser};
use super::errors::{
    lvalue_errors, spans_ok, tokens_placed, unpack_element_errors, unpack_elements_errors,
};
use super::grammar::{rem, sp_table_unpack, sp_unpack_element, sp_unpack_elements};
use super::nodes::{
    lemma_unpack_element_nodes_push, lvalue_node_view, unpack_element_node_view,
    unpack_element_nodes_view, Expression, ExpressionNode, LValue, LValueNode, TableUnpackElement,
    TableUnpackElementNode,
};

use crate::common::{Operator, SpecialCharacter};
use crate::lexer::TokenValue;

verus! {

broadcast use super::errors::lemma_spans_ok_add;

impl Parser {
    /// `{`, elements separated by commas (a trailing comma allowed), `}`.
    pub(super) fn parse_table_unpack(&mut self) -> (node: LValueNode)
        requires
            old(self).wf(),
        ensures
            tokens_placed(old(self).ts()) ==> spans_ok(lvalue_errors(lvalue_node_view(node))),
            final(self).wf(),
            final(self).ts() == old(self).ts(),
            old(self).idx() <= final(self).idx() <= old(self).ts().len(),
            old(self).idx() < old(self).ts().len() ==> old(self).idx() < final(self).idx(),
            sp_table_unpack(old(self).ts(), old(self).idx()) == (final(self).idx(), lvalue_node_view(node)),
        decreases old(self).remaining(), 34nat,
    {
        proof {
            self.lemma_wf();
        }
        let start = self.get_start();
        let is_open = self.is_next(TokenValue::SpecialCharacter(SpecialCharacter::OpenCurlyBracket));
        self.consume();
        if !is_open {
            return lvalue_error("Expected '{' to open table unpack", start, self.get_end());
        }
        proof {
            self.lemma_wf();
        }
        let elements = self.parse_table_unpack_elements();
        if !self.consume_if(TokenValue::SpecialCharacter(SpecialCharacter::CloseCurlyBracket)) {
            return lvalue_error("Expected '}' to close table unpack", start, self.get_end());
        }
        LValueNode { value: Box::new(LValue::TableUnpack { elements }), start, end: self.get_end() }
    }

    /// Elements up to `}`, separated by commas; those without a key take the
    /// numeric keys from 1 on.
    fn parse_table_unpack_elements(&mut self) -> (elements: Vec<TableUnpackElementNode>)
        requires
            old(self).wf(),
        ensures
            tokens_placed(old(self).ts()) ==> spans_ok(unpack_elements_errors(unpack_element_nodes_view(elements@))),
            final(self).wf(),
            final(self).ts() == old(self).ts(),
            old(self).idx() <= final(self).idx() <= old(self).ts().len(),
            sp_unpack_elements(old(self).ts(), old(self).idx(), 1, Seq::empty()) == (
                final(self).idx(),
                unpack_element_nodes_view(elements@),
            ),
        decreases old(self).remaining(), 37nat,
    {
        let ghost ts = self.ts();
        let ghost i0 = self.idx();
        let mut elements: Vec<TableUnpackElementNode> = Vec::new();
        let mut next_numeric_index: i64 = 1;
        proof {
            self.lemma_wf();
        }
        loop
            invariant_except_break
                ts == old(self).ts(),
                i0 == old(self).idx(),
                self.wf(),
                self.ts() == ts,
                i0 <= self.idx() <= ts.len(),
                rem(ts, i0) == ts.len() - i0,
                1 <= next_numeric_index <= self.idx() - i0 + 1,
                sp_unpack_elements(ts, i0, 1, Seq::empty()) == sp_unpack_elements(
                    ts,
                    self.idx(),
                    next_numeric_index as int,
                    unpack_element_nodes_view(elements@),
                ),
                tokens_placed(ts) ==> spans_ok(unpack_elements_errors(unpack_element_nodes_view(elements@))),
            ensures
                self.wf(),
                self.ts() == ts,
                i0 <= self.idx() <= ts.len(),
                sp_unpack_elements(ts, i0, 1, Seq::empty()) == (self.idx(), unpack_element_nodes_view(elements@)),
                tokens_placed(ts) ==> spans_ok(unpack_elements_errors(unpack_element_nodes_view(elements@))),
            decreases ts.len() - self.idx(),
        {
            if self.is_next(TokenValue::SpecialCharacter(SpecialCharacter::CloseCurlyBracket)) {
                break;
            }
            let ghost before = elements@;
            let (element, next) = self.parse_table_unpack_element(next_numeric_index);
            next_numeric_index = next;
            elements.push(element);
            proof {
                lemma_unpack_element_nodes_push(before, element);
                super::errors::lemma_unpack_elements_errors_push(unpack_element_nodes_view(before), unpack_element_node_view(element));
                self.lemma_wf();
            }
            if !self.consume_if(TokenValue::SpecialCharacter(SpecialCharacter::Comma)) {
                break;
            }
        }
        elements
    }

    /// An element: `.name` (or `.name = variable`), `[key] = variable`, or a variable
    /// that takes the next numeric key. Yields the element and the next
    /// numeric key.
    fn parse_table_unpack_element(&mut self, next_numeric_index: i64) -> (r: (TableUnpackElementNode, i64))
        requires
            old(self).wf(),
            1 <= next_numeric_index <= 0x4000_0000_0000_0000,
        ensures
            tokens_placed(old(self).ts()) ==> spans_ok(unpack_element_errors(unpack_element_node_view(r.0))),
            final(self).wf(),
            final(self).ts() == old(self).ts(),
            old(self).idx() <= final(self).idx() <= old(self).ts().len(),
            next_numeric_index <= r.1 <= next_numeric_index + 1,
            sp_unpack_element(old(self).ts(), old(self).idx(), next_numeric_index as int) == (
                final(self).idx(),
                unpack_element_node_view(r.0),
                r.1 as int,
            ),
        decreases old(self).remaining(), 36nat,
    {
        proof {
            self.lemma_wf();
        }
        let start = self.get_start();
        match self.peek_value() {
            Some(TokenValue::Operator(Operator::Index)) => {
                self.consume();
                match self.peek_value() {
                    Some(TokenValue::Symbol(symbol)) => {
                        self.consume();
                        let key = super::name_key_node(symbol.clone(), start, self.get_end());
                        if self.consume_if(TokenValue::Operator(Operator::Assignment)) {
                            proof {
                                self.lemma_wf();
                            }
                            let item = self.parse_lvalue();
                            (
                                TableUnpackElementNode {
                                    value: Box::new(TableUnpackElement::Valid { key, variable: item }),
                                    start,
                                    end: self.get_end(),
                                },
                                next_numeric_index,
                            )
                        } else {
                            let item = LValueNode { value: Box::new(LValue::Symbol(symbol)), start, end: self.get_end() };
                            (
                                TableUnpackElementNode {
                                    value: Box::new(TableUnpackElement::Valid { key, variable: item }),
                                    start,
                                    end: self.get_end(),
                                },
                                next_numeric_index,
                            )
                        }
                    },
                    _ => (
                        TableUnpackElementNode {
                            value: Box::new(
                                TableUnpackElement::SyntaxError(
                                    String::from_str("Expected key name after '.' in table unpack"),
                                ),
                            ),
                            start,
                            end: self.get_end(),
                        },
                        next_numeric_index,
                    ),
                }
            },
            Some(TokenValue::SpecialCharacter(SpecialCharacter::OpenSquareBracket)) => {
                self.consume();
                proof {
                    self.lemma_wf();
                }
                let key = self.parse_expression();
                if !self.consume_if(
                    TokenValue::SpecialCharacter(SpecialCharacter::CloseSquareBracket),
                ) {
                    (
                        TableUnpackElementNode {
                            value: Box::new(
                                TableUnpackElement::SyntaxError(
                                    String::from_str(
                                        "Expected ']' to close table unpack index expression",
                                    ),
                                ),
                            ),
                            start,
                            end: self.get_end(),
                        },
                        next_numeric_index,
                    )
                } else if !self.consume_if(TokenValue::Operator(Operator::Assignment)) {
                    (
                        TableUnpackElementNode {
                            value: Box::new(
                                TableUnpackElement::SyntaxError(
                                    String::from_str("Expected '=' after table unpack index expression"),
                                ),
                            ),
                            start,
                            end: self.get_end(),
                        },
                        next_numeric_index,
                    )
                } else {
                    proof {
                        self.lemma_wf();
                    }
                    let item = self.parse_lvalue();
                    (
                        TableUnpackElementNode {
                            value: Box::new(TableUnpackElement::Valid { key, variable: item }),
                            start,
                            end: self.get_end(),
                        },
                        next_numeric_index,
                    )
                }
            },
            _ => {
                let item = self.parse_lvalue();
                let key = ExpressionNode {
                    value: Box::new(Expression::Int(next_numeric_index)),
                    start,
                    end: self.get_end(),
                };
                (
                    TableUnpackElementNode {
                        value: Box::new(TableUnpackElement::Valid { key, variable: item }),
                        start,
                        end: self.get_end(),
                    },
                    next_numeric_index + 1,
                )
            },
        }
    }
}

} // verus!
