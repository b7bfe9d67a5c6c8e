use vstd::prelude::*;

use super::{expression_error, Parser};
use super::errors::{expr_node_ok, tokens_placed};
use super::grammar::{rem, sp_binary_operator, sp_binary_rhs};
use super::nodes::{expr_node_view, Expression, ExpressionNode};
use super::operators::{
    get_operator_metadata, get_token_metadata, is_right_hand_side_chained_operator,
};

use crate::common::Operator;
use crate::lexer::TokenValue;

verus! {

broadcast use super::errors::lemma_spans_ok_add;

impl Parser {
    /// A binary operator and its right-hand side, applied to `lhs`. The node
    /// spans the operator.
    pub(super) fn parse_binary_operator(&mut self, lhs: ExpressionNode) -> (node: ExpressionNode)
        requires
            tokens_placed(old(self).ts()) ==> expr_node_ok(expr_node_view(lhs)),
            old(self).wf(),
        ensures
            tokens_placed(old(self).ts()) ==> expr_node_ok(expr_node_view(node)),
            final(self).wf(),
            final(self).ts() == old(self).ts(),
            old(self).idx() <= final(self).idx() <= old(self).ts().len(),
            old(self).idx() < old(self).ts().len() ==> old(self).idx() < final(self).idx(),
            sp_binary_operator(old(self).ts(), old(self).idx(), expr_node_view(lhs)) == (
                final(self).idx(),
                expr_node_view(node),
            ),
        decreases old(self).remaining(), 33nat,
    {
        proof {
            self.lemma_wf();
        }
        let start = self.get_start();
        let token = self.peek_value();
        self.consume();
        let end = self.get_end();
        let op = match token {
            Some(TokenValue::Operator(op)) => op,
            _ => {
                return expression_error("Expected binary operator", start, end);
            },
        };
        let metadata = get_operator_metadata(op);
        proof {
            self.lemma_wf();
        }
        let first = self.parse_operand();
        proof {
            self.lemma_wf();
        }
        let rhs = self.parse_binary_rhs(first, metadata.precedence);
        match op {
            Operator::Assignment => {
                let is_valid_for_assignment = match &*lhs.value {
                    Expression::Symbol(_) => true,
                    Expression::BinaryOperator { op: Operator::Index, .. } => true,
                    _ => false,
                };
                if is_valid_for_assignment {
                    ExpressionNode {
                        value: Box::new(Expression::BinaryOperator { op, lhs, rhs }),
                        start,
                        end,
                    }
                } else {
                    expression_error(
                        "Expected symbol or index expression (without optional chaining) on left side of assignment operator",
                        lhs.start,
                        lhs.end,
                    )
                }
            },
            Operator::Index | Operator::OptionalIndex => {
                let rhs_start = rhs.start;
                let rhs_end = rhs.end;
                match *rhs.value {
                    Expression::Symbol(symbol) => {
                        let key = super::name_key_node(symbol, rhs_start, rhs_end);
                        ExpressionNode {
                            value: Box::new(Expression::BinaryOperator { op, lhs, rhs: key }),
                            start,
                            end,
                        }
                    },
                    _ => expression_error(
                        "Expected symbol on right-hand side of index operator",
                        rhs_start,
                        rhs_end,
                    ),
                }
            },
            _ => ExpressionNode {
                value: Box::new(Expression::BinaryOperator { op, lhs, rhs }),
                start,
                end,
            },
        }
    }

    /// Extends the right-hand side of an operator of the given precedence
    /// while the next operator chains onto it.
    fn parse_binary_rhs(&mut self, rhs: ExpressionNode, precedence: u16) -> (node: ExpressionNode)
        requires
            tokens_placed(old(self).ts()) ==> expr_node_ok(expr_node_view(rhs)),
            old(self).wf(),
            precedence <= 1000,
        ensures
            tokens_placed(old(self).ts()) ==> expr_node_ok(expr_node_view(node)),
            final(self).wf(),
            final(self).ts() == old(self).ts(),
            old(self).idx() <= final(self).idx() <= old(self).ts().len(),
            sp_binary_rhs(old(self).ts(), old(self).idx(), expr_node_view(rhs), precedence) == (
                final(self).idx(),
                expr_node_view(node),
            ),
        decreases old(self).remaining(), 35nat,
    {
        let ghost ts = self.ts();
        let ghost i0 = self.idx();
        let ghost rhs0 = expr_node_view(rhs);
        let mut rhs = rhs;
        proof {
            self.lemma_wf();
        }
        loop
            invariant_except_break
                ts == old(self).ts(),
                i0 == old(self).idx(),
                self.wf(),
                self.ts() == ts,
                i0 <= self.idx() <= ts.len(),
                rem(ts, i0) == ts.len() - i0,
                precedence <= 1000,
                sp_binary_rhs(ts, i0, rhs0, precedence) == sp_binary_rhs(
                    ts,
                    self.idx(),
                    expr_node_view(rhs),
                    precedence,
                ),
                tokens_placed(ts) ==> expr_node_ok(expr_node_view(rhs)),
            ensures
                self.wf(),
                self.ts() == ts,
                i0 <= self.idx() <= ts.len(),
                sp_binary_rhs(ts, i0, rhs0, precedence) == (self.idx(), expr_node_view(rhs)),
                tokens_placed(ts) ==> expr_node_ok(expr_node_view(rhs)),
            decreases ts.len() - self.idx(),
        {
            let lookahead = match self.peek_value() {
                Some(v) => v,
                None => {
                    break;
                },
            };
            let lookahead_metadata = match get_token_metadata(&lookahead) {
                Some(m) => m,
                None => {
                    break;
                },
            };
            if !is_right_hand_side_chained_operator(&lookahead_metadata, precedence) {
                break;
            }
            let min = if lookahead_metadata.precedence > precedence {
                precedence + 1
            } else {
                precedence
            };
            proof {
                assert(super::grammar::binds_at_least(ts, self.idx(), min));
            }
            rhs = self.parse_sub_expression(rhs, min);
            proof {
                self.lemma_wf();
            }
        }
        rhs
    }
}

} // verus!
