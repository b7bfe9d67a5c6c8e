use vstd::prelude::*;

use super::Parser;
use super::errors::{expr_node_ok, tokens_placed};
use super::grammar::{binds_at_least, next_is, rem, sp_expression, sp_sub_expression};
use super::nodes::{expr_node_view, Expression, ExpressionNode};
use super::operators::is_binary_operator_with_greater_or_equal_precedence;

use crate::common::{Operator, SpecialCharacter};
use crate::lexer::TokenValue;

verus! {

broadcast use super::errors::lemma_spans_ok_add;

impl Parser {
    /// An operand, then the binary operators, calls and indexes that follow it.
    pub(super) fn parse_expression(&mut self) -> (node: ExpressionNode)
        requires
            old(self).wf(),
        ensures
            tokens_placed(old(self).ts()) ==> expr_node_ok(expr_node_view(node)),
            final(self).wf(),
            final(self).ts() == old(self).ts(),
            old(self).idx() <= final(self).idx() <= old(self).ts().len(),
            old(self).idx() < old(self).ts().len() ==> old(self).idx() < final(self).idx(),
            sp_expression(old(self).ts(), old(self).idx()) == (final(self).idx(), expr_node_view(node)),
        decreases old(self).remaining(), 35nat,
    {
        proof {
            self.lemma_wf();
        }
        let lhs = self.parse_operand();
        match *lhs.value {
            Expression::SyntaxError(_) => lhs,
            _ => {
                proof {
                    self.lemma_wf();
                }
                self.parse_sub_expression(lhs, 0)
            },
        }
    }

    /// Applies to `lhs` each binary operator, call or index that follows and
    /// binds at least as tightly as `min_precedence`.
    pub(super) fn parse_sub_expression(&mut self, lhs: ExpressionNode, min_precedence: u16) -> (node:
        ExpressionNode)
        requires
            tokens_placed(old(self).ts()) ==> expr_node_ok(expr_node_view(lhs)),
            old(self).wf(),
        ensures
            tokens_placed(old(self).ts()) ==> expr_node_ok(expr_node_view(node)),
            final(self).wf(),
            final(self).ts() == old(self).ts(),
            old(self).idx() <= final(self).idx() <= old(self).ts().len(),
            binds_at_least(old(self).ts(), old(self).idx(), min_precedence) ==> old(self).idx()
                < final(self).idx(),
            sp_sub_expression(old(self).ts(), old(self).idx(), expr_node_view(lhs), min_precedence)
                == (final(self).idx(), expr_node_view(node)),
        decreases old(self).remaining(), 34nat,
    {
        let ghost ts = self.ts();
        let ghost i0 = self.idx();
        let ghost lhs0 = expr_node_view(lhs);
        let mut lhs = lhs;
        proof {
            self.lemma_wf();
        }
        loop
            invariant_except_break
                ts == old(self).ts(),
                i0 == old(self).idx(),
                self.wf(),
                self.ts() == ts,
                i0 <= self.idx() <= ts.len(),
                rem(ts, i0) == ts.len() - i0,
                sp_sub_expression(ts, i0, lhs0, min_precedence) == sp_sub_expression(
                    ts,
                    self.idx(),
                    expr_node_view(lhs),
                    min_precedence,
                ),
                tokens_placed(ts) ==> expr_node_ok(expr_node_view(lhs)),
            ensures
                self.wf(),
                self.ts() == ts,
                i0 <= self.idx() <= ts.len(),
                binds_at_least(ts, i0, min_precedence) ==> i0 < self.idx(),
                sp_sub_expression(ts, i0, lhs0, min_precedence) == (
                    self.idx(),
                    expr_node_view(lhs),
                ),
                tokens_placed(ts) ==> expr_node_ok(expr_node_view(lhs)),
            decreases ts.len() - self.idx(),
        {
            let lookahead = match self.peek_value() {
                Some(v) => v,
                None => {
                    break;
                },
            };
            if !is_binary_operator_with_greater_or_equal_precedence(&lookahead, min_precedence) {
                break;
            }
            let ghost i = self.idx();
            lhs = if self.is_next(TokenValue::SpecialCharacter(SpecialCharacter::OpenBracket)) {
                self.parse_call(lhs, false)
            } else if self.is_next(TokenValue::SpecialCharacter(SpecialCharacter::OpenSquareBracket)) {
                self.parse_index_expression(lhs, false)
            } else if self.is_next(TokenValue::Operator(Operator::OptionalIndex)) && self.next_after_is(
                TokenValue::SpecialCharacter(SpecialCharacter::OpenBracket),
            ) {
                self.consume();
                self.parse_call(lhs, true)
            } else if self.is_next(TokenValue::Operator(Operator::OptionalIndex)) && self.next_after_is(
                TokenValue::SpecialCharacter(SpecialCharacter::OpenSquareBracket),
            ) {
                self.consume();
                self.parse_index_expression(lhs, true)
            } else {
                self.parse_binary_operator(lhs)
            };
            proof {
                self.lemma_wf();
            }
        }
        lhs
    }

    /// Whether the token after the one at the read index has the value `value`.
    pub(super) fn next_after_is(&self, value: TokenValue) -> (b: bool)
        requires
            self.wf(),
        ensures
            b == next_is(self.ts(), self.idx() + 1, value@),
    {
        match self.peek_value_at(1) {
            Some(v) => super::token_values_equal(&v, &value),
            None => false,
        }
    }
}

} // verus!
