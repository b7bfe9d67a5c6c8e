use vstd::prelude::*;

use super::{expression_error, Parser};
use super::errors::{expr_node_ok, tokens_placed};
use super::grammar::sp_unary_operator;
use super::nodes::{expr_node_view, Expression, ExpressionNode};
use super::operators::{get_operator_metadata, UNARY_PRECEDENCE};

use crate::common::Operator;
use crate::lexer::TokenValue;

verus! {

broadcast use super::errors::lemma_spans_ok_add;

impl Parser {
    /// A unary operator (or `-`) and its operand. The node spans the operator.
    pub(super) fn parse_unary_operator(&mut self) -> (node: ExpressionNode)
        requires
            old(self).wf(),
        ensures
            tokens_placed(old(self).ts()) ==> expr_node_ok(expr_node_view(node)),
            final(self).wf(),
            final(self).ts() == old(self).ts(),
            old(self).idx() <= final(self).idx() <= old(self).ts().len(),
            old(self).idx() < old(self).ts().len() ==> old(self).idx() < final(self).idx(),
            sp_unary_operator(old(self).ts(), old(self).idx()) == (
                final(self).idx(),
                expr_node_view(node),
            ),
        decreases old(self).remaining(), 33nat,
    {
        proof {
            self.lemma_wf();
        }
        let start = self.get_start();
        let token = self.peek_value();
        self.consume();
        let end = self.get_end();
        if let Some(TokenValue::Operator(op)) = token {
            let metadata = get_operator_metadata(op);
            if metadata.is_unary || op == Operator::Subtract {
                proof {
                    self.lemma_wf();
                }
                let sub_expression_lhs = self.parse_operand();
                proof {
                    self.lemma_wf();
                }
                let rhs = self.parse_sub_expression(sub_expression_lhs, UNARY_PRECEDENCE);
                return ExpressionNode {
                    value: Box::new(Expression::UnaryOperator { op, rhs }),
                    start,
                    end,
                };
            }
        }
        expression_error("Expected operand or unary operator", start, end)
    }
}

} // verus!
