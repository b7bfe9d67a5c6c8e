use vstd::prelude::*;

use super::{expression_error, Parser};
use super::errors::{expr_node_ok, tokens_placed};
use super::grammar::sp_index_expression;
use super::nodes::{expr_node_view, Expression, ExpressionNode};

use crate::common::{Operator, SpecialCharacter};
use crate::lexer::TokenValue;

verus! {

broadcast use super::errors::lemma_spans_ok_add;

impl Parser {
    /// `[`, an expression, `]` after the table `lhs`.
    pub(super) fn parse_index_expression(&mut self, lhs: ExpressionNode, is_optional: bool) -> (node:
        ExpressionNode)
        requires
            tokens_placed(old(self).ts()) ==> expr_node_ok(expr_node_view(lhs)),
            old(self).wf(),
        ensures
            tokens_placed(old(self).ts()) ==> expr_node_ok(expr_node_view(node)),
            final(self).wf(),
            final(self).ts() == old(self).ts(),
            old(self).idx() <= final(self).idx() <= old(self).ts().len(),
            old(self).idx() < old(self).ts().len() ==> old(self).idx() < final(self).idx(),
            sp_index_expression(old(self).ts(), old(self).idx(), expr_node_view(lhs), is_optional)
                == (final(self).idx(), expr_node_view(node)),
        decreases old(self).remaining(), 33nat,
    {
        proof {
            self.lemma_wf();
        }
        let start = self.get_start();
        let is_open = self.is_next(TokenValue::SpecialCharacter(SpecialCharacter::OpenSquareBracket));
        self.consume();
        if !is_open {
            return expression_error("Expected '[' to open table index", start, self.get_end());
        }
        proof {
            self.lemma_wf();
        }
        let rhs = self.parse_expression();
        if !self.consume_if(TokenValue::SpecialCharacter(SpecialCharacter::CloseSquareBracket)) {
            return expression_error("Expected ']' to close table index", start, self.get_end());
        }
        let op = if is_optional {
            Operator::OptionalIndex
        } else {
            Operator::Index
        };
        ExpressionNode {
            value: Box::new(Expression::BinaryOperator { op, lhs, rhs }),
            start,
            end: self.get_end(),
        }
    }
}

} // verus!
