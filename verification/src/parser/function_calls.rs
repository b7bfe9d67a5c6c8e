use vstd::prelude::*;

use super::{expression_error, Parser};
use super::errors::{expr_errors, expr_node_ok, exprs_errors, tokens_placed};
use super::grammar::sp_call;
use super::nodes::{expr_node_view, expr_nodes_view, Expression, ExpressionNode};

use crate::common::SpecialCharacter;
use crate::lexer::TokenValue;

verus! {

broadcast use super::errors::lemma_spans_ok_add;

impl Parser {
    /// `(`, arguments, `)` after the callee `lhs`.
    pub(super) fn parse_call(&mut self, lhs: ExpressionNode, is_optional: bool) -> (node:
        ExpressionNode)
        requires
            tokens_placed(old(self).ts()) ==> expr_node_ok(expr_node_view(lhs)),
            old(self).wf(),
        ensures
            tokens_placed(old(self).ts()) ==> expr_node_ok(expr_node_view(node)),
            final(self).wf(),
            final(self).ts() == old(self).ts(),
            old(self).idx() <= final(self).idx() <= old(self).ts().len(),
            old(self).idx() < old(self).ts().len() ==> old(self).idx() < final(self).idx(),
            sp_call(old(self).ts(), old(self).idx(), expr_node_view(lhs), is_optional) == (
                final(self).idx(),
                expr_node_view(node),
            ),
        decreases old(self).remaining(), 33nat,
    {
        proof {
            self.lemma_wf();
        }
        let start = self.get_start();
        let is_open = self.is_next(TokenValue::SpecialCharacter(SpecialCharacter::OpenBracket));
        self.consume();
        if !is_open {
            return expression_error(
                "Expected '(' to open function argument list",
                start,
                self.get_end(),
            );
        }
        proof {
            self.lemma_wf();
        }
        let arguments = if self.is_next(TokenValue::SpecialCharacter(SpecialCharacter::CloseBracket)) {
            let empty: Vec<ExpressionNode> = Vec::new();
            proof {
                assert(expr_nodes_view(empty@) =~= Seq::empty());
            }
            empty
        } else {
            self.parse_expression_list()
        };
        if !self.consume_if(TokenValue::SpecialCharacter(SpecialCharacter::CloseBracket)) {
            return expression_error(
                "Expected ')' to close function argument list",
                start,
                self.get_end(),
            );
        }
        let ghost lv = expr_node_view(lhs);
        let ghost av = expr_nodes_view(arguments@);
        let node = ExpressionNode {
            value: Box::new(Expression::Call { lhs, is_optional, arguments }),
            start,
            end: self.get_end(),
        };
        assert(expr_errors(expr_node_view(node)) == expr_errors(lv) + exprs_errors(av));
        node
    }
}

} // verus!
