use vstd::prelude::*;

use super::{expression_error, Parser};
use super::errors::{expr_errors, expr_node_ok, lvalues_errors, stmts_errors, tokens_placed};
use super::grammar::{sp_function_definition, BlockStop};
use super::nodes::{
    expr_node_view, lvalue_nodes_view, stmt_nodes_view, Expression, ExpressionNode, LValueNode,
};

use crate::common::{Keyword, SpecialCharacter};
use crate::lexer::TokenValue;

verus! {

broadcast use super::errors::lemma_spans_ok_add;

impl Parser {
    /// `fn`, `(`, parameters, `)`, a body, `end`.
    pub(super) fn parse_function_definition(&mut self) -> (node: ExpressionNode)
        requires
            old(self).wf(),
        ensures
            tokens_placed(old(self).ts()) ==> expr_node_ok(expr_node_view(node)),
            final(self).wf(),
            final(self).ts() == old(self).ts(),
            old(self).idx() <= final(self).idx() <= old(self).ts().len(),
            old(self).idx() < old(self).ts().len() ==> old(self).idx() < final(self).idx(),
            sp_function_definition(old(self).ts(), old(self).idx()) == (
                final(self).idx(),
                expr_node_view(node),
            ),
        decreases old(self).remaining(), 33nat,
    {
        proof {
            self.lemma_wf();
        }
        let start = self.get_start();
        let is_function = self.is_next(TokenValue::Keyword(Keyword::Function));
        self.consume();
        if !is_function {
            return expression_error("Expected 'function' keyword", start, self.get_end());
        }
        if !self.consume_if(TokenValue::SpecialCharacter(SpecialCharacter::OpenBracket)) {
            return expression_error(
                "Expected '(' to open function parameter list",
                start,
                self.get_end(),
            );
        }
        proof {
            self.lemma_wf();
        }
        let parameters = if self.is_next(TokenValue::SpecialCharacter(SpecialCharacter::CloseBracket)) {
            let empty: Vec<LValueNode> = Vec::new();
            proof {
                assert(lvalue_nodes_view(empty@) =~= Seq::empty());
            }
            empty
        } else {
            self.parse_lvalue_list()
        };
        if !self.consume_if(TokenValue::SpecialCharacter(SpecialCharacter::CloseBracket)) {
            return expression_error(
                "Expected ')' to close function parameter list",
                start,
                self.get_end(),
            );
        }
        proof {
            self.lemma_wf();
        }
        let body = self.parse_block(BlockStop::End);
        if !self.consume_if(TokenValue::Keyword(Keyword::End)) {
            return expression_error(
                "Expected 'end' keyword to close function body",
                start,
                self.get_end(),
            );
        }
        let ghost pv = lvalue_nodes_view(parameters@);
        let ghost bv = stmt_nodes_view(body@);
        let node = ExpressionNode {
            value: Box::new(Expression::Function { parameters, body }),
            start,
            end: self.get_end(),
        };
        assert(expr_errors(expr_node_view(node)) == lvalues_errors(pv) + stmts_errors(bv));
        node
    }
}

} // verus!
