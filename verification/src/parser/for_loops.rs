use vstd::prelude::*;

use super::{expression_error, Parser};
use super::errors::{expr_node_ok, tokens_placed};
use super::grammar::{sp_for, BlockStop};
use super::nodes::{expr_node_view, Expression, ExpressionNode};

use crate::common::Keyword;
use crate::lexer::TokenValue;

verus! {

broadcast use super::errors::lemma_spans_ok_add;

impl Parser {
    /// `for`, variables, `in`, an expression, `do`, a body, `end`.
    pub(super) fn parse_for(&mut self) -> (node: ExpressionNode)
        requires
            old(self).wf(),
        ensures
            tokens_placed(old(self).ts()) ==> expr_node_ok(expr_node_view(node)),
            final(self).wf(),
            final(self).ts() == old(self).ts(),
            old(self).idx() <= final(self).idx() <= old(self).ts().len(),
            old(self).idx() < old(self).ts().len() ==> old(self).idx() < final(self).idx(),
            sp_for(old(self).ts(), old(self).idx()) == (final(self).idx(), expr_node_view(node)),
        decreases old(self).remaining(), 33nat,
    {
        proof {
            self.lemma_wf();
        }
        let start = self.get_start();
        let is_for = self.is_next(TokenValue::Keyword(Keyword::For));
        self.consume();
        if !is_for {
            return expression_error("Expected 'for' keyword", start, self.get_end());
        }
        proof {
            self.lemma_wf();
        }
        let lhs = self.parse_lvalue_list();
        if !self.consume_if(TokenValue::Keyword(Keyword::In)) {
            return expression_error(
                "Expected 'in' keyword to follow for loop variable declarations",
                start,
                self.get_end(),
            );
        }
        proof {
            self.lemma_wf();
        }
        let enumerable = self.parse_expression();
        if !self.consume_if(TokenValue::Keyword(Keyword::Do)) {
            return expression_error(
                "Expected 'do' keyword to follow for loop enumerable",
                start,
                self.get_end(),
            );
        }
        proof {
            self.lemma_wf();
        }
        let body = self.parse_block(BlockStop::End);
        if !self.consume_if(TokenValue::Keyword(Keyword::End)) {
            return expression_error(
                "Expected 'end' keyword to close for loop body",
                start,
                self.get_end(),
            );
        }
        ExpressionNode {
            value: Box::new(Expression::For { lhs, enumerable, body }),
            start,
            end: self.get_end(),
        }
    }
}

} // verus!
