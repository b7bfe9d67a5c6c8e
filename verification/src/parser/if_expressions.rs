use vstd::prelude::*;

use super::{expression_error, Parser};
use super::errors::{
    expr_errors, expr_node_ok, if_branch_errors, if_branches_errors, lemma_if_branches_errors_push,
    position_ok, spans_ok, stmts_errors, tokens_placed,
};
use super::grammar::{is_branch_end, rem, sp_if, sp_if_branches, sp_if_tail, BlockStop};
use super::nodes::{
    expr_node_view, if_branch_view, if_branches_view, lemma_if_branches_push, stmt_nodes_view,
    Expression, ExpressionNode, IfBranch,
};

use crate::common::{Keyword, Position};
use crate::lexer::TokenValue;

verus! {

broadcast use super::errors::lemma_spans_ok_add;

impl Parser {
    /// `if`, branches, an optional `else` branch, `end`.
    pub(super) fn parse_if(&mut self) -> (node: ExpressionNode)
        requires
            old(self).wf(),
        ensures
            tokens_placed(old(self).ts()) ==> expr_node_ok(expr_node_view(node)),
            final(self).wf(),
            final(self).ts() == old(self).ts(),
            old(self).idx() <= final(self).idx() <= old(self).ts().len(),
            old(self).idx() < old(self).ts().len() ==> old(self).idx() < final(self).idx(),
            sp_if(old(self).ts(), old(self).idx()) == (final(self).idx(), expr_node_view(node)),
        decreases old(self).remaining(), 33nat,
    {
        proof {
            self.lemma_wf();
        }
        let start = self.get_start();
        let is_if = self.is_next(TokenValue::Keyword(Keyword::If));
        self.consume();
        if !is_if {
            return expression_error("Expected 'if' keyword", start, self.get_end());
        }
        proof {
            self.lemma_wf();
        }
        self.parse_if_branches(start)
    }

    /// Condition, `then`, body; then `elseif` and more branches, or the rest.
    fn parse_if_branches(&mut self, start: Position) -> (node: ExpressionNode)
        requires
            tokens_placed(old(self).ts()) ==> position_ok(start),
            old(self).wf(),
        ensures
            tokens_placed(old(self).ts()) ==> expr_node_ok(expr_node_view(node)),
            final(self).wf(),
            final(self).ts() == old(self).ts(),
            old(self).idx() <= final(self).idx() <= old(self).ts().len(),
            sp_if_branches(old(self).ts(), old(self).idx(), start, Seq::empty()) == (
                final(self).idx(),
                expr_node_view(node),
            ),
        decreases old(self).remaining(), 36nat,
    {
        let ghost ts = self.ts();
        let ghost i0 = self.idx();
        let mut if_branches: Vec<IfBranch> = Vec::new();
        proof {
            self.lemma_wf();
        }
        loop
            invariant
                ts == old(self).ts(),
                i0 == old(self).idx(),
                self.wf(),
                self.ts() == ts,
                i0 <= self.idx() <= ts.len(),
                rem(ts, i0) == ts.len() - i0,
                sp_if_branches(ts, i0, start, Seq::empty()) == sp_if_branches(
                    ts,
                    self.idx(),
                    start,
                    if_branches_view(if_branches@),
                ),
                tokens_placed(ts) ==> position_ok(start),
                tokens_placed(ts) ==> spans_ok(if_branches_errors(if_branches_view(if_branches@))),
            decreases ts.len() - self.idx(),
        {
            let condition = self.parse_expression();
            if !self.consume_if(TokenValue::Keyword(Keyword::Then)) {
                return expression_error("Expected 'then' after condition", start, self.get_end());
            }
            proof {
                self.lemma_wf();
            }
            let body = self.parse_block(BlockStop::IfBody);
            let at_branch_end = match self.peek_value() {
                Some(v) => v.is_branch_end(),
                None => false,
            };
            if !at_branch_end {
                return expression_error(
                    "Expected 'end', 'else', or 'elseif' after if expression body",
                    start,
                    self.get_end(),
                );
            }
            let ghost before = if_branches@;
            let branch = IfBranch { condition, body };
            if_branches.push(branch);
            proof {
                lemma_if_branches_push(before, branch);
                lemma_if_branches_errors_push(if_branches_view(before), if_branch_view(branch));
                assert(if_branch_errors(if_branch_view(branch)) == expr_errors(
                    expr_node_view(branch.condition),
                ) + stmts_errors(stmt_nodes_view(branch.body@)));
            }
            if !self.consume_if(TokenValue::Keyword(Keyword::ElseIf)) {
                proof {
                    self.lemma_wf();
                }
                return self.parse_if_tail(start, if_branches);
            }
            proof {
                self.lemma_wf();
            }
        }
    }

    /// An optional `else` branch, then `end`.
    fn parse_if_tail(&mut self, start: Position, if_branches: Vec<IfBranch>) -> (node: ExpressionNode)
        requires
            tokens_placed(old(self).ts()) ==> position_ok(start),
            tokens_placed(old(self).ts()) ==> spans_ok(if_branches_errors(if_branches_view(if_branches@))),
            old(self).wf(),
        ensures
            tokens_placed(old(self).ts()) ==> expr_node_ok(expr_node_view(node)),
            final(self).wf(),
            final(self).ts() == old(self).ts(),
            old(self).idx() <= final(self).idx() <= old(self).ts().len(),
            sp_if_tail(old(self).ts(), old(self).idx(), start, if_branches_view(if_branches@)) == (
                final(self).idx(),
                expr_node_view(node),
            ),
        decreases old(self).remaining(), 35nat,
    {
        proof {
            self.lemma_wf();
        }
        let else_branch = if self.consume_if(TokenValue::Keyword(Keyword::Else)) {
            proof {
                self.lemma_wf();
            }
            Some(self.parse_block(BlockStop::End))
        } else {
            None
        };
        if !self.consume_if(TokenValue::Keyword(Keyword::End)) {
            return expression_error("Expected 'end' to close if expression", start, self.get_end());
        }
        let ghost bv = if_branches_view(if_branches@);
        let ghost ev = match &else_branch {
            Some(b) => stmts_errors(stmt_nodes_view(b@)),
            None => Seq::empty(),
        };
        let node = ExpressionNode {
            value: Box::new(Expression::If { if_branches, else_branch }),
            start,
            end: self.get_end(),
        };
        assert(expr_errors(expr_node_view(node)) == if_branches_errors(bv) + ev);
        node
    }
}

impl TokenValue {
    /// Whether this is `end`, `else` or `elseif`.
    fn is_branch_end(&self) -> (b: bool)
        ensures
            b == is_branch_end(self@),
    {
        match self {
            TokenValue::Keyword(Keyword::End)
            | TokenValue::Keyword(Keyword::Else)
            | TokenValue::Keyword(Keyword::ElseIf) => true,
            _ => false,
        }
    }
}

} // verus!
