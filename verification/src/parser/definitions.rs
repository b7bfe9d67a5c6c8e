use vstd::prelude::*;

use super::{statement_error, Parser};
use super::errors::{spans_ok, stmt_errors, tokens_placed};
use super::grammar::sp_definition;
use super::nodes::{stmt_node_view, Statement, StatementNode};

use crate::common::{Keyword, Operator};
use crate::lexer::TokenValue;

verus! {

broadcast use super::errors::lemma_spans_ok_add;

impl Parser {
    /// `def`, `mut` or `export`, variables, `=`, values. `def` and `export`
    /// define constants.
    pub(super) fn parse_definition(&mut self) -> (node: StatementNode)
        requires
            old(self).wf(),
        ensures
            tokens_placed(old(self).ts()) ==> spans_ok(stmt_errors(stmt_node_view(node))),
            final(self).wf(),
            final(self).ts() == old(self).ts(),
            old(self).idx() <= final(self).idx() <= old(self).ts().len(),
            old(self).idx() < old(self).ts().len() ==> old(self).idx() < final(self).idx(),
            sp_definition(old(self).ts(), old(self).idx()) == (
                final(self).idx(),
                stmt_node_view(node),
            ),
        decreases old(self).remaining(), 38nat,
    {
        proof {
            self.lemma_wf();
        }
        let start = self.get_start();
        let token = self.peek_value();
        self.consume();
        let keyword = match token {
            Some(TokenValue::Keyword(k)) => k,
            _ => {
                return statement_error("Expected 'def', 'mut' or 'export'", start, self.get_end());
            },
        };
        if !(keyword == Keyword::Constant || keyword == Keyword::Mutable || keyword
            == Keyword::Export) {
            return statement_error("Expected 'def', 'mut' or 'export'", start, self.get_end());
        }
        proof {
            self.lemma_wf();
        }
        let lhs = self.parse_lvalue_list();
        if !self.consume_if(TokenValue::Operator(Operator::Assignment)) {
            return statement_error("Expected '=' following definition", start, self.get_end());
        }
        proof {
            self.lemma_wf();
        }
        let rhs = self.parse_expression_list();
        StatementNode {
            value: Box::new(
                Statement::Definition {
                    is_constant: keyword == Keyword::Constant || keyword == Keyword::Export,
                    is_export: keyword == Keyword::Export,
                    lhs,
                    rhs,
                },
            ),
            start,
            end: self.get_end(),
        }
    }
}

} // verus!
