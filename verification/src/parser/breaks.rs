use vstd::prelude::*;

use super::{statement_error, Parser};
use super::errors::{spans_ok, stmt_errors, tokens_placed};
use super::grammar::sp_break;
use super::nodes::{stmt_node_view, Statement, StatementNode};

use crate::common::Keyword;
use crate::lexer::TokenValue;

verus! {

broadcast use super::errors::lemma_spans_ok_add;

impl Parser {
    /// `break`.
    pub(super) fn parse_break(&mut self) -> (node: StatementNode)
        requires
            old(self).wf(),
        ensures
            tokens_placed(old(self).ts()) ==> spans_ok(stmt_errors(stmt_node_view(node))),
            final(self).wf(),
            final(self).ts() == old(self).ts(),
            old(self).idx() <= final(self).idx() <= old(self).ts().len(),
            old(self).idx() < old(self).ts().len() ==> old(self).idx() < final(self).idx(),
            sp_break(old(self).ts(), old(self).idx()) == (final(self).idx(), stmt_node_view(node)),
        decreases old(self).remaining(), 38nat,
    {
        let start = self.get_start();
        let is_break = self.is_next(TokenValue::Keyword(Keyword::Break));
        self.consume();
        if !is_break {
            statement_error("Expected 'break' keyword", start, self.get_end())
        } else {
            StatementNode { value: Box::new(Statement::Break), start, end: self.get_end() }
        }
    }
}

} // verus!
