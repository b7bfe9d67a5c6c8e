use vstd::prelude::*;
use vstd::string::StringExecFns;

use super::Parser;
use super::errors::{lvalue_errors, spans_ok, tokens_placed};
use super::grammar::sp_lvalue;
use super::nodes::{lvalue_node_view, LValue, LValueNode};

use crate::common::SpecialCharacter;
use crate::lexer::TokenValue;

verus! {

broadcast use super::errors::lemma_spans_ok_add;

impl Parser {
    /// A variable: a symbol or a table unpack.
    pub(super) fn parse_lvalue(&mut self) -> (node: LValueNode)
        requires
            old(self).wf(),
        ensures
            tokens_placed(old(self).ts()) ==> spans_ok(lvalue_errors(lvalue_node_view(node))),
            final(self).wf(),
            final(self).ts() == old(self).ts(),
            old(self).idx() <= final(self).idx() <= old(self).ts().len(),
            old(self).idx() < old(self).ts().len() ==> old(self).idx() < final(self).idx(),
            sp_lvalue(old(self).ts(), old(self).idx()) == (final(self).idx(), lvalue_node_view(node)),
        decreases old(self).remaining(), 35nat,
    {
        proof {
            self.lemma_wf();
        }
        match self.peek_value() {
            Some(TokenValue::Symbol(symbol)) => {
                let start = self.get_start();
                self.consume();
                LValueNode { value: Box::new(LValue::Symbol(symbol)), start, end: self.get_end() }
            },
            Some(TokenValue::SpecialCharacter(SpecialCharacter::OpenCurlyBracket)) => {
                self.parse_table_unpack()
            },
            _ => {
                let start = self.get_start();
                self.consume();
                LValueNode {
                    value: Box::new(
                        LValue::SyntaxError(String::from_str("Expected variable name or table unpack")),
                    ),
                    start,
                    end: self.get_end(),
                }
            },
        }
    }
}

} // verus!
