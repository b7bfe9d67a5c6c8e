use vstd::prelude::*;
use vstd::string::StringExecFns;

use super::{expression_error, Parser};
use super::errors::{expr_node_ok, tokens_placed};
use super::grammar::{sp_operand, BlockStop};
use super::nodes::{expr_node_view, Expression, ExpressionNode};

use crate::common::{Keyword, SpecialCharacter};
use crate::lexer::TokenValue;
use crate::text::push_char;

verus! {

broadcast use super::errors::lemma_spans_ok_add;

impl Parser {
    /// A literal, a symbol, a bracketed expression, a unary operation, a
    /// table, a `do` block, a function, an `if`, a `for`, or a string.
    pub(super) fn parse_operand(&mut self) -> (node: ExpressionNode)
        requires
            old(self).wf(),
        ensures
            tokens_placed(old(self).ts()) ==> expr_node_ok(expr_node_view(node)),
            final(self).wf(),
            final(self).ts() == old(self).ts(),
            old(self).idx() <= final(self).idx() <= old(self).ts().len(),
            old(self).idx() < old(self).ts().len() ==> old(self).idx() < final(self).idx(),
            sp_operand(old(self).ts(), old(self).idx()) == (final(self).idx(), expr_node_view(node)),
        decreases old(self).remaining(), 34nat,
    {
        proof {
            self.lemma_wf();
        }
        let start = self.get_start();
        let value = match self.peek_value() {
            Some(v) => v,
            None => {
                return expression_error(
                    "Expression ran off the end of the program",
                    start,
                    self.get_end(),
                );
            },
        };
        match value {
            TokenValue::Operator(_) => self.parse_unary_operator(),
            TokenValue::SpecialCharacter(SpecialCharacter::OpenBracket) => {
                self.consume();
                proof {
                    self.lemma_wf();
                }
                let inner = self.parse_expression();
                if self.consume_if(TokenValue::SpecialCharacter(SpecialCharacter::CloseBracket)) {
                    inner
                } else {
                    expression_error("Expected ')' to close inner expression", start, self.get_end())
                }
            },
            TokenValue::SpecialCharacter(SpecialCharacter::OpenCurlyBracket) => {
                self.parse_table_definition()
            },
            TokenValue::SpecialCharacter(_) => {
                self.consume();
                expression_error(
                    "Unexpected special character in expression",
                    start,
                    self.get_end(),
                )
            },
            TokenValue::Keyword(Keyword::Do) => {
                self.consume();
                proof {
                    self.lemma_wf();
                }
                let block = self.parse_block(BlockStop::End);
                if self.consume_if(TokenValue::Keyword(Keyword::End)) {
                    ExpressionNode {
                        value: Box::new(Expression::Block(block)),
                        start,
                        end: self.get_end(),
                    }
                } else {
                    expression_error("Expected 'end' to close 'do' block", start, self.get_end())
                }
            },
            TokenValue::Keyword(Keyword::Function) => self.parse_function_definition(),
            TokenValue::Keyword(Keyword::If) => self.parse_if(),
            TokenValue::Keyword(Keyword::For) => self.parse_for(),
            TokenValue::Keyword(_) => {
                self.consume();
                expression_error("Unexpected keyword in expression", start, self.get_end())
            },
            TokenValue::Nil => {
                self.consume();
                ExpressionNode { value: Box::new(Expression::Nil), start, end: self.get_end() }
            },
            TokenValue::Bool(b) => {
                self.consume();
                ExpressionNode { value: Box::new(Expression::Bool(b)), start, end: self.get_end() }
            },
            TokenValue::Int(i) => {
                self.consume();
                ExpressionNode { value: Box::new(Expression::Int(i)), start, end: self.get_end() }
            },
            TokenValue::Double(d) => {
                self.consume();
                ExpressionNode { value: Box::new(Expression::Double(d)), start, end: self.get_end() }
            },
            TokenValue::String(_)
            | TokenValue::MalformedString(_)
            | TokenValue::FormatStringStart(_)
            | TokenValue::FormatStringMiddle(_)
            | TokenValue::FormatStringEnd(_) => self.parse_string(),
            TokenValue::Symbol(symbol) => {
                self.consume();
                ExpressionNode {
                    value: Box::new(Expression::Symbol(symbol)),
                    start,
                    end: self.get_end(),
                }
            },
            TokenValue::Comment(_) => {
                self.consume();
                expression_error(
                    "Comments were not stripped from parser tokens (this should not happen!)",
                    start,
                    self.get_end(),
                )
            },
            TokenValue::UnexpectedCharacter(c) => {
                self.consume();
                let mut message = String::from_str("Unexpected character '");
                push_char(&mut message, c);
                message.append("'");
                ExpressionNode {
                    value: Box::new(Expression::SyntaxError(message)),
                    start,
                    end: self.get_end(),
                }
            },
            TokenValue::MalformedNumber(number_message) => {
                self.consume();
                let mut message = String::from_str("Malformed number: ");
                message.append(number_message.as_str());
                ExpressionNode {
                    value: Box::new(Expression::SyntaxError(message)),
                    start,
                    end: self.get_end(),
                }
            },
        }
    }
}

} // verus!
