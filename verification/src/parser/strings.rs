use vstd::prelude::*;

use super::{expression_error, Parser};
use super::errors::{
    expr_errors, expr_node_ok, exprs_errors, lemma_exprs_errors_push, lemma_segments_errors_push,
    position_ok, segments_errors, spans_ok, tokens_placed,
};
use super::grammar::{end_at, sp_format_string, sp_string, tok};
use super::nodes::{
    expr_node_view, expr_nodes_view, lemma_expr_nodes_push, lemma_segment_nodes_push,
    segment_node_view, segment_nodes_view, Expression, ExpressionNode, StringSegment,
    StringSegmentNode,
};

use crate::common::Position;
use crate::lexer::{SpecTokenValue, TokenValue};

verus! {

broadcast use super::errors::lemma_spans_ok_add;

impl Parser {
    /// A string: a whole string literal, or a format string.
    pub(super) fn parse_string(&mut self) -> (node: ExpressionNode)
        requires
            old(self).wf(),
        ensures
            tokens_placed(old(self).ts()) ==> expr_node_ok(expr_node_view(node)),
            final(self).wf(),
            final(self).ts() == old(self).ts(),
            old(self).idx() <= final(self).idx() <= old(self).ts().len(),
            old(self).idx() < old(self).ts().len() ==> old(self).idx() < final(self).idx(),
            sp_string(old(self).ts(), old(self).idx()) == (final(self).idx(), expr_node_view(node)),
        decreases old(self).remaining(), 33nat,
    {
        proof {
            self.lemma_wf();
        }
        let start = self.get_start();
        match self.peek_value() {
            Some(TokenValue::String(value)) => {
                self.consume();
                super::name_key_node(value, start, self.get_end())
            },
            Some(TokenValue::MalformedString(message)) => {
                self.consume();
                ExpressionNode {
                    value: Box::new(Expression::SyntaxError(message)),
                    start,
                    end: self.get_end(),
                }
            },
            Some(TokenValue::FormatStringStart(_)) => self.parse_format_string(start),
            Some(TokenValue::FormatStringMiddle(_)) | Some(TokenValue::FormatStringEnd(_)) => {
                self.consume();
                expression_error(
                    "Found middle/end format string segment as start of string expression (this should never happen!)",
                    start,
                    self.get_end(),
                )
            },
            _ => {
                self.consume();
                expression_error("Expected string", start, self.get_end())
            },
        }
    }

    /// The segments of a format string and the expressions in its holes.
    fn parse_format_string(&mut self, start: Position) -> (node: ExpressionNode)
        requires
            tokens_placed(old(self).ts()) ==> position_ok(start),
            old(self).wf(),
            tok(old(self).ts(), old(self).idx()) matches Some(SpecTokenValue::FormatStringStart(_)),
        ensures
            tokens_placed(old(self).ts()) ==> expr_node_ok(expr_node_view(node)),
            final(self).wf(),
            final(self).ts() == old(self).ts(),
            old(self).idx() < final(self).idx() <= old(self).ts().len(),
            sp_format_string(old(self).ts(), old(self).idx(), start, Seq::empty(), Seq::empty())
                == (final(self).idx(), expr_node_view(node)),
        decreases old(self).remaining(), 32nat,
    {
        let ghost ts = self.ts();
        let ghost i0 = self.idx();
        let mut segments: Vec<StringSegmentNode> = Vec::new();
        let mut arguments: Vec<ExpressionNode> = Vec::new();
        proof {
            self.lemma_wf();
        }
        loop
            invariant_except_break
                ts == old(self).ts(),
                i0 == old(self).idx(),
                self.wf(),
                self.ts() == ts,
                i0 <= self.idx() <= ts.len(),
                tok(ts, i0) matches Some(SpecTokenValue::FormatStringStart(_)),
                super::grammar::rem(ts, i0) == ts.len() - i0,
                sp_format_string(ts, i0, start, Seq::empty(), Seq::empty()) == sp_format_string(
                    ts,
                    self.idx(),
                    start,
                    segment_nodes_view(segments@),
                    expr_nodes_view(arguments@),
                ),
                tokens_placed(ts) ==> position_ok(start),
                tokens_placed(ts) ==> spans_ok(segments_errors(segment_nodes_view(segments@))),
                tokens_placed(ts) ==> spans_ok(exprs_errors(expr_nodes_view(arguments@))),
            ensures
                self.wf(),
                self.ts() == ts,
                i0 < self.idx() <= ts.len(),
                sp_format_string(ts, i0, start, Seq::empty(), Seq::empty()) == (
                    self.idx(),
                    super::nodes::snode(
                        super::nodes::SExpression::String {
                            segments: segment_nodes_view(segments@),
                            arguments: expr_nodes_view(arguments@),
                        },
                        start,
                        end_at(ts, self.idx()),
                    ),
                ),
                tokens_placed(ts) ==> position_ok(start),
                tokens_placed(ts) ==> spans_ok(segments_errors(segment_nodes_view(segments@))),
                tokens_placed(ts) ==> spans_ok(exprs_errors(expr_nodes_view(arguments@))),
            decreases ts.len() - self.idx(),
        {
            let ghost i = self.idx();
            let ghost segments_before = segments@;
            let finished = match self.peek_value() {
                Some(TokenValue::FormatStringStart(value)) | Some(TokenValue::FormatStringMiddle(value)) => {
                    self.consume();
                    let segment = StringSegmentNode {
                        value: Box::new(StringSegment::Valid(value)),
                        start,
                        end: self.get_end(),
                    };
                    segments.push(segment);
                    proof {
                        lemma_segment_nodes_push(segments_before, segment);
                        lemma_segments_errors_push(
                            segment_nodes_view(segments_before),
                            segment_node_view(segment),
                        );
                    }
                    false
                },
                Some(TokenValue::FormatStringEnd(value)) => {
                    self.consume();
                    let segment = StringSegmentNode {
                        value: Box::new(StringSegment::Valid(value)),
                        start,
                        end: self.get_end(),
                    };
                    segments.push(segment);
                    proof {
                        lemma_segment_nodes_push(segments_before, segment);
                        lemma_segments_errors_push(
                            segment_nodes_view(segments_before),
                            segment_node_view(segment),
                        );
                    }
                    true
                },
                Some(TokenValue::MalformedString(message)) => {
                    self.consume();
                    proof {
                        super::lemma_placed_positions(ts, i + 1);
                    }
                    let segment = StringSegmentNode {
                        value: Box::new(StringSegment::Malformed(message)),
                        start,
                        end: self.get_end(),
                    };
                    segments.push(segment);
                    proof {
                        lemma_segment_nodes_push(segments_before, segment);
                        lemma_segments_errors_push(
                            segment_nodes_view(segments_before),
                            segment_node_view(segment),
                        );
                    }
                    true
                },
                _ => {
                    return expression_error("Format string is unterminated", start, self.get_end());
                },
            };
            if finished {
                break;
            }
            let ghost arguments_before = arguments@;
            match self.peek_value() {
                Some(TokenValue::FormatStringMiddle(_))
                | Some(TokenValue::FormatStringEnd(_))
                | Some(TokenValue::MalformedString(_)) => {
                    proof {
                        super::lemma_placed_positions(ts, self.idx());
                    }
                    let hole_end = match self.tokens.peek_next() {
                        Some(t) => t.start,
                        None => Position { line: 1, column: 1 },
                    };
                    let hole = expression_error(
                        "Format string holes must not be empty",
                        self.get_end(),
                        hole_end,
                    );
                    arguments.push(hole);
                    proof {
                        lemma_expr_nodes_push(arguments_before, hole);
                        lemma_exprs_errors_push(expr_nodes_view(arguments_before), expr_node_view(hole));
                    }
                },
                None => {},
                _ => {
                    proof {
                        self.lemma_wf();
                    }
                    let argument = self.parse_expression();
                    arguments.push(argument);
                    proof {
                        lemma_expr_nodes_push(arguments_before, argument);
                        lemma_exprs_errors_push(
                            expr_nodes_view(arguments_before),
                            expr_node_view(argument),
                        );
                    }
                },
            }
            proof {
                self.lemma_wf();
            }
        }
        let ghost sv = segment_nodes_view(segments@);
        let ghost av = expr_nodes_view(arguments@);
        let node = ExpressionNode {
            value: Box::new(Expression::String { segments, arguments }),
            start,
            end: self.get_end(),
        };
        assert(expr_errors(expr_node_view(node)) == segments_errors(sv) + exprs_errors(av));
        node
    }
}

} // verus!
