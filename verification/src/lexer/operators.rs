//! Operators written with symbols (`and`, `or` and `not` are words, read with symbols).

use vstd::prelude::*;

use super::{Lexer, SpecTokenValue, Token, TokenValue};

use crate::common::Operator;
use crate::peekable_stream::{lemma_matches_at, seq_matches_at};

verus! {

/// Whether index `k + 1` of `s` holds `d`.
pub open spec fn next_is(s: Seq<char>, k: int, d: char) -> bool {
    k + 1 < s.len() && s[k + 1] == d
}

/// The operator that starts at index `k`, and how many characters it takes.
/// Of two operators that start alike, the longer is taken.
pub open spec fn operator_at(s: Seq<char>, k: int) -> Option<(Operator, int)> {
    let c = s[k];
    if c == '+' {
        Some((Operator::Add, 1))
    } else if c == '-' {
        Some((Operator::Subtract, 1))
    } else if c == '*' {
        Some((Operator::Multiply, 1))
    } else if c == '/' {
        Some((Operator::Divide, 1))
    } else if c == '%' {
        Some((Operator::Modulo, 1))
    } else if c == '=' {
        if next_is(s, k, '=') {
            Some((Operator::Equals, 2))
        } else {
            Some((Operator::Assignment, 1))
        }
    } else if c == '~' {
        if next_is(s, k, '=') {
            Some((Operator::NotEquals, 2))
        } else {
            Some((Operator::BitwiseNot, 1))
        }
    } else if c == '<' {
        if next_is(s, k, '<') {
            Some((Operator::LeftShift, 2))
        } else if next_is(s, k, '=') {
            Some((Operator::LessThanOrEqual, 2))
        } else {
            Some((Operator::LessThan, 1))
        }
    } else if c == '>' {
        if next_is(s, k, '>') {
            Some((Operator::RightShift, 2))
        } else if next_is(s, k, '=') {
            Some((Operator::GreaterThanOrEqual, 2))
        } else {
            Some((Operator::GreaterThan, 1))
        }
    } else if c == '|' {
        if next_is(s, k, '>') {
            Some((Operator::Pipe, 2))
        } else {
            Some((Operator::BitwiseOr, 1))
        }
    } else if c == '.' {
        if next_is(s, k, '.') {
            Some((Operator::Concat, 2))
        } else {
            Some((Operator::Index, 1))
        }
    } else if c == '&' {
        Some((Operator::BitwiseAnd, 1))
    } else if c == '^' {
        Some((Operator::BitwiseXor, 1))
    } else if c == '#' {
        Some((Operator::Length, 1))
    } else if c == '?' {
        if next_is(s, k, '?') {
            Some((Operator::OptionalCoalesce, 2))
        } else if next_is(s, k, '.') {
            Some((Operator::OptionalIndex, 2))
        } else {
            None
        }
    } else {
        None
    }
}

/// An operator at index `k`.
pub open spec fn lex_operator(s: Seq<char>, k: int) -> Option<(int, SpecTokenValue)> {
    if 0 <= k < s.len() {
        match operator_at(s, k) {
            Some((op, n)) => Some((k + n, SpecTokenValue::Operator(op))),
            None => None,
        }
    } else {
        None
    }
}

/// How each operator is written.
pub open spec fn written_form(o: Operator) -> Seq<char> {
    match o {
        Operator::Add => seq!['+'],
        Operator::Subtract => seq!['-'],
        Operator::Multiply => seq!['*'],
        Operator::Divide => seq!['/'],
        Operator::Modulo => seq!['%'],
        Operator::Concat => seq!['.', '.'],
        Operator::Length => seq!['#'],
        Operator::Not => seq!['n', 'o', 't'],
        Operator::And => seq!['a', 'n', 'd'],
        Operator::Or => seq!['o', 'r'],
        Operator::OptionalCoalesce => seq!['?', '?'],
        Operator::Equals => seq!['=', '='],
        Operator::NotEquals => seq!['~', '='],
        Operator::LessThan => seq!['<'],
        Operator::GreaterThan => seq!['>'],
        Operator::LessThanOrEqual => seq!['<', '='],
        Operator::GreaterThanOrEqual => seq!['>', '='],
        Operator::Pipe => seq!['|', '>'],
        Operator::Index => seq!['.'],
        Operator::OptionalIndex => seq!['?', '.'],
        Operator::Assignment => seq!['='],
        Operator::BitwiseNot => seq!['~'],
        Operator::BitwiseAnd => seq!['&'],
        Operator::BitwiseOr => seq!['|'],
        Operator::BitwiseXor => seq!['^'],
        Operator::LeftShift => seq!['<', '<'],
        Operator::RightShift => seq!['>', '>'],
    }
}

/// Operators are read as written: the text an operator token takes is the
/// written form of its operator, and no longer written form of another
/// operator stands there.
pub proof fn lemma_operators_read_as_written(s: Seq<char>, k: int, o: Operator)
    ensures
        lex_operator(s, k) matches Some((e, v)) ==> v is Operator && s.subrange(k, e) =~= written_form(
            v->Operator_0,
        ),
        lex_operator(s, k) matches Some((e, v)) ==> (seq_matches_at(s, k, written_form(o))
            ==> written_form(o).len() <= e - k),
{
    if lex_operator(s, k) is Some {
        let (e, v) = lex_operator(s, k)->0;
        if seq_matches_at(s, k, written_form(o)) {
            lemma_matches_at(s, k, written_form(o));
            assert(s[k + 0] == written_form(o)[0]);
            if written_form(o).len() >= 2 {
                assert(s[k + 1] == written_form(o)[1]);
            }
            if written_form(o).len() >= 3 {
                assert(s[k + 2] == written_form(o)[2]);
            }
        }
    }
}

impl Lexer {
    /// Whether the character after the read index is `d`.
    fn next_is(&self, d: char) -> (b: bool)
        requires
            self.wf(),
        ensures
            b == next_is(self.src(), self.idx(), d),
    {
        match self.source.peek(1) {
            Some(c) => *c == d,
            None => false,
        }
    }

    pub(super) fn tokenise_operator(&mut self) -> (r: Option<Token>)
        requires
            old(self).wf(),
            old(self).at_token_start(),
        ensures
            old(self).read_as(final(self), r, lex_operator(old(self).src(), old(self).idx())),
    {
        let c = match self.source.peek_next() {
            Some(c) => *c,
            None => {
                return None;
            },
        };
        let (operator, advance_by) = match c {
            '+' => (Operator::Add, 1),
            '-' => (Operator::Subtract, 1),
            '*' => (Operator::Multiply, 1),
            '/' => (Operator::Divide, 1),
            '%' => (Operator::Modulo, 1),
            '=' => {
                if self.next_is('=') {
                    (Operator::Equals, 2)
                } else {
                    (Operator::Assignment, 1)
                }
            },
            '~' => {
                if self.next_is('=') {
                    (Operator::NotEquals, 2)
                } else {
                    (Operator::BitwiseNot, 1)
                }
            },
            '<' => {
                if self.next_is('<') {
                    (Operator::LeftShift, 2)
                } else if self.next_is('=') {
                    (Operator::LessThanOrEqual, 2)
                } else {
                    (Operator::LessThan, 1)
                }
            },
            '>' => {
                if self.next_is('>') {
                    (Operator::RightShift, 2)
                } else if self.next_is('=') {
                    (Operator::GreaterThanOrEqual, 2)
                } else {
                    (Operator::GreaterThan, 1)
                }
            },
            '|' => {
                if self.next_is('>') {
                    (Operator::Pipe, 2)
                } else {
                    (Operator::BitwiseOr, 1)
                }
            },
            '.' => {
                if self.next_is('.') {
                    (Operator::Concat, 2)
                } else {
                    (Operator::Index, 1)
                }
            },
            '&' => (Operator::BitwiseAnd, 1),
            '^' => (Operator::BitwiseXor, 1),
            '#' => (Operator::Length, 1),
            '?' => {
                if self.next_is('?') {
                    (Operator::OptionalCoalesce, 2)
                } else if self.next_is('.') {
                    (Operator::OptionalIndex, 2)
                } else {
                    return None;
                }
            },
            _ => {
                return None;
            },
        };
        self.advance_by(advance_by);
        Some(self.new_token(TokenValue::Operator(operator)))
    }
}

} // verus!
