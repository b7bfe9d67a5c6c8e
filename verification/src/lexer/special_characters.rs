//! Brackets, commas and colons.

use vstd::prelude::*;

use super::{Lexer, SpecTokenValue, Token, TokenValue};

use crate::common::SpecialCharacter;

verus! {

/// The special character that `c` is, if any.
pub open spec fn special_character_of(c: char) -> Option<SpecialCharacter> {
    if c == '(' {
        Some(SpecialCharacter::OpenBracket)
    } else if c == ')' {
        Some(SpecialCharacter::CloseBracket)
    } else if c == '[' {
        Some(SpecialCharacter::OpenSquareBracket)
    } else if c == ']' {
        Some(SpecialCharacter::CloseSquareBracket)
    } else if c == '{' {
        Some(SpecialCharacter::OpenCurlyBracket)
    } else if c == '}' {
        Some(SpecialCharacter::CloseCurlyBracket)
    } else if c == ',' {
        Some(SpecialCharacter::Comma)
    } else if c == ':' {
        Some(SpecialCharacter::Colon)
    } else {
        None
    }
}

/// A special character at index `k`: one character long.
pub open spec fn lex_special_character(s: Seq<char>, k: int) -> Option<(int, SpecTokenValue)> {
    if 0 <= k < s.len() {
        match special_character_of(s[k]) {
            Some(v) => Some((k + 1, SpecTokenValue::SpecialCharacter(v))),
            None => None,
        }
    } else {
        None
    }
}

impl Lexer {
    pub(super) fn tokenise_special_character(&mut self) -> (r: Option<Token>)
        requires
            old(self).wf(),
            old(self).at_token_start(),
        ensures
            old(self).read_as(
                final(self),
                r,
                lex_special_character(old(self).src(), old(self).idx()),
            ),
    {
        let c = match self.source.peek_next() {
            Some(c) => *c,
            None => {
                return None;
            },
        };
        let value = match c {
            '(' => SpecialCharacter::OpenBracket,
            ')' => SpecialCharacter::CloseBracket,
            '[' => SpecialCharacter::OpenSquareBracket,
            ']' => SpecialCharacter::CloseSquareBracket,
            '{' => SpecialCharacter::OpenCurlyBracket,
            '}' => SpecialCharacter::CloseCurlyBracket,
            ',' => SpecialCharacter::Comma,
            ':' => SpecialCharacter::Colon,
            _ => {
                return None;
            },
        };
        self.advance();
        Some(self.new_token(TokenValue::SpecialCharacter(value)))
    }
}

} // verus!
