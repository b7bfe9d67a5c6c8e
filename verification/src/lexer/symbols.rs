//! Symbols and the words that the language reserves.

use vstd::prelude::*;

use super::{Lexer, SpecTokenValue, Token, TokenValue};

use crate::chars::{
    is_ascii_alphabetic, is_ascii_alphanumeric, spec_is_ascii_alphabetic,
    spec_is_ascii_alphanumeric,
};
use crate::common::{Keyword, Operator};

verus! {

pub open spec fn is_symbol_start(c: char) -> bool {
    spec_is_ascii_alphabetic(c) || c == '_'
}

pub open spec fn is_symbol_char(c: char) -> bool {
    spec_is_ascii_alphanumeric(c) || c == '_'
}

/// The end of the run of symbol characters that starts at index `i`.
pub open spec fn symbol_end(s: Seq<char>, i: int) -> int
    decreases s.len() - i,
{
    if 0 <= i < s.len() && is_symbol_char(s[i]) {
        symbol_end(s, i + 1)
    } else {
        i
    }
}

pub proof fn lemma_symbol_end(s: Seq<char>, i: int)
    requires
        0 <= i <= s.len(),
    ensures
        i <= symbol_end(s, i) <= s.len(),
        symbol_end(s, i) < s.len() ==> !is_symbol_char(s[symbol_end(s, i)]),
    decreases s.len() - i,
{
    if i < s.len() && is_symbol_char(s[i]) {
        lemma_symbol_end(s, i + 1);
    }
}

/// What a reserved word stands for; `None` for a word that is not reserved.
pub open spec fn special_symbol(w: Seq<char>) -> Option<SpecTokenValue> {
    if w == seq!['b', 'r', 'e', 'a', 'k'] {
        Some(SpecTokenValue::Keyword(Keyword::Break))
    } else if w == seq!['c', 'o', 'n', 't', 'i', 'n', 'u', 'e'] {
        Some(SpecTokenValue::Keyword(Keyword::Continue))
    } else if w == seq!['r', 'e', 't', 'u', 'r', 'n'] {
        Some(SpecTokenValue::Keyword(Keyword::Return))
    } else if w == seq!['d', 'o'] {
        Some(SpecTokenValue::Keyword(Keyword::Do))
    } else if w == seq!['e', 'n', 'd'] {
        Some(SpecTokenValue::Keyword(Keyword::End))
    } else if w == seq!['f', 'n'] {
        Some(SpecTokenValue::Keyword(Keyword::Function))
    } else if w == seq!['i', 'f'] {
        Some(SpecTokenValue::Keyword(Keyword::If))
    } else if w == seq!['t', 'h', 'e', 'n'] {
        Some(SpecTokenValue::Keyword(Keyword::Then))
    } else if w == seq!['e', 'l', 's', 'e'] {
        Some(SpecTokenValue::Keyword(Keyword::Else))
    } else if w == seq!['e', 'l', 's', 'e', 'i', 'f'] {
        Some(SpecTokenValue::Keyword(Keyword::ElseIf))
    } else if w == seq!['f', 'o', 'r'] {
        Some(SpecTokenValue::Keyword(Keyword::For))
    } else if w == seq!['i', 'n'] {
        Some(SpecTokenValue::Keyword(Keyword::In))
    } else if w == seq!['d', 'e', 'f'] {
        Some(SpecTokenValue::Keyword(Keyword::Constant))
    } else if w == seq!['m', 'u', 't'] {
        Some(SpecTokenValue::Keyword(Keyword::Mutable))
    } else if w == seq!['e', 'x', 'p', 'o', 'r', 't'] {
        Some(SpecTokenValue::Keyword(Keyword::Export))
    } else if w == seq!['t', 'r', 'u', 'e'] {
        Some(SpecTokenValue::Bool(true))
    } else if w == seq!['f', 'a', 'l', 's', 'e'] {
        Some(SpecTokenValue::Bool(false))
    } else if w == seq!['n', 'o', 't'] {
        Some(SpecTokenValue::Operator(Operator::Not))
    } else if w == seq!['a', 'n', 'd'] {
        Some(SpecTokenValue::Operator(Operator::And))
    } else if w == seq!['o', 'r'] {
        Some(SpecTokenValue::Operator(Operator::Or))
    } else if w == seq!['n', 'i', 'l'] {
        Some(SpecTokenValue::Nil)
    } else {
        None
    }
}

/// Word operators are read as written: a reserved word that stands for an
/// operator is that operator's written form.
pub proof fn lemma_word_operators_read_as_written(w: Seq<char>)
    ensures
        special_symbol(w) matches Some(SpecTokenValue::Operator(o)) ==> w == super::operators::written_form(o),
{
}

/// A symbol or reserved word at index `k`: a letter or `_`, then any
/// letters, digits and `_`.
pub open spec fn lex_symbol(s: Seq<char>, k: int) -> Option<(int, SpecTokenValue)> {
    if 0 <= k < s.len() && is_symbol_start(s[k]) {
        let end = symbol_end(s, k);
        let word = s.subrange(k, end);
        match special_symbol(word) {
            Some(v) => Some((end, v)),
            None => Some((end, SpecTokenValue::Symbol(word))),
        }
    } else {
        None
    }
}

pub proof fn lemma_lex_symbol(s: Seq<char>, k: int)
    requires
        0 <= k < s.len(),
    ensures
        lex_symbol(s, k) matches Some((end, _)) ==> k < end <= s.len(),
{
    if is_symbol_start(s[k]) {
        lemma_symbol_end(s, k);
    }
}

/// Whether `chars[start..end]` is `word`.
fn range_eq(chars: &Vec<char>, start: usize, end: usize, word: &[char]) -> (b: bool)
    requires
        start <= end <= chars@.len(),
    ensures
        b == (chars@.subrange(start as int, end as int) == word@),
{
    if end - start != word.len() {
        return false;
    }
    let mut i: usize = 0;
    while i < word.len()
        invariant
            end - start == word@.len(),
            start <= end <= chars@.len(),
            i <= word@.len(),
            forall|j: int| 0 <= j < i ==> chars@[start + j] == word@[j],
        decreases word@.len() - i,
    {
        if chars[start + i] != word[i] {
            assert(chars@.subrange(start as int, end as int)[i as int] != word@[i as int]);
            return false;
        }
        i = i + 1;
    }
    assert(chars@.subrange(start as int, end as int) =~= word@);
    true
}

/// What the word `chars[start..end]` stands for when it is reserved.
fn special_symbol_of(chars: &Vec<char>, start: usize, end: usize) -> (r: Option<TokenValue>)
    requires
        start <= end <= chars@.len(),
    ensures
        match special_symbol(chars@.subrange(start as int, end as int)) {
            Some(v) => r matches Some(x) && x@ == v,
            None => r is None,
        },
{
    let word: [char; 5] = ['b', 'r', 'e', 'a', 'k'];
    assert(word@ =~= seq!['b', 'r', 'e', 'a', 'k']);
    if range_eq(chars, start, end, &word) {
        return Some(TokenValue::Keyword(Keyword::Break));
    }
    let word: [char; 8] = ['c', 'o', 'n', 't', 'i', 'n', 'u', 'e'];
    assert(word@ =~= seq!['c', 'o', 'n', 't', 'i', 'n', 'u', 'e']);
    if range_eq(chars, start, end, &word) {
        return Some(TokenValue::Keyword(Keyword::Continue));
    }
    let word: [char; 6] = ['r', 'e', 't', 'u', 'r', 'n'];
    assert(word@ =~= seq!['r', 'e', 't', 'u', 'r', 'n']);
    if range_eq(chars, start, end, &word) {
        return Some(TokenValue::Keyword(Keyword::Return));
    }
    let word: [char; 2] = ['d', 'o'];
    assert(word@ =~= seq!['d', 'o']);
    if range_eq(chars, start, end, &word) {
        return Some(TokenValue::Keyword(Keyword::Do));
    }
    let word: [char; 3] = ['e', 'n', 'd'];
    assert(word@ =~= seq!['e', 'n', 'd']);
    if range_eq(chars, start, end, &word) {
        return Some(TokenValue::Keyword(Keyword::End));
    }
    let word: [char; 2] = ['f', 'n'];
    assert(word@ =~= seq!['f', 'n']);
    if range_eq(chars, start, end, &word) {
        return Some(TokenValue::Keyword(Keyword::Function));
    }
    let word: [char; 2] = ['i', 'f'];
    assert(word@ =~= seq!['i', 'f']);
    if range_eq(chars, start, end, &word) {
        return Some(TokenValue::Keyword(Keyword::If));
    }
    let word: [char; 4] = ['t', 'h', 'e', 'n'];
    assert(word@ =~= seq!['t', 'h', 'e', 'n']);
    if range_eq(chars, start, end, &word) {
        return Some(TokenValue::Keyword(Keyword::Then));
    }
    let word: [char; 4] = ['e', 'l', 's', 'e'];
    assert(word@ =~= seq!['e', 'l', 's', 'e']);
    if range_eq(chars, start, end, &word) {
        return Some(TokenValue::Keyword(Keyword::Else));
    }
    let word: [char; 6] = ['e', 'l', 's', 'e', 'i', 'f'];
    assert(word@ =~= seq!['e', 'l', 's', 'e', 'i', 'f']);
    if range_eq(chars, start, end, &word) {
        return Some(TokenValue::Keyword(Keyword::ElseIf));
    }
    let word: [char; 3] = ['f', 'o', 'r'];
    assert(word@ =~= seq!['f', 'o', 'r']);
    if range_eq(chars, start, end, &word) {
        return Some(TokenValue::Keyword(Keyword::For));
    }
    let word: [char; 2] = ['i', 'n'];
    assert(word@ =~= seq!['i', 'n']);
    if range_eq(chars, start, end, &word) {
        return Some(TokenValue::Keyword(Keyword::In));
    }
    let word: [char; 3] = ['d', 'e', 'f'];
    assert(word@ =~= seq!['d', 'e', 'f']);
    if range_eq(chars, start, end, &word) {
        return Some(TokenValue::Keyword(Keyword::Constant));
    }
    let word: [char; 3] = ['m', 'u', 't'];
    assert(word@ =~= seq!['m', 'u', 't']);
    if range_eq(chars, start, end, &word) {
        return Some(TokenValue::Keyword(Keyword::Mutable));
    }
    let word: [char; 6] = ['e', 'x', 'p', 'o', 'r', 't'];
    assert(word@ =~= seq!['e', 'x', 'p', 'o', 'r', 't']);
    if range_eq(chars, start, end, &word) {
        return Some(TokenValue::Keyword(Keyword::Export));
    }
    let word: [char; 4] = ['t', 'r', 'u', 'e'];
    assert(word@ =~= seq!['t', 'r', 'u', 'e']);
    if range_eq(chars, start, end, &word) {
        return Some(TokenValue::Bool(true));
    }
    let word: [char; 5] = ['f', 'a', 'l', 's', 'e'];
    assert(word@ =~= seq!['f', 'a', 'l', 's', 'e']);
    if range_eq(chars, start, end, &word) {
        return Some(TokenValue::Bool(false));
    }
    let word: [char; 3] = ['n', 'o', 't'];
    assert(word@ =~= seq!['n', 'o', 't']);
    if range_eq(chars, start, end, &word) {
        return Some(TokenValue::Operator(Operator::Not));
    }
    let word: [char; 3] = ['a', 'n', 'd'];
    assert(word@ =~= seq!['a', 'n', 'd']);
    if range_eq(chars, start, end, &word) {
        return Some(TokenValue::Operator(Operator::And));
    }
    let word: [char; 2] = ['o', 'r'];
    assert(word@ =~= seq!['o', 'r']);
    if range_eq(chars, start, end, &word) {
        return Some(TokenValue::Operator(Operator::Or));
    }
    let word: [char; 3] = ['n', 'i', 'l'];
    assert(word@ =~= seq!['n', 'i', 'l']);
    if range_eq(chars, start, end, &word) {
        return Some(TokenValue::Nil);
    }
    None
}

impl Lexer {
    pub(super) fn tokenise_symbol(&mut self) -> (r: Option<Token>)
        requires
            old(self).wf(),
            old(self).at_token_start(),
        ensures
            old(self).read_as(final(self), r, lex_symbol(old(self).src(), old(self).idx())),
    {
        let ghost s = self.src();
        let ghost k = self.idx();
        match self.source.peek_next() {
            Some(c) => {
                if !(is_ascii_alphabetic(*c) || *c == '_') {
                    return None;
                }
            },
            None => {
                return None;
            },
        }
        proof {
            lemma_symbol_end(s, k);
        }
        loop
            invariant
                self.wf(),
                old(self).same_token(self),
                self.src() == s,
                k <= self.idx() <= symbol_end(s, k),
                symbol_end(s, self.idx()) == symbol_end(s, k),
            ensures
                self.wf(),
                old(self).same_token(self),
                self.src() == s,
                self.idx() == symbol_end(s, k),
            decreases s.len() - self.idx(),
        {
            match self.source.peek_next() {
                Some(c) => {
                    if !(is_ascii_alphanumeric(*c) || *c == '_') {
                        break;
                    }
                },
                None => {
                    break;
                },
            }
            self.advance();
            proof {
                lemma_symbol_end(s, self.idx());
            }
        }
        let start = self.token_start_index;
        let end = self.source.get_index();
        let value = match special_symbol_of(self.source.unwrap(), start, end) {
            Some(v) => v,
            None => TokenValue::Symbol(self.read_lexeme()),
        };
        Some(self.new_token(value))
    }
}

} // verus!
