//! Comments: `--` to the end of the line, or `--[[` to `--]]`.

use vstd::prelude::*;

use super::{find_from, lemma_find_from, Lexer, SpecTokenValue, Token, TokenValue};

use crate::peekable_stream::{lemma_matches_at, seq_matches_at};

verus! {

pub open spec fn comment_open() -> Seq<char> {
    seq!['-', '-']
}

pub open spec fn block_open() -> Seq<char> {
    seq!['[', '[']
}

pub open spec fn block_close() -> Seq<char> {
    seq!['-', '-', ']', ']']
}

pub open spec fn line_break() -> Seq<char> {
    seq!['\n']
}

/// A comment at index `k`. A block comment without its close runs to the end
/// of the text. The value is the text between the delimiters.
pub open spec fn lex_comment(s: Seq<char>, k: int) -> Option<(int, SpecTokenValue)> {
    if !seq_matches_at(s, k, comment_open()) {
        None
    } else if seq_matches_at(s, k + 2, block_open()) {
        let m = find_from(s, k + 4, block_close());
        if seq_matches_at(s, m, block_close()) {
            Some((m + 4, SpecTokenValue::Comment(s.subrange(k + 4, m))))
        } else {
            Some((m, SpecTokenValue::Comment(s.subrange(k + 4, m))))
        }
    } else {
        let m = find_from(s, k + 2, line_break());
        Some((m, SpecTokenValue::Comment(s.subrange(k + 2, m))))
    }
}

pub proof fn lemma_lex_comment(s: Seq<char>, k: int)
    requires
        0 <= k < s.len(),
    ensures
        lex_comment(s, k) matches Some((end, _)) ==> k < end <= s.len(),
{
    if seq_matches_at(s, k, comment_open()) {
        lemma_matches_at(s, k, comment_open());
        if seq_matches_at(s, k + 2, block_open()) {
            lemma_matches_at(s, k + 2, block_open());
            lemma_find_from(s, k + 4, block_close());
            let m = find_from(s, k + 4, block_close());
            if seq_matches_at(s, m, block_close()) {
                lemma_matches_at(s, m, block_close());
            }
        } else {
            lemma_find_from(s, k + 2, line_break());
        }
    }
}

impl Lexer {
    /// Advances until `pattern` stands at the read index or the text ends.
    fn advance_until(&mut self, pattern: &[char])
        requires
            old(self).wf(),
        ensures
            final(self).wf(),
            old(self).same_token(final(self)),
            final(self).idx() == find_from(old(self).src(), old(self).idx(), pattern@),
            old(self).idx() <= final(self).idx() <= old(self).src().len(),
    {
        let ghost s = self.src();
        proof {
            lemma_find_from(s, self.idx(), pattern@);
        }
        while !self.source.starts_with_chars(pattern) && self.source.has_next()
            invariant
                self.wf(),
                old(self).same_token(self),
                self.src() == s,
                find_from(s, self.idx(), pattern@) == find_from(s, old(self).idx(), pattern@),
                self.idx() <= find_from(s, self.idx(), pattern@) <= s.len(),
            decreases s.len() - self.idx(),
        {
            self.advance();
            proof {
                lemma_find_from(s, self.idx(), pattern@);
            }
        }
    }

    pub(super) fn tokenise_comment(&mut self) -> (r: Option<Token>)
        requires
            old(self).wf(),
            old(self).at_token_start(),
        ensures
            old(self).read_as(final(self), r, lex_comment(old(self).src(), old(self).idx())),
    {
        let ghost s = self.src();
        let ghost k = self.idx();
        if !self.source.starts_with_chars(&['-', '-']) {
            assert(['-', '-']@ == comment_open());
            return None;
        }
        assert(['-', '-']@ =~= comment_open());
        proof {
            lemma_matches_at(s, k, comment_open());
        }
        self.advance_by(2);
        let comment_start: usize;
        let comment_end: usize;
        if self.source.starts_with_chars(&['[', '[']) {
            assert(['[', '[']@ =~= block_open());
            proof {
                lemma_matches_at(s, k + 2, block_open());
            }
            self.advance_by(2);
            self.advance_until(&['-', '-', ']', ']']);
            assert(['-', '-', ']', ']']@ =~= block_close());
            if self.source.starts_with_chars(&['-', '-', ']', ']']) {
                proof {
                    lemma_matches_at(s, self.idx(), block_close());
                }
                self.advance_by(4);
                comment_start = self.token_start_index + 4;
                comment_end = self.source.get_index() - 4;
            } else {
                comment_start = self.token_start_index + 4;
                comment_end = self.source.get_index();
            }
        } else {
            assert(['[', '[']@ =~= block_open());
            self.advance_until(&['\n']);
            assert(['\n']@ =~= line_break());
            comment_start = self.token_start_index + 2;
            comment_end = self.source.get_index();
        }
        let text = self.read_string(comment_start, comment_end);
        Some(self.new_token(TokenValue::Comment(text)))
    }
}

} // verus!
