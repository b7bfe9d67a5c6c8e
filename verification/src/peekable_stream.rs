//! A cursor over a vector that can look ahead and behind.

use vstd::prelude::*;
use vstd::std_specs::cmp::PartialEqSpec;

verus! {

/// A vector together with a read index. The index may run past the end
/// of the vector; every read past the end yields nothing.
pub struct PeekableStream<T> where T: PartialEq {
    collection: Vec<T>,
    index: usize,
}

impl<T: PartialEq> PeekableStream<T> {
    /// The items of the stream.
    pub closed spec fn items(&self) -> Seq<T> {
        self.collection@
    }

    /// The read index.
    pub closed spec fn position(&self) -> nat {
        self.index as nat
    }

    /// The item `distance` places after the read index, if there is one.
    pub open spec fn spec_peek(&self, distance: int) -> Option<T> {
        let i = self.position() + distance;
        if 0 <= i < self.items().len() {
            Some(self.items()[i])
        } else {
            None
        }
    }

    pub proof fn lemma_position_bound(&self)
        ensures
            self.position() <= usize::MAX,
            self.items().len() <= usize::MAX,
    {
        assert(self.collection.len() == self.collection@.len());
    }

    /// Moving the read index `n` places on shifts every look-ahead by `n`.
    pub proof fn lemma_peek_after_advance(&self, after: &Self, n: nat, distance: int)
        requires
            after.items() == self.items(),
            after.position() == self.position() + n,
        ensures
            after.spec_peek(distance) == self.spec_peek(distance + n),
    {
    }

    /// What one call of a method that takes `&mut self` may do: keep the
    /// items as they are and move the read index forward or leave it.
    pub open spec fn moves_on_to(&self, after: &Self) -> bool {
        after.items() == self.items() && self.position() <= after.position()
    }

    /// However many calls a stream goes through, its items stay those it was
    /// made with, in the same order, and only the read index moves, never
    /// backwards.
    pub proof fn lemma_calls_keep_items(states: Seq<Self>)
        requires
            states.len() > 0,
            forall|k: int| 0 <= k < states.len() - 1 ==> #[trigger] states[k].moves_on_to(&states[k + 1]),
        ensures
            states.last().items() == states[0].items(),
            states[0].position() <= states.last().position(),
        decreases states.len(),
    {
        if states.len() > 1 {
            let front = states.drop_last();
            assert forall|k: int| 0 <= k < front.len() - 1 implies #[trigger] front[k].moves_on_to(&front[k + 1]) by {
                assert(states[k].moves_on_to(&states[k + 1]));
            }
            Self::lemma_calls_keep_items(front);
            let k = states.len() - 2;
            assert(states[k].moves_on_to(&states[k + 1]));
        }
    }

    pub fn new(collection: Vec<T>) -> (s: Self)
        ensures
            s.items() == collection@,
            s.position() == 0,
    {
        PeekableStream { collection, index: 0 }
    }

    pub fn get_index(&self) -> (i: usize)
        ensures
            i == self.position(),
    {
        self.index
    }

    pub fn unwrap(&self) -> (v: &Vec<T>)
        ensures
            v@ == self.items(),
    {
        &self.collection
    }

    /// The item `distance` places after the read index.
    pub fn peek(&self, distance: usize) -> (r: Option<&T>)
        ensures
            r matches Some(x) ==> *x == self.items()[self.position() + distance],
            r is Some <==> self.position() + distance < self.items().len(),
    {
        proof {
            self.lemma_position_bound();
        }
        match self.index.checked_add(distance) {
            Some(i) => {
                if i < self.collection.len() {
                    Some(&self.collection[i])
                } else {
                    None
                }
            },
            None => None,
        }
    }

    /// The item `distance` places before the read index.
    pub fn peek_back(&self, distance: usize) -> (r: Option<&T>)
        ensures
            r is Some <==> distance <= self.position() && self.position() - distance < self.items().len(),
            r matches Some(x) ==> *x == self.items()[self.position() - distance],
    {
        match self.index.checked_sub(distance) {
            Some(i) => {
                if i < self.collection.len() {
                    Some(&self.collection[i])
                } else {
                    None
                }
            },
            None => None,
        }
    }

    /// The item at the read index.
    pub fn peek_next(&self) -> (r: Option<&T>)
        ensures
            r is Some <==> self.position() < self.items().len(),
            r matches Some(x) ==> *x == self.items()[self.position() as int],
    {
        self.peek(0)
    }

    /// Yields the item at the read index and moves past it.
    pub fn consume(&mut self) -> (r: Option<&T>)
        ensures
            final(self).items() == old(self).items(),
            old(self).moves_on_to(final(self)),
            r is Some <==> old(self).position() < old(self).items().len(),
            r matches Some(x) ==> *x == old(self).items()[old(self).position() as int]
                && final(self).position() == old(self).position() + 1,
            r is None ==> final(self).position() == old(self).position(),
    {
        if self.index < self.collection.len() {
            let i = self.index;
            self.index = self.index + 1;
            Some(&self.collection[i])
        } else {
            None
        }
    }

    /// Moves the read index forward by `n`.
    pub fn advance_by(&mut self, n: usize)
        requires
            old(self).position() + n <= usize::MAX,
        ensures
            final(self).items() == old(self).items(),
            old(self).moves_on_to(final(self)),
            final(self).position() == old(self).position() + n,
    {
        self.index = self.index + n;
    }

    /// Consumes the item at the read index when `predicate` holds of it.
    pub fn consume_if(&mut self, predicate: impl Fn(&T) -> bool) -> (r: Option<&T>)
        requires
            old(self).position() < old(self).items().len() ==> predicate.requires(
                (&old(self).items()[old(self).position() as int],),
            ),
        ensures
            final(self).items() == old(self).items(),
            old(self).moves_on_to(final(self)),
            old(self).position() >= old(self).items().len() ==> r is None && final(self).position()
                == old(self).position(),
            old(self).position() < old(self).items().len() ==> {
                let x = old(self).items()[old(self).position() as int];
                &&& r matches Some(y) ==> predicate.ensures((&x,), true) && *y == x
                    && final(self).position() == old(self).position() + 1
                &&& r is None ==> predicate.ensures((&x,), false) && final(self).position()
                    == old(self).position()
            },
    {
        let next = self.peek(0);
        match next {
            Some(x) => {
                if predicate(x) {
                    self.consume()
                } else {
                    None
                }
            },
            None => None,
        }
    }

    pub fn has_next(&self) -> (b: bool)
        ensures
            b == (self.position() < self.items().len()),
    {
        self.index < self.collection.len()
    }

    /// Whether at least `count` items remain from the read index on.
    pub fn has_remaining(&self, count: usize) -> (b: bool)
        requires
            self.position() <= self.items().len(),
        ensures
            b == (self.items().len() - self.position() >= count),
    {
        self.collection.len() - self.index >= count
    }
}

impl<T: PartialEq> PeekableStream<T> {
    /// Whether the items from the read index on start with items equal to
    /// those of `pattern`, in the sense of the items' own `==`.
    pub open spec fn spec_starts_with(&self, pattern: Seq<T>) -> bool {
        forall|k: int|
            0 <= k < pattern.len() ==> self.position() + k < self.items().len()
                && (#[trigger] self.items()[self.position() + k]).eq_spec(&pattern[k])
    }

    /// Whether the items from the read index on start with `pattern`,
    /// comparing items with `==`. What `==` does is known to Verus only for
    /// item types whose equality vstd specifies; for those the result is exact.
    pub fn is_match(&self, pattern: &[T]) -> (b: bool)
        ensures
            T::obeys_eq_spec() ==> b == self.spec_starts_with(pattern@),
    {
        let mut k: usize = 0;
        while k < pattern.len()
            invariant
                k <= pattern@.len(),
                k > 0 ==> self.position() + k <= self.items().len(),
                T::obeys_eq_spec() ==> forall|j: int|
                    0 <= j < k ==> (#[trigger] self.items()[self.position() + j]).eq_spec(&pattern@[j]),
            decreases pattern@.len() - k,
        {
            match self.peek(k) {
                Some(c) => {
                    if !c.eq(&pattern[k]) {
                        proof {
                            if T::obeys_eq_spec() && self.spec_starts_with(pattern@) {
                                assert(self.items()[self.position() + k].eq_spec(&pattern@[k as int]));
                            }
                        }
                        return false;
                    }
                },
                None => {
                    proof {
                        if self.spec_starts_with(pattern@) {
                            let j: int = k as int;
                            assert(self.items()[self.position() + j].eq_spec(&pattern@[j]));
                        }
                    }
                    return false;
                },
            }
            k = k + 1;
        }
        proof {
            if T::obeys_eq_spec() {
                assert forall|j: int| 0 <= j < pattern@.len() implies self.position() + j
                    < self.items().len() && (#[trigger] self.items()[self.position() + j]).eq_spec(
                    &pattern@[j],
                ) by {}
            }
        }
        true
    }
}

/// Whether the first `n` items of `pattern` stand in `s` from index `i` on.
pub open spec fn seq_matches_prefix<T>(s: Seq<T>, i: int, pattern: Seq<T>, n: int) -> bool {
    forall|k: int| 0 <= k < n ==> i + k < s.len() && #[trigger] s[i + k] == pattern[k]
}

/// Whether `s` holds `pattern` from index `i` on.
pub open spec fn seq_matches_at<T>(s: Seq<T>, i: int, pattern: Seq<T>) -> bool {
    seq_matches_prefix(s, i, pattern, pattern.len() as int)
}

pub proof fn lemma_matches_at(s: Seq<char>, i: int, pattern: Seq<char>)
    requires
        seq_matches_at(s, i, pattern),
        pattern.len() > 0,
    ensures
        i + pattern.len() <= s.len(),
        forall|j: int| 0 <= j < pattern.len() ==> s[i + j] == pattern[j],
{
    let last = pattern.len() - 1;
    assert(s[i + last] == pattern[last]);
}

impl PeekableStream<char> {
    pub open spec fn spec_matches_prefix(&self, pattern: Seq<char>, n: int) -> bool {
        seq_matches_prefix(self.items(), self.position() as int, pattern, n)
    }

    /// Whether the characters from the read index on start with `pattern`.
    pub open spec fn spec_is_match(&self, pattern: Seq<char>) -> bool {
        seq_matches_at(self.items(), self.position() as int, pattern)
    }

    /// Whether the characters from the read index on start with `pattern`:
    /// `is_match` on a stream of characters, with its result stated exactly.
    pub fn starts_with_chars(&self, pattern: &[char]) -> (b: bool)
        ensures
            b == self.spec_is_match(pattern@),
    {
        let mut k: usize = 0;
        while k < pattern.len()
            invariant
                k <= pattern@.len(),
                self.spec_matches_prefix(pattern@, k as int),
            decreases pattern@.len() - k,
        {
            match self.peek(k) {
                Some(c) => {
                    if *c != pattern[k] {
                        assert(self.items()[self.position() + k] != pattern@[k as int]);
                        return false;
                    }
                },
                None => {
                    let ghost j: int = k as int;
                    assert(0 <= j < pattern@.len());
                    assert(!(self.position() + j < self.items().len()));
                    assert(!self.spec_matches_prefix(pattern@, pattern@.len() as int)) by {
                        if self.spec_matches_prefix(pattern@, pattern@.len() as int) {
                            assert(self.items()[self.position() + j] == pattern@[j]);
                        }
                    }
                    return false;
                },
            }
            k = k + 1;
        }
        true
    }
}

} // verus!
