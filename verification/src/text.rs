//! Building strings out of characters.

use vstd::prelude::*;

verus! {

/// `String::push`: appends one character.
#[verifier::external_body]
pub(crate) fn push_char(s: &mut String, c: char)
    ensures
        final(s)@ == old(s)@.push(c),
{
    s.push(c);
}

/// The characters `chars[start..end]` as a string.
pub fn string_from_range(chars: &Vec<char>, start: usize, end: usize) -> (r: String)
    requires
        start <= end <= chars@.len(),
    ensures
        r@ == chars@.subrange(start as int, end as int),
{
    let mut r = String::new();
    let mut i = start;
    while i < end
        invariant
            start <= i <= end <= chars@.len(),
            r@ == chars@.subrange(start as int, i as int),
        decreases end - i,
    {
        push_char(&mut r, chars[i]);
        i = i + 1;
        assert(r@ =~= chars@.subrange(start as int, i as int));
    }
    r
}

/// The characters of `chars` as a string.
pub fn string_from_chars(chars: &[char]) -> (r: String)
    ensures
        r@ == chars@,
{
    let mut r = String::new();
    let mut i: usize = 0;
    while i < chars.len()
        invariant
            i <= chars@.len(),
            r@ == chars@.subrange(0, i as int),
        decreases chars@.len() - i,
    {
        push_char(&mut r, chars[i]);
        i = i + 1;
        assert(r@ =~= chars@.subrange(0, i as int));
    }
    assert(chars@.subrange(0, i as int) =~= chars@);
    r
}

/// The characters of `s`, in order.
pub fn chars_of(s: &str) -> (v: Vec<char>)
    ensures
        v@ == s@,
{
    broadcast use vstd::string::axiom_spec_iter;
    let mut v: Vec<char> = Vec::new();
    for c in it: s.chars()
        invariant
            v@ == it.seq().take(it.index() as int),
    {
        v.push(c);
    }
    v
}

/// How many bytes UTF-8 takes for `c`.
pub open spec fn utf8_width(c: char) -> nat {
    if (c as u32) < 0x80 {
        1
    } else if (c as u32) < 0x800 {
        2
    } else if (c as u32) < 0x10000 {
        3
    } else {
        4
    }
}

/// How many bytes UTF-8 takes for `s`.
pub open spec fn utf8_len(s: Seq<char>) -> nat
    decreases s.len(),
{
    if s.len() == 0 {
        0
    } else {
        utf8_len(s.drop_last()) + utf8_width(s.last())
    }
}

/// The index of the first line feed in `s` from `i` on (the length of `s` if there is none).
pub open spec fn line_end(s: Seq<char>, i: int) -> int
    decreases s.len() - i,
{
    if i >= s.len() || s[i] == '\n' {
        i
    } else {
        line_end(s, i + 1)
    }
}

/// The lines of `s` from index `i` on. A line ends at a line feed, and at a
/// carriage return just before one; neither belongs to the line. A line
/// feed at the very end starts no further line.
pub open spec fn lines_from(s: Seq<char>, i: int) -> Seq<Seq<char>>
    decreases s.len() - i,
{
    if i < 0 || i >= s.len() {
        Seq::empty()
    } else {
        let e = line_end(s, i);
        proof {
            lemma_line_end(s, i);
        }
        if e < s.len() {
            let line = s.subrange(i, e);
            let line = if line.len() > 0 && line.last() == '\r' {
                line.drop_last()
            } else {
                line
            };
            seq![line] + lines_from(s, e + 1)
        } else {
            seq![s.subrange(i, e)]
        }
    }
}

/// The lines of `s`.
pub open spec fn text_lines(s: Seq<char>) -> Seq<Seq<char>> {
    lines_from(s, 0)
}

pub proof fn lemma_line_end(s: Seq<char>, i: int)
    requires
        0 <= i <= s.len(),
    ensures
        i <= line_end(s, i) <= s.len(),
        line_end(s, i) < s.len() ==> s[line_end(s, i)] == '\n',
        forall|j: int| i <= j < line_end(s, i) ==> s[j] != '\n',
    decreases s.len() - i,
{
    if i < s.len() && s[i] != '\n' {
        lemma_line_end(s, i + 1);
    }
}

proof fn lemma_utf8_len_push(s: Seq<char>, c: char)
    ensures
        utf8_len(s.push(c)) == utf8_len(s) + utf8_width(c),
{
    assert(s.push(c).drop_last() =~= s);
}

/// How many bytes UTF-8 takes for `c`.
pub fn char_utf8_width(c: char) -> (w: u8)
    ensures
        w == utf8_width(c),
{
    let v = c as u32;
    if v < 0x80 {
        1
    } else if v < 0x800 {
        2
    } else if v < 0x10000 {
        3
    } else {
        4
    }
}

/// How many bytes UTF-8 takes for `s`.
pub fn utf8_length(s: &Vec<char>) -> (n: u128)
    ensures
        n == utf8_len(s@),
{
    let mut n: u128 = 0;
    let mut i: usize = 0;
    while i < s.len()
        invariant
            i <= s@.len(),
            n == utf8_len(s@.take(i as int)),
            n <= 4 * i,
        decreases s@.len() - i,
    {
        proof {
            lemma_utf8_len_push(s@.take(i as int), s@[i as int]);
            assert(s@.take(i + 1) =~= s@.take(i as int).push(s@[i as int]));
        }
        n = n + char_utf8_width(s[i]) as u128;
        i = i + 1;
    }
    assert(s@.take(i as int) =~= s@);
    n
}

/// For each line of `s`, how many bytes UTF-8 takes for it, cut to 32 bits.
pub fn line_widths(s: &Vec<char>) -> (r: Vec<u32>)
    ensures
        r@.len() == text_lines(s@).len(),
        forall|k: int| 0 <= k < r@.len() ==> r@[k] == (utf8_len(#[trigger] text_lines(s@)[k]) as u32),
{
    let ghost t = s@;
    let mut r: Vec<u32> = Vec::new();
    let ghost mut done: Seq<Seq<char>> = Seq::empty();
    let mut start: usize = 0;
    let mut i: usize = 0;
    let mut width: u128 = 0;
    while i < s.len()
        invariant
            t == s@,
            start <= i <= t.len(),
            width == utf8_len(t.subrange(start as int, i as int)),
            forall|j: int| start <= j < i ==> t[j] != '\n',
            text_lines(t) == done + lines_from(t, start as int),
            r@.len() == done.len(),
            forall|k: int| 0 <= k < r@.len() ==> r@[k] == (utf8_len(#[trigger] done[k]) as u32),
            width <= 4 * (i - start),
        decreases t.len() - i,
    {
        let c = s[i];
        proof {
            lemma_utf8_len_push(t.subrange(start as int, i as int), c);
            assert(t.subrange(start as int, i + 1) =~= t.subrange(start as int, i as int).push(c));
        }
        if c == '\n' {
            let ghost line = t.subrange(start as int, i as int);
            proof {
                lemma_line_end(t, start as int);
                assert(line_end(t, start as int) == i) by {
                    if line_end(t, start as int) < i {
                        assert(t[line_end(t, start as int)] == '\n');
                    }
                }
            }
            let mut line_width = width;
            if i > start && s[i - 1] == '\r' {
                proof {
                    assert(line.drop_last() =~= t.subrange(start as int, i - 1));
                    assert(utf8_len(line) == utf8_len(line.drop_last()) + utf8_width(line.last()));
                }
                line_width = width - 1;
            }
            let ghost kept = if line.len() > 0 && line.last() == '\r' {
                line.drop_last()
            } else {
                line
            };
            r.push(line_width as u32);
            proof {
                assert(lines_from(t, start as int) == seq![kept] + lines_from(t, i + 1));
                done = done.push(kept);
                assert(text_lines(t) =~= done + lines_from(t, i + 1));
            }
            start = i + 1;
            width = 0;
            proof {
                assert(t.subrange(start as int, start as int) =~= Seq::<char>::empty());
            }
        } else {
            width = width + char_utf8_width(c) as u128;
        }
        i = i + 1;
    }
    if start < s.len() {
        proof {
            lemma_line_end(t, start as int);
            assert(line_end(t, start as int) == t.len()) by {
                if line_end(t, start as int) < t.len() {
                    assert(t[line_end(t, start as int)] == '\n');
                }
            }
            assert(lines_from(t, start as int) == seq![t.subrange(start as int, t.len() as int)]);
            done = done.push(t.subrange(start as int, t.len() as int));
        }
        r.push(width as u32);
        proof {
            assert(text_lines(t) =~= done);
        }
    } else {
        proof {
            assert(text_lines(t) =~= done);
        }
    }
    r
}

/// The character of the decimal digit `d`.
pub open spec fn digit_char(d: nat) -> char {
    if d == 0 { '0' }
    else if d == 1 { '1' }
    else if d == 2 { '2' }
    else if d == 3 { '3' }
    else if d == 4 { '4' }
    else if d == 5 { '5' }
    else if d == 6 { '6' }
    else if d == 7 { '7' }
    else if d == 8 { '8' }
    else { '9' }
}

/// The decimal digits of `n`, without leading zeros (`0` is one digit).
pub open spec fn decimal(n: nat) -> Seq<char>
    decreases n,
{
    if n < 10 {
        seq![digit_char(n)]
    } else {
        decimal(n / 10).push(digit_char(n % 10))
    }
}

/// `n` copies of `c`.
pub open spec fn repeat(c: char, n: nat) -> Seq<char> {
    Seq::new(n, |i: int| c)
}

fn digit(d: usize) -> (c: char)
    requires
        d < 10,
    ensures
        c == digit_char(d as nat),
{
    match d {
        0 => '0',
        1 => '1',
        2 => '2',
        3 => '3',
        4 => '4',
        5 => '5',
        6 => '6',
        7 => '7',
        8 => '8',
        _ => '9',
    }
}

/// The decimal digits of `n`.
pub fn decimal_digits(n: usize) -> (r: Vec<char>)
    ensures
        r@ == decimal(n as nat),
{
    let mut m: usize = n / 10;
    let mut digits: Vec<char> = Vec::new();
    digits.push(digit(n % 10));
    proof {
        if n >= 10 {
            assert(decimal(n as nat) =~= decimal(m as nat) + digits@);
        } else {
            assert(decimal(n as nat) =~= digits@);
        }
    }
    while m > 0
        invariant
            m <= n,
            m > 0 ==> decimal(n as nat) == decimal(m as nat) + digits@,
            m == 0 ==> decimal(n as nat) == digits@,
        decreases m,
    {
        let ghost before = digits@;
        digits.insert(0, digit(m % 10));
        proof {
            assert(digits@ =~= seq![digit_char((m % 10) as nat)] + before);
            if m >= 10 {
                assert(decimal(m as nat) =~= decimal((m / 10) as nat) + seq![digit_char((m % 10) as nat)]);
                assert(decimal(m as nat) + before =~= decimal((m / 10) as nat) + digits@);
            } else {
                assert(decimal(m as nat) =~= seq![digit_char((m % 10) as nat)]);
                assert(decimal(m as nat) + before =~= digits@);
            }
        }
        m = m / 10;
    }
    digits
}

/// Appends `n` copies of `c` to `s`.
pub fn push_repeated(s: &mut String, c: char, n: usize)
    ensures
        final(s)@ == old(s)@ + repeat(c, n as nat),
{
    let mut i: usize = 0;
    while i < n
        invariant
            i <= n,
            s@ == old(s)@ + repeat(c, i as nat),
        decreases n - i,
    {
        push_char(s, c);
        i = i + 1;
        assert(s@ =~= old(s)@ + repeat(c, i as nat));
    }
}

} // verus!
