//! How a string that spans lines is laid out: the line break after its
//! opening delimiter and the blank last line before its closing one are left
//! out, and so is the indentation that its lines have in common.

use vstd::prelude::*;

verus! {

pub open spec fn is_indent_char(c: char) -> bool {
    c == ' ' || c == '\t'
}

/// The length of the run of spaces and tabs that starts at index `i` of `l`.
pub open spec fn indent_from(l: Seq<char>, i: int) -> int
    decreases l.len() - i,
{
    if 0 <= i < l.len() && is_indent_char(l[i]) {
        indent_from(l, i + 1)
    } else {
        i
    }
}

/// How many spaces and tabs `l` starts with.
pub open spec fn indent_of(l: Seq<char>) -> int {
    indent_from(l, 0)
}

/// A line of nothing but spaces and tabs.
pub open spec fn is_blank(l: Seq<char>) -> bool {
    indent_of(l) == l.len()
}

/// The lines of `v`, split at each line feed.
pub open spec fn split_lines(v: Seq<char>) -> Seq<Seq<char>>
    decreases v.len(),
{
    if v.len() == 0 {
        seq![Seq::empty()]
    } else {
        let before = split_lines(v.drop_last());
        if v.last() == '\n' {
            before.push(Seq::empty())
        } else {
            before.drop_last().push(before.last().push(v.last()))
        }
    }
}

/// The lines `ls`, joined with line feeds.
pub open spec fn join_lines(ls: Seq<Seq<char>>) -> Seq<char>
    decreases ls.len(),
{
    if ls.len() == 0 {
        Seq::empty()
    } else if ls.len() == 1 {
        ls[0]
    } else {
        join_lines(ls.drop_last()) + seq!['\n'] + ls.last()
    }
}

/// The least indentation of the lines of `ls` that are not blank, if any.
pub open spec fn common_indent(ls: Seq<Seq<char>>) -> Option<int>
    decreases ls.len(),
{
    if ls.len() == 0 {
        None
    } else {
        let rest = common_indent(ls.drop_last());
        if is_blank(ls.last()) {
            rest
        } else {
            match rest {
                None => Some(indent_of(ls.last())),
                Some(m) => Some(if m <= indent_of(ls.last()) {
                    m
                } else {
                    indent_of(ls.last())
                }),
            }
        }
    }
}

/// `l` without its first `m` characters of indentation (or all of it, when it has less).
pub open spec fn strip_indent(l: Seq<char>, m: int) -> Seq<char> {
    l.subrange(if m <= indent_of(l) { m } else { indent_of(l) }, l.len() as int)
}

/// The lines that a string spanning lines keeps: without an empty first line
/// and without a blank last one.
pub open spec fn kept_lines(v: Seq<char>) -> Seq<Seq<char>> {
    let ls = split_lines(v);
    let ls = if ls.len() > 1 && ls[0].len() == 0 {
        ls.drop_first()
    } else {
        ls
    };
    if ls.len() > 1 && is_blank(ls.last()) {
        ls.drop_last()
    } else {
        ls
    }
}

/// The text of a string as its value: a string on one line as it is; the
/// lines of one that spans lines as `kept_lines` keeps them, each without
/// the indentation that they have in common.
pub open spec fn unindent(v: Seq<char>) -> Seq<char> {
    if split_lines(v).len() <= 1 {
        v
    } else {
        let ls = kept_lines(v);
        let m = match common_indent(ls) {
            Some(m) => m,
            None => 0,
        };
        join_lines(ls.map_values(|l: Seq<char>| strip_indent(l, m)))
    }
}

pub proof fn lemma_indent_from(l: Seq<char>, i: int)
    requires
        0 <= i <= l.len(),
    ensures
        i <= indent_from(l, i) <= l.len(),
    decreases l.len() - i,
{
    if i < l.len() && is_indent_char(l[i]) {
        lemma_indent_from(l, i + 1);
    }
}

pub proof fn lemma_split_lines(v: Seq<char>)
    ensures
        split_lines(v).len() >= 1,
    decreases v.len(),
{
    if v.len() > 0 {
        lemma_split_lines(v.drop_last());
    }
}

/// How many spaces and tabs `l` starts with.
fn indentation(l: &Vec<char>) -> (n: usize)
    ensures
        n == indent_of(l@),
{
    let mut i: usize = 0;
    proof {
        lemma_indent_from(l@, 0);
    }
    while i < l.len() && (l[i] == ' ' || l[i] == '\t')
        invariant
            i <= l@.len(),
            indent_from(l@, i as int) == indent_of(l@),
        decreases l@.len() - i,
    {
        i = i + 1;
    }
    i
}

/// The lines of `v`, split at each line feed.
fn split(v: &Vec<char>) -> (r: Vec<Vec<char>>)
    ensures
        r@.map_values(|l: Vec<char>| l@) == split_lines(v@),
{
    let mut r: Vec<Vec<char>> = Vec::new();
    let mut current: Vec<char> = Vec::new();
    let mut i: usize = 0;
    proof {
        assert(v@.take(0) =~= Seq::<char>::empty());
    }
    while i < v.len()
        invariant
            i <= v@.len(),
            r@.map_values(|l: Vec<char>| l@).push(current@) == split_lines(v@.take(i as int)),
        decreases v@.len() - i,
    {
        let ghost before = r@.map_values(|l: Vec<char>| l@).push(current@);
        proof {
            assert(v@.take(i + 1).drop_last() =~= v@.take(i as int));
            assert(v@.take(i + 1).last() == v@[i as int]);
        }
        if v[i] == '\n' {
            let line = current;
            r.push(line);
            current = Vec::new();
            assert(r@.map_values(|l: Vec<char>| l@).push(current@) =~= before.push(Seq::empty()));
        } else {
            current.push(v[i]);
            assert(r@.map_values(|l: Vec<char>| l@).push(current@) =~= before.drop_last().push(
                before.last().push(v@[i as int]),
            ));
        }
        i = i + 1;
    }
    r.push(current);
    proof {
        assert(v@.take(i as int) =~= v@);
    }
    r
}

/// The characters of `l` from index `from` on.
fn tail(l: &Vec<char>, from: usize) -> (r: Vec<char>)
    requires
        from <= l@.len(),
    ensures
        r@ == l@.subrange(from as int, l@.len() as int),
{
    let mut r: Vec<char> = Vec::new();
    let mut i = from;
    while i < l.len()
        invariant
            from <= i <= l@.len(),
            r@ == l@.subrange(from as int, i as int),
        decreases l@.len() - i,
    {
        r.push(l[i]);
        i = i + 1;
        assert(r@ =~= l@.subrange(from as int, i as int));
    }
    r
}

/// The value of the text `v` of a string, as [`unindent`] gives it.
pub fn unindent_chars(v: &Vec<char>) -> (r: Vec<char>)
    ensures
        r@ == unindent(v@),
{
    let lines = split(v);
    let ghost ls0 = split_lines(v@);
    proof {
        lemma_split_lines(v@);
        assert(lines@.len() == ls0.len());
    }
    if lines.len() <= 1 {
        return copy(v);
    }
    let n = lines.len();
    let first: usize = if lines[0].len() == 0 {
        1
    } else {
        0
    };
    proof {
        assert(lines@[0]@ == ls0[0]);
    }
    let last_blank = n - first > 1 && indentation(&lines[n - 1]) == lines[n - 1].len();
    let stop: usize = if last_blank {
        n - 1
    } else {
        n
    };
    let ghost kept = kept_lines(v@);
    proof {
        assert(lines@[n - 1]@ == ls0[n - 1]);
        let ls1 = if ls0.len() > 1 && ls0[0].len() == 0 {
            ls0.drop_first()
        } else {
            ls0
        };
        assert(ls1 =~= ls0.subrange(first as int, n as int));
        assert(ls1.last() == ls0[n - 1]);
        assert(kept =~= ls0.subrange(first as int, stop as int));
    }
    // the least indentation of the kept lines that are not blank
    let mut m: Option<usize> = None;
    let mut j: usize = first;
    while j < stop
        invariant
            first <= j <= stop <= n,
            n == lines@.len(),
            lines@.map_values(|l: Vec<char>| l@) == ls0,
            kept == ls0.subrange(first as int, stop as int),
            match m {
                Some(x) => common_indent(kept.take(j - first)) == Some(x as int),
                None => common_indent(kept.take(j - first)) is None,
            },
        decreases stop - j,
    {
        proof {
            assert(kept.take(j - first + 1).drop_last() =~= kept.take(j - first));
            assert(kept.take(j - first + 1).last() == lines@[j as int]@);
        }
        let w = indentation(&lines[j]);
        if w != lines[j].len() {
            m = match m {
                None => Some(w),
                Some(x) => Some(if x <= w {
                    x
                } else {
                    w
                }),
            };
        }
        j = j + 1;
    }
    proof {
        assert(kept.take(stop - first) =~= kept);
    }
    let m: usize = match m {
        Some(x) => x,
        None => 0,
    };
    let ghost stripped = kept.map_values(|l: Seq<char>| strip_indent(l, m as int));
    let mut r: Vec<char> = Vec::new();
    let mut k: usize = first;
    while k < stop
        invariant
            first <= k <= stop <= n,
            n == lines@.len(),
            lines@.map_values(|l: Vec<char>| l@) == ls0,
            kept == ls0.subrange(first as int, stop as int),
            stripped == kept.map_values(|l: Seq<char>| strip_indent(l, m as int)),
            r@ == join_lines(stripped.take(k - first)),
        decreases stop - k,
    {
        let ghost before = r@;
        let w = indentation(&lines[k]);
        let cut = if m <= w {
            m
        } else {
            w
        };
        proof {
            lemma_indent_from(lines@[k as int]@, 0);
            assert(lines@[k as int]@ == kept[k - first]);
        }
        let line = tail(&lines[k], cut);
        if k > first {
            r.push('\n');
        }
        let mut i: usize = 0;
        while i < line.len()
            invariant
                i <= line@.len(),
                r@ == (if k > first {
                    before.push('\n')
                } else {
                    before
                }) + line@.take(i as int),
            decreases line@.len() - i,
        {
            r.push(line[i]);
            i = i + 1;
            assert(r@ =~= (if k > first {
                before.push('\n')
            } else {
                before
            }) + line@.take(i as int));
        }
        proof {
            assert(line@.take(i as int) =~= line@);
            assert(stripped.take(k - first + 1).drop_last() =~= stripped.take(k - first));
            assert(stripped[k - first] == line@);
            if k > first {
                assert(r@ =~= join_lines(stripped.take(k - first)) + seq!['\n'] + line@);
            } else {
                assert(stripped.take(1) =~= seq![line@]);
                assert(r@ =~= line@);
            }
        }
        k = k + 1;
    }
    proof {
        assert(stripped.take(stop - first) =~= stripped);
    }
    r
}

/// A copy of `v`.
fn copy(v: &Vec<char>) -> (r: Vec<char>)
    ensures
        r@ == v@,
{
    tail(v, 0)
}

} // verus!
