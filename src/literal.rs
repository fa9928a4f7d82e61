//! The shared quoted-literal scanner: from just after an opening quote, up to
//! and including the matching unescaped quote, or to the end of the input.
use vstd::prelude::*;

verus! {

/// The index just past the literal whose contents start at `k` and which is closed
/// by an unescaped `q`. A backslash and the char after it form one unit, so an
/// escaped quote does not close the literal. Without a closing quote the literal
/// runs to the end of the input.
pub open spec fn quoted_end(s: Seq<char>, k: int, q: char) -> int
    decreases s.len() - k,
{
    if k >= s.len() {
        s.len() as int
    } else if s[k] == '\\' && k + 1 < s.len() {
        quoted_end(s, k + 2, q)
    } else if s[k] == q {
        k + 1
    } else {
        quoted_end(s, k + 1, q)
    }
}

pub proof fn lemma_quoted_end_bounds(s: Seq<char>, k: int, q: char)
    requires
        0 <= k <= s.len(),
    ensures
        k <= quoted_end(s, k, q) <= s.len(),
    decreases s.len() - k,
{
    if k < s.len() {
        if s[k] == '\\' && k + 1 < s.len() {
            lemma_quoted_end_bounds(s, k + 2, q);
        } else if s[k] != q {
            lemma_quoted_end_bounds(s, k + 1, q);
        }
    }
}

/// Finds the end of the literal whose contents start at `k` (see `quoted_end`).
pub fn skip_quoted(s: &Vec<char>, k: usize, q: char) -> (r: usize)
    requires
        k <= s@.len(),
    ensures
        r == quoted_end(s@, k as int, q),
        k <= r <= s@.len(),
{
    let mut j: usize = k;
    while j < s.len()
        invariant
            k <= j <= s@.len(),
            quoted_end(s@, j as int, q) == quoted_end(s@, k as int, q),
        decreases s@.len() - j,
    {
        if s[j] == '\\' && j + 1 < s.len() {
            j += 2;
        } else if s[j] == q {
            return j + 1;
        } else {
            j += 1;
        }
    }
    j
}

/// The literal whose contents start at `k` is closed by its own quote `q` within `s`.
pub open spec fn quoted_closes(s: Seq<char>, k: int, q: char) -> bool
    decreases s.len() - k,
{
    if !(0 <= k < s.len()) {
        false
    } else if s[k] == '\\' && k + 1 < s.len() {
        quoted_closes(s, k + 2, q)
    } else if s[k] == q {
        true
    } else {
        quoted_closes(s, k + 1, q)
    }
}

/// `x` can stand between two quotes `q`: each of its chars is neither a backslash
/// nor `q`, or is escaped by the backslash before it.
pub open spec fn escaped_text(x: Seq<char>, q: char) -> bool
    decreases x.len(),
{
    if x.len() == 0 {
        true
    } else if x[0] == '\\' && x.len() >= 2 {
        escaped_text(x.skip(2), q)
    } else if x[0] != '\\' && x[0] != q {
        escaped_text(x.skip(1), q)
    } else {
        false
    }
}

/// A literal closed within `a` ends at the same place whatever follows `a`.
pub proof fn lemma_quoted_end_extend(a: Seq<char>, r: Seq<char>, k: int, q: char)
    requires
        0 <= k,
        q != '\\',
        quoted_closes(a, k, q),
    ensures
        quoted_end(a + r, k, q) == quoted_end(a, k, q),
        quoted_end(a, k, q) <= a.len(),
    decreases a.len() - k,
{
    assert((a + r)[k] == a[k]);
    if k + 1 < a.len() {
        assert((a + r)[k + 1] == a[k + 1]);
    }
    if a[k] == '\\' && k + 1 < a.len() {
        lemma_quoted_end_extend(a, r, k + 2, q);
    } else if a[k] != q {
        if a[k] == '\\' {
            assert(!quoted_closes(a, k + 1, q));
        }
        lemma_quoted_end_extend(a, r, k + 1, q);
    }
}

/// Scanning a literal in `b` placed after `a` ends at the same place, shifted by
/// the length of `a`.
pub proof fn lemma_quoted_end_shift(a: Seq<char>, b: Seq<char>, k: int, q: char)
    requires
        0 <= k <= b.len(),
    ensures
        quoted_end(a + b, a.len() + k, q) == a.len() + quoted_end(b, k, q),
    decreases b.len() - k,
{
    if k < b.len() {
        assert((a + b)[a.len() + k] == b[k]);
        if b[k] == '\\' && k + 1 < b.len() {
            lemma_quoted_end_shift(a, b, k + 2, q);
        } else if b[k] != q {
            lemma_quoted_end_shift(a, b, k + 1, q);
        }
    }
}

/// A literal whose contents are `x`, an escaped text, followed by the quote `q`
/// ends just past that quote.
pub proof fn lemma_quoted_end_of_text(s: Seq<char>, k: int, x: Seq<char>, q: char)
    requires
        0 <= k,
        k + x.len() < s.len(),
        s.subrange(k, k + x.len()) == x,
        s[k + x.len()] == q,
        q != '\\',
        escaped_text(x, q),
    ensures
        quoted_end(s, k, q) == k + x.len() + 1,
    decreases x.len(),
{
    if x.len() > 0 {
        assert(s[k] == x[0]);
        if x[0] == '\\' && x.len() >= 2 {
            assert(s.subrange(k + 2, k + x.len()) =~= x.skip(2));
            lemma_quoted_end_of_text(s, k + 2, x.skip(2), q);
        } else {
            assert(s.subrange(k + 1, k + x.len()) =~= x.skip(1));
            lemma_quoted_end_of_text(s, k + 1, x.skip(1), q);
        }
    }
}

} // verus!
