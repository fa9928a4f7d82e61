//! Removing comments that a parser has located: given the byte ranges of the
//! comments in a text, drop the chars inside them but keep their newlines.
use vstd::prelude::*;
use vstd::seq_lib::to_multiset_contains;
use crate::text::{chars_of, newline_count, string_of};

verus! {

/// The number of bytes that `c` takes in UTF-8.
pub open spec fn utf8_width(c: char) -> int {
    if (c as u32) < 0x80 {
        1
    } else if (c as u32) < 0x800 {
        2
    } else if (c as u32) < 0x10000 {
        3
    } else {
        4
    }
}

/// The number of bytes that `p` takes in UTF-8.
pub open spec fn utf8_len(p: Seq<char>) -> int
    decreases p.len(),
{
    if p.len() == 0 {
        0
    } else {
        utf8_len(p.drop_last()) + utf8_width(p.last())
    }
}

/// The byte `b` lies inside one of the half-open byte ranges `ranges`.
pub open spec fn covered(ranges: Seq<(usize, usize)>, b: int) -> bool {
    exists|x: int| 0 <= x < ranges.len() && #[trigger] ranges[x].0 <= b < ranges[x].1
}

/// `s` without the chars whose first byte lies inside one of `ranges`, but for
/// the `'\n'` among them.
pub open spec fn without_ranges(s: Seq<char>, ranges: Seq<(usize, usize)>) -> Seq<char>
    decreases s.len(),
{
    if s.len() == 0 {
        Seq::empty()
    } else {
        let rest = without_ranges(s.drop_last(), ranges);
        if !covered(ranges, utf8_len(s.drop_last())) || s.last() == '\n' {
            rest.push(s.last())
        } else {
            rest
        }
    }
}

/// Removing ranges keeps every line: the output has as many `'\n'` as the input.
pub proof fn lemma_without_ranges_keeps_newlines(s: Seq<char>, ranges: Seq<(usize, usize)>)
    ensures
        newline_count(without_ranges(s, ranges)) == newline_count(s),
    decreases s.len(),
{
    if s.len() > 0 {
        lemma_without_ranges_keeps_newlines(s.drop_last(), ranges);
        let rest = without_ranges(s.drop_last(), ranges);
        assert(rest.push(s.last()).drop_last() =~= rest);
    }
}

/// Two lists of ranges with the same elements cover the same bytes.
proof fn lemma_covered_same_elements(a: Seq<(usize, usize)>, c: Seq<(usize, usize)>, b: int)
    requires
        a.to_multiset() == c.to_multiset(),
    ensures
        covered(a, b) == covered(c, b),
{
    broadcast use to_multiset_contains;

    if covered(a, b) {
        let x = choose|x: int| 0 <= x < a.len() && #[trigger] a[x].0 <= b < a[x].1;
        assert(a.contains(a[x]));
        assert(c.to_multiset().count(a[x]) > 0);
        let y = choose|y: int| 0 <= y < c.len() && c[y] == a[x];
        assert(c[y].0 <= b < c[y].1);
    }
    if covered(c, b) {
        let x = choose|x: int| 0 <= x < c.len() && #[trigger] c[x].0 <= b < c[x].1;
        assert(c.contains(c[x]));
        assert(a.to_multiset().count(c[x]) > 0);
        let y = choose|y: int| 0 <= y < a.len() && a[y] == c[x];
        assert(a[y].0 <= b < a[y].1);
    }
}

/// Relies on `slice::sort_by_key`: sorts the ranges by their start, keeping the
/// same elements.
#[verifier::external_body]
fn sort_by_start(v: &mut Vec<(usize, usize)>)
    ensures
        final(v)@.to_multiset() == old(v)@.to_multiset(),
        forall|x: int, y: int|
            0 <= x < y < final(v)@.len() ==> final(v)@[x].0 <= final(v)@[y].0,
{
    v.sort_by_key(|r| r.0);
}

/// The number of bytes that `c` takes in UTF-8 (see `utf8_width`).
fn char_width(c: char) -> (r: u128)
    ensures
        r == utf8_width(c),
{
    let v = c as u32;
    if v < 0x80 {
        1
    } else if v < 0x800 {
        2
    } else if v < 0x10000 {
        3
    } else {
        4
    }
}

/// Removes from `input` the comments that lie at the byte ranges `ranges`
/// (start included, end excluded), keeping the `'\n'` inside them so that lines
/// keep their numbers. A char belongs to a range when its first byte does; the
/// ranges may come in any order and may overlap.
pub fn remove_comment_ranges(input: &str, ranges: Vec<(usize, usize)>) -> (r: String)
    ensures
        r@ == without_ranges(input@, ranges@),
{
    let s = chars_of(input);
    let ghost orig = ranges@;
    let mut rs = ranges;
    sort_by_start(&mut rs);
    let n = s.len();
    let m = rs.len();
    let mut out: Vec<char> = Vec::new();
    let mut k: usize = 0;
    let mut off: u128 = 0;
    let mut j: usize = 0;
    let mut mx: usize = 0;
    let ghost mut wit: int = 0;
    proof {
        assert(s@.take(0) =~= Seq::<char>::empty());
    }
    while k < n
        invariant
            n == s@.len(),
            m == rs@.len(),
            rs@.to_multiset() == orig.to_multiset(),
            forall|x: int, y: int| 0 <= x < y < m ==> rs@[x].0 <= rs@[y].0,
            k <= n,
            out@ == without_ranges(s@.take(k as int), orig),
            off == utf8_len(s@.take(k as int)),
            off <= 4 * k,
            j <= m,
            forall|x: int| 0 <= x < j ==> rs@[x].0 <= off,
            forall|x: int| 0 <= x < j ==> rs@[x].1 <= mx,
            j > 0 ==> 0 <= wit < j && rs@[wit].1 == mx,
        decreases n - k,
    {
        while j < m && (rs[j].0 as u128) <= off
            invariant
                m == rs@.len(),
                j <= m,
                forall|x: int| 0 <= x < j ==> rs@[x].0 <= off,
                forall|x: int| 0 <= x < j ==> rs@[x].1 <= mx,
                j > 0 ==> 0 <= wit < j && rs@[wit].1 == mx,
            decreases m - j,
        {
            if rs[j].1 > mx || j == 0 {
                mx = rs[j].1;
                proof {
                    wit = j as int;
                }
            }
            j += 1;
        }
        let c = s[k];
        let cov = j > 0 && (mx as u128) > off;
        proof {
            if cov {
                assert(rs@[wit].0 <= off < rs@[wit].1);
            }
            if covered(rs@, off as int) {
                let x = choose|x: int| 0 <= x < rs@.len() && #[trigger] rs@[x].0 <= off < rs@[x].1;
                if x >= j {
                    assert(rs@[j as int].0 <= rs@[x].0);
                }
            }
            assert(cov == covered(rs@, off as int));
            lemma_covered_same_elements(rs@, orig, off as int);
            assert(s@.take(k + 1).drop_last() =~= s@.take(k as int));
        }
        if !cov || c == '\n' {
            out.push(c);
        }
        off = off + char_width(c);
        k += 1;
    }
    proof {
        assert(s@.take(n as int) =~= s@);
    }
    string_of(&out)
}

} // verus!
