//! Character-level helpers shared by every engine: turning a `&str` into an
//! indexable sequence of chars, building the output `String`, counting and
//! re-emitting line breaks, and the whitespace / identifier classes of chars.
use vstd::prelude::*;

verus! {

/// The number of `'\n'` characters in `s`.
pub open spec fn newline_count(s: Seq<char>) -> nat
    decreases s.len(),
{
    if s.len() == 0 {
        0
    } else {
        newline_count(s.drop_last()) + if s.last() == '\n' {
            1nat
        } else {
            0nat
        }
    }
}

/// The `'\n'` characters of `s`, in order (what a removed comment leaves behind).
pub open spec fn newlines_of(s: Seq<char>) -> Seq<char>
    decreases s.len(),
{
    if s.len() == 0 {
        Seq::empty()
    } else if s.last() == '\n' {
        newlines_of(s.drop_last()).push('\n')
    } else {
        newlines_of(s.drop_last())
    }
}

/// The index of the first `'\n'` at or after `k`, or `s.len()` when there is none.
pub open spec fn line_end(s: Seq<char>, k: int) -> int
    decreases s.len() - k,
{
    if k >= s.len() {
        s.len() as int
    } else if s[k] == '\n' {
        k
    } else {
        line_end(s, k + 1)
    }
}

/// `c` has the Unicode `White_Space` property: U+0009 to U+000D, U+0020, U+0085,
/// U+00A0, U+1680, U+2000 to U+200A, U+2028, U+2029, U+202F, U+205F and U+3000.
pub open spec fn whitespace_char(c: char) -> bool {
    let v = c as u32;
    ||| 0x9 <= v <= 0xD
    ||| v == 0x20
    ||| v == 0x85
    ||| v == 0xA0
    ||| v == 0x1680
    ||| 0x2000 <= v <= 0x200A
    ||| v == 0x2028
    ||| v == 0x2029
    ||| v == 0x202F
    ||| v == 0x205F
    ||| v == 0x3000
}

/// What `char::is_alphanumeric` answers for `c`.
pub uninterp spec fn alphanumeric_char(c: char) -> bool;

/// Whether `c` has the Unicode `White_Space` property (what `char::is_whitespace` answers).
pub fn is_whitespace(c: char) -> (r: bool)
    ensures
        r == whitespace_char(c),
{
    let v = c as u32;
    (0x9 <= v && v <= 0xD) || v == 0x20 || v == 0x85 || v == 0xA0 || v == 0x1680 || (0x2000 <= v
        && v <= 0x200A) || v == 0x2028 || v == 0x2029 || v == 0x202F || v == 0x205F || v == 0x3000
}

/// Relies on `char::is_alphanumeric`: whether `c` is alphabetic or numeric.
#[verifier::external_body]
pub(crate) fn is_alphanumeric(c: char) -> (r: bool)
    ensures
        r == alphanumeric_char(c),
{
    c.is_alphanumeric()
}

/// The length of `p` once its trailing whitespace is dropped.
pub open spec fn trimmed_len(p: Seq<char>) -> int
    decreases p.len(),
{
    if p.len() > 0 && whitespace_char(p.last()) {
        trimmed_len(p.drop_last())
    } else {
        p.len() as int
    }
}

/// The number of whitespace chars at the start of `x`.
pub open spec fn leading_whitespace_len(x: Seq<char>) -> int
    decreases x.len(),
{
    if x.len() > 0 && whitespace_char(x[0]) {
        1 + leading_whitespace_len(x.drop_first())
    } else {
        0
    }
}

/// `x` without its leading and trailing whitespace.
pub open spec fn trim_whitespace(x: Seq<char>) -> Seq<char> {
    let t = x.take(trimmed_len(x));
    t.skip(leading_whitespace_len(t))
}

pub proof fn lemma_newline_count_concat(a: Seq<char>, b: Seq<char>)
    ensures
        newline_count(a + b) == newline_count(a) + newline_count(b),
    decreases b.len(),
{
    if b.len() > 0 {
        assert((a + b).drop_last() =~= a + b.drop_last());
        lemma_newline_count_concat(a, b.drop_last());
    } else {
        assert(a + b =~= a);
    }
}

pub proof fn lemma_newlines_of_count(s: Seq<char>)
    ensures
        newline_count(newlines_of(s)) == newline_count(s),
    decreases s.len(),
{
    if s.len() > 0 {
        lemma_newlines_of_count(s.drop_last());
        let n = newlines_of(s.drop_last());
        if s.last() == '\n' {
            assert(n.push('\n').drop_last() =~= n);
        }
    }
}

pub proof fn lemma_line_end_bounds(s: Seq<char>, k: int)
    requires
        0 <= k <= s.len(),
    ensures
        k <= line_end(s, k) <= s.len(),
        line_end(s, k) < s.len() ==> s[line_end(s, k)] == '\n',
    decreases s.len() - k,
{
    if k < s.len() && s[k] != '\n' {
        lemma_line_end_bounds(s, k + 1);
    }
}

/// Relies on `String::push`: appends one char to the end of the string.
#[verifier::external_body]
fn push_char(out: &mut String, c: char)
    ensures
        final(out)@ == old(out)@.push(c),
{
    out.push(c);
}

/// The characters of `s`, in order, as an indexable vector.
pub fn chars_of(s: &str) -> (r: Vec<char>)
    ensures
        r@ == s@,
{
    let mut v: Vec<char> = Vec::new();
    for c in it: s.chars()
        invariant
            v@ == it.seq().take(it.index() as int),
    {
        v.push(c);
    }
    v
}

/// A `String` holding exactly the characters of `v`.
pub fn string_of(v: &Vec<char>) -> (r: String)
    ensures
        r@ == v@,
{
    let mut out = String::new();
    let mut i: usize = 0;
    while i < v.len()
        invariant
            i <= v@.len(),
            out@ == v@.take(i as int),
        decreases v@.len() - i,
    {
        push_char(&mut out, v[i]);
        proof {
            assert(v@.take(i as int + 1) == v@.take(i as int).push(v@[i as int]));
        }
        i += 1;
    }
    proof {
        assert(v@.take(v@.len() as int) == v@);
    }
    out
}

/// Appends `s[from..to]` to `out`, unchanged.
pub fn copy_range(s: &Vec<char>, out: &mut Vec<char>, from: usize, to: usize)
    requires
        from <= to <= s@.len(),
    ensures
        final(out)@ == old(out)@ + s@.subrange(from as int, to as int),
{
    let mut k: usize = from;
    while k < to
        invariant
            from <= k <= to <= s@.len(),
            out@ == old(out)@ + s@.subrange(from as int, k as int),
        decreases to - k,
    {
        out.push(s[k]);
        proof {
            assert(s@.subrange(from as int, k + 1) =~= s@.subrange(from as int, k as int).push(
                s@[k as int],
            ));
        }
        k += 1;
    }
}

/// Appends the `'\n'` characters of `s[from..to]` to `out`.
pub fn copy_newlines(s: &Vec<char>, out: &mut Vec<char>, from: usize, to: usize)
    requires
        from <= to <= s@.len(),
    ensures
        final(out)@ == old(out)@ + newlines_of(s@.subrange(from as int, to as int)),
{
    let mut k: usize = from;
    while k < to
        invariant
            from <= k <= to <= s@.len(),
            out@ == old(out)@ + newlines_of(s@.subrange(from as int, k as int)),
        decreases to - k,
    {
        proof {
            assert(s@.subrange(from as int, k + 1).drop_last() =~= s@.subrange(
                from as int,
                k as int,
            ));
        }
        if s[k] == '\n' {
            out.push('\n');
        }
        k += 1;
    }
}

/// The index of the first `'\n'` at or after `k`, or the length when there is none.
pub fn find_line_end(s: &Vec<char>, k: usize) -> (r: usize)
    requires
        k <= s@.len(),
    ensures
        r == line_end(s@, k as int),
{
    let mut j: usize = k;
    while j < s.len() && s[j] != '\n'
        invariant
            k <= j <= s@.len(),
            line_end(s@, j as int) == line_end(s@, k as int),
        decreases s@.len() - j,
    {
        j += 1;
    }
    j
}

/// The index just past a line comment whose text starts at `k`: through the first
/// `'\n'`, or to the end of the input.
pub open spec fn line_comment_end(s: Seq<char>, k: int) -> int {
    if line_end(s, k) < s.len() {
        line_end(s, k) + 1
    } else {
        s.len() as int
    }
}

/// What the piece `s[i..e]` contributes to the output: all of it when it is code
/// or a literal, only its newlines when it is a comment.
pub open spec fn token_output(s: Seq<char>, i: int, e: int, comment: bool) -> Seq<char> {
    if comment {
        newlines_of(s.subrange(i, e))
    } else {
        s.subrange(i, e)
    }
}

/// One step of a scan keeps the newline count: if the piece `s[i..e]` is replaced
/// by `piece` with as many newlines, and what follows keeps the count of `s[e..]`,
/// the whole keeps the count of `s[i..]`.
pub proof fn lemma_step_newlines(s: Seq<char>, i: int, e: int, piece: Seq<char>, rest: Seq<char>)
    requires
        0 <= i <= e <= s.len(),
        newline_count(piece) == newline_count(s.subrange(i, e)),
        newline_count(rest) == newline_count(s.subrange(e, s.len() as int)),
    ensures
        newline_count(piece + rest) == newline_count(s.subrange(i, s.len() as int)),
{
    lemma_newline_count_concat(piece, rest);
    lemma_newline_count_concat(s.subrange(i, e), s.subrange(e, s.len() as int));
    assert(s.subrange(i, e) + s.subrange(e, s.len() as int) =~= s.subrange(i, s.len() as int));
}

/// A token's output has as many newlines as the token's text.
pub proof fn lemma_token_output_newlines(s: Seq<char>, i: int, e: int, comment: bool)
    requires
        0 <= i <= e <= s.len(),
    ensures
        newline_count(token_output(s, i, e, comment)) == newline_count(s.subrange(i, e)),
{
    lemma_newlines_of_count(s.subrange(i, e));
}

/// A kept piece followed by the unchanged rest is the unchanged whole.
pub proof fn lemma_step_unchanged(s: Seq<char>, i: int, e: int, rest: Seq<char>)
    requires
        0 <= i <= e <= s.len(),
        rest == s.subrange(e, s.len() as int),
    ensures
        s.subrange(i, e) + rest == s.subrange(i, s.len() as int),
{
    assert(s.subrange(i, e) + rest =~= s.subrange(i, s.len() as int));
}

/// Appends what the piece `s[from..to]` contributes to the output (see `token_output`).
pub fn emit_token(s: &Vec<char>, out: &mut Vec<char>, from: usize, to: usize, comment: bool)
    requires
        from <= to <= s@.len(),
    ensures
        final(out)@ == old(out)@ + token_output(s@, from as int, to as int, comment),
{
    if comment {
        copy_newlines(s, out, from, to);
    } else {
        copy_range(s, out, from, to);
    }
}

/// The index just past a line comment whose text starts at `k` (see `line_comment_end`).
pub fn skip_line_comment(s: &Vec<char>, k: usize) -> (r: usize)
    requires
        k <= s@.len(),
    ensures
        r == line_comment_end(s@, k as int),
        k <= r <= s@.len(),
{
    proof {
        lemma_line_end_bounds(s@, k as int);
    }
    let e = find_line_end(s, k);
    if e < s.len() {
        e + 1
    } else {
        e
    }
}

/// The bounds `(a, b)` of `s[from..to]` once its leading and trailing whitespace
/// is dropped.
pub fn trim_bounds(s: &Vec<char>, from: usize, to: usize) -> (r: (usize, usize))
    requires
        from <= to <= s@.len(),
    ensures
        from <= r.0 <= r.1 <= to,
        s@.subrange(r.0 as int, r.1 as int) == trim_whitespace(s@.subrange(from as int, to as int)),
{
    let ghost x = s@.subrange(from as int, to as int);
    let mut b: usize = to;
    proof {
        assert(s@.subrange(from as int, b as int) =~= x);
    }
    while b > from && is_whitespace(s[b - 1])
        invariant
            from <= b <= to <= s@.len(),
            x == s@.subrange(from as int, to as int),
            trimmed_len(s@.subrange(from as int, b as int)) == trimmed_len(x),
        decreases b,
    {
        proof {
            assert(s@.subrange(from as int, b as int).drop_last() =~= s@.subrange(
                from as int,
                b - 1,
            ));
        }
        b -= 1;
    }
    proof {
        assert(trimmed_len(s@.subrange(from as int, b as int)) == b - from);
        assert(x.take(b - from) =~= s@.subrange(from as int, b as int));
    }
    let ghost t = s@.subrange(from as int, b as int);
    let mut a: usize = from;
    proof {
        assert(s@.subrange(a as int, b as int) =~= t);
    }
    while a < b && is_whitespace(s[a])
        invariant
            from <= a <= b <= to <= s@.len(),
            t == s@.subrange(from as int, b as int),
            leading_whitespace_len(s@.subrange(a as int, b as int)) + (a - from)
                == leading_whitespace_len(t),
        decreases b - a,
    {
        proof {
            assert(s@.subrange(a as int, b as int).drop_first() =~= s@.subrange(
                a + 1,
                b as int,
            ));
        }
        a += 1;
    }
    proof {
        assert(leading_whitespace_len(s@.subrange(a as int, b as int)) == 0);
        assert(t.skip(a - from) =~= s@.subrange(a as int, b as int));
    }
    (a, b)
}

/// A line found closed by a `'\n'` within `a` ends at the same place whatever follows `a`.
pub proof fn lemma_line_end_extend(a: Seq<char>, r: Seq<char>, k: int)
    requires
        0 <= k <= a.len(),
        line_end(a, k) < a.len(),
    ensures
        line_end(a + r, k) == line_end(a, k),
    decreases a.len() - k,
{
    if a[k] != '\n' {
        lemma_line_end_extend(a, r, k + 1);
    }
}

/// Looking for a line's end in `b` placed after `a` finds the same place, shifted by
/// the length of `a`.
pub proof fn lemma_line_end_shift(a: Seq<char>, b: Seq<char>, k: int)
    requires
        0 <= k <= b.len(),
    ensures
        line_end(a + b, a.len() + k) == a.len() + line_end(b, k),
    decreases b.len() - k,
{
    if k < b.len() {
        assert((a + b)[a.len() + k] == b[k]);
        if b[k] != '\n' {
            lemma_line_end_shift(a, b, k + 1);
        }
    }
}

} // verus!
