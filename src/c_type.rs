//! The C-style engine: `//` line comments up to the next `'\n'`, non-nesting
//! `/* */` block comments, and `"`/`'` literals. A removed comment leaves its
//! `'\n'` characters behind.
use vstd::prelude::*;
use crate::literal::{
    escaped_text, lemma_quoted_end_bounds, lemma_quoted_end_extend, lemma_quoted_end_of_text,
    lemma_quoted_end_shift, quoted_closes, quoted_end, skip_quoted,
};
use crate::text::{
    chars_of, emit_token, lemma_line_end_bounds, lemma_line_end_extend, lemma_line_end_shift,
    lemma_step_newlines, lemma_step_unchanged, lemma_token_output_newlines, line_comment_end,
    line_end, newline_count, skip_line_comment, string_of, token_output,
};

verus! {

/// The index just past the first `*/` at or after `k`, or the end of the input:
/// block comments do not nest.
pub open spec fn block_comment_end(s: Seq<char>, k: int) -> int
    decreases s.len() - k,
{
    if k >= s.len() {
        s.len() as int
    } else if s[k] == '*' && k + 1 < s.len() && s[k + 1] == '/' {
        k + 2
    } else {
        block_comment_end(s, k + 1)
    }
}

/// The piece that starts at `i`, scanning code: its end, and whether it is a comment.
pub open spec fn c_token(s: Seq<char>, i: int) -> (int, bool) {
    if s[i] == '/' && i + 1 < s.len() && s[i + 1] == '/' {
        (line_comment_end(s, i + 2), true)
    } else if s[i] == '/' && i + 1 < s.len() && s[i + 1] == '*' {
        (block_comment_end(s, i + 2), true)
    } else if s[i] == '"' || s[i] == '\'' {
        (quoted_end(s, i + 1, s[i]), false)
    } else {
        (i + 1, false)
    }
}

/// The output of the C-style engine for the input `s[i..]`, scanning from code.
pub open spec fn c_strip_from(s: Seq<char>, i: int) -> Seq<char>
    decreases s.len() - i,
{
    if 0 <= i < s.len() {
        let (e, comment) = c_token(s, i);
        proof {
            lemma_c_token_bounds(s, i);
        }
        token_output(s, i, e, comment) + c_strip_from(s, e)
    } else {
        Seq::empty()
    }
}

/// The output of the C-style engine for the input `s`.
pub open spec fn c_strip(s: Seq<char>) -> Seq<char> {
    c_strip_from(s, 0)
}

/// No piece that the C-style engine reads in `s[i..]` is a comment.
pub open spec fn c_comment_free_from(s: Seq<char>, i: int) -> bool
    decreases s.len() - i,
{
    if 0 <= i < s.len() {
        let (e, comment) = c_token(s, i);
        proof {
            lemma_c_token_bounds(s, i);
        }
        !comment && c_comment_free_from(s, e)
    } else {
        true
    }
}

pub proof fn lemma_block_comment_end_bounds(s: Seq<char>, k: int)
    requires
        0 <= k <= s.len(),
    ensures
        k <= block_comment_end(s, k) <= s.len(),
    decreases s.len() - k,
{
    if k < s.len() && !(s[k] == '*' && k + 1 < s.len() && s[k + 1] == '/') {
        lemma_block_comment_end_bounds(s, k + 1);
    }
}

pub proof fn lemma_c_token_bounds(s: Seq<char>, i: int)
    requires
        0 <= i < s.len(),
    ensures
        i < c_token(s, i).0 <= s.len(),
{
    if s[i] == '/' && i + 1 < s.len() && s[i + 1] == '/' {
        lemma_line_end_bounds(s, i + 2);
    } else if s[i] == '/' && i + 1 < s.len() && s[i + 1] == '*' {
        lemma_block_comment_end_bounds(s, i + 2);
    } else if s[i] == '"' || s[i] == '\'' {
        lemma_quoted_end_bounds(s, i + 1, s[i]);
    }
}

/// The C-style engine keeps every line: the output has as many `'\n'` as the input.
pub proof fn lemma_c_keeps_newlines(s: Seq<char>)
    ensures
        newline_count(c_strip(s)) == newline_count(s),
{
    lemma_c_keeps_newlines_from(s, 0);
    assert(s.subrange(0, s.len() as int) =~= s);
}

pub proof fn lemma_c_keeps_newlines_from(s: Seq<char>, i: int)
    requires
        0 <= i <= s.len(),
    ensures
        newline_count(c_strip_from(s, i)) == newline_count(s.subrange(i, s.len() as int)),
    decreases s.len() - i,
{
    if i < s.len() {
        let (e, comment) = c_token(s, i);
        lemma_c_token_bounds(s, i);
        lemma_c_keeps_newlines_from(s, e);
        lemma_token_output_newlines(s, i, e, comment);
        lemma_step_newlines(s, i, e, token_output(s, i, e, comment), c_strip_from(s, e));
    } else {
        assert(s.subrange(i, s.len() as int).len() == 0);
    }
}

/// Scanning `s` from `i` in code comes to stand at `k`, in code again.
pub open spec fn c_reaches(s: Seq<char>, i: int, k: int) -> bool
    decreases s.len() - i,
{
    if 0 <= i < s.len() && i < k {
        proof {
            lemma_c_token_bounds(s, i);
        }
        c_reaches(s, c_token(s, i).0, k)
    } else {
        i == k
    }
}

/// The output of the pieces read from `i` up to `k`.
pub open spec fn c_output_between(s: Seq<char>, i: int, k: int) -> Seq<char>
    decreases s.len() - i,
{
    if 0 <= i < s.len() && i < k {
        let (e, comment) = c_token(s, i);
        proof {
            lemma_c_token_bounds(s, i);
        }
        token_output(s, i, e, comment) + c_output_between(s, e, k)
    } else {
        Seq::empty()
    }
}

/// Where the scan comes to stand, the output splits: what was read before, then
/// the output of the rest.
pub proof fn lemma_c_output_splits(s: Seq<char>, i: int, k: int)
    requires
        0 <= i,
        c_reaches(s, i, k),
    ensures
        c_strip_from(s, i) == c_output_between(s, i, k) + c_strip_from(s, k),
    decreases s.len() - i,
{
    if 0 <= i < s.len() && i < k {
        let (e, comment) = c_token(s, i);
        lemma_c_token_bounds(s, i);
        lemma_c_output_splits(s, e, k);
        assert(token_output(s, i, e, comment) + (c_output_between(s, e, k) + c_strip_from(s, k))
            =~= (token_output(s, i, e, comment) + c_output_between(s, e, k)) + c_strip_from(s, k));
    } else {
        assert(Seq::<char>::empty() + c_strip_from(s, k) =~= c_strip_from(s, k));
    }
}

/// A string or char literal that opens where the C-style engine reads code is
/// copied whole and unchanged into the output, whatever comment markers it
/// holds; scanning goes on after its closing quote.
pub proof fn lemma_c_literal_unchanged(s: Seq<char>, k: int)
    requires
        c_reaches(s, 0, k),
        0 <= k < s.len(),
        s[k] == '"' || s[k] == '\'',
    ensures
        ({
            let e = quoted_end(s, k + 1, s[k]);
            c_strip(s) == c_output_between(s, 0, k) + s.subrange(k, e) + c_strip_from(s, e)
        }),
{
    lemma_c_output_splits(s, 0, k);
    let e = c_token(s, k).0;
    assert(c_output_between(s, 0, k) + (s.subrange(k, e) + c_strip_from(s, e))
        =~= c_output_between(s, 0, k) + s.subrange(k, e) + c_strip_from(s, e));
}

/// Input in which the C-style engine reads no comment comes out unchanged.
pub proof fn lemma_c_comment_free_unchanged(s: Seq<char>)
    requires
        c_comment_free_from(s, 0),
    ensures
        c_strip(s) == s,
{
    lemma_c_comment_free_unchanged_from(s, 0);
    assert(s.subrange(0, s.len() as int) =~= s);
}

pub proof fn lemma_c_comment_free_unchanged_from(s: Seq<char>, i: int)
    requires
        0 <= i <= s.len(),
        c_comment_free_from(s, i),
    ensures
        c_strip_from(s, i) == s.subrange(i, s.len() as int),
    decreases s.len() - i,
{
    if i < s.len() {
        let (e, comment) = c_token(s, i);
        lemma_c_token_bounds(s, i);
        lemma_c_comment_free_unchanged_from(s, e);
        lemma_step_unchanged(s, i, e, c_strip_from(s, e));
    } else {
        assert(s.subrange(i, s.len() as int) =~= Seq::<char>::empty());
    }
}

/// The index just past the first `*/` at or after `k` (see `block_comment_end`).
pub fn skip_block_comment(s: &Vec<char>, k: usize) -> (r: usize)
    requires
        k <= s@.len(),
    ensures
        r == block_comment_end(s@, k as int),
{
    let n = s.len();
    let mut j: usize = k;
    while j < n
        invariant
            n == s@.len(),
            k <= j <= n,
            block_comment_end(s@, j as int) == block_comment_end(s@, k as int),
        decreases n - j,
    {
        if s[j] == '*' && j + 1 < n && s[j + 1] == '/' {
            return j + 2;
        }
        j += 1;
    }
    j
}

/// Reads the piece that starts at `i` (see `c_token`).
fn c_next_token(s: &Vec<char>, i: usize) -> (r: (usize, bool))
    requires
        i < s@.len(),
    ensures
        r.0 == c_token(s@, i as int).0,
        r.1 == c_token(s@, i as int).1,
{
    let n = s.len();
    if s[i] == '/' && i + 1 < n && s[i + 1] == '/' {
        (skip_line_comment(s, i + 2), true)
    } else if s[i] == '/' && i + 1 < n && s[i + 1] == '*' {
        (skip_block_comment(s, i + 2), true)
    } else if s[i] == '"' || s[i] == '\'' {
        (skip_quoted(s, i + 1, s[i]), false)
    } else {
        (i + 1, false)
    }
}

/// Removes the comments of C, C++, Java, C# and similar languages. Every `'\n'`
/// inside a removed comment stays, so lines keep their numbers; string and char
/// literals are copied unchanged.
pub fn remove_c_type_comments(input: &str) -> (r: String)
    ensures
        r@ == c_strip(input@),
{
    let s = chars_of(input);
    let mut out: Vec<char> = Vec::new();
    let mut i: usize = 0;
    while i < s.len()
        invariant
            i <= s@.len(),
            out@ + c_strip_from(s@, i as int) == c_strip(s@),
        decreases s@.len() - i,
    {
        let (e, comment) = c_next_token(&s, i);
        proof {
            lemma_c_token_bounds(s@, i as int);
        }
        let ghost before = out@;
        emit_token(&s, &mut out, i, e, comment);
        proof {
            assert(before + c_strip_from(s@, i as int) == out@ + c_strip_from(s@, e as int));
        }
        i = e;
    }
    string_of(&out)
}

/// A block comment whose text starts at `k` is closed by a `*/` within `s`.
pub open spec fn block_comment_closes(s: Seq<char>, k: int) -> bool
    decreases s.len() - k,
{
    if !(0 <= k < s.len()) {
        false
    } else if s[k] == '*' && k + 1 < s.len() && s[k + 1] == '/' {
        true
    } else {
        block_comment_closes(s, k + 1)
    }
}

/// The piece that starts at `i` is closed by its own terminator within `s`: a
/// line comment by a `'\n'`, a block comment by `*/`, a literal by its quote.
pub open spec fn c_token_closes(s: Seq<char>, i: int) -> bool {
    if s[i] == '/' && i + 1 < s.len() && s[i + 1] == '/' {
        line_end(s, i + 2) < s.len()
    } else if s[i] == '/' && i + 1 < s.len() && s[i + 1] == '*' {
        block_comment_closes(s, i + 2)
    } else if s[i] == '"' || s[i] == '\'' {
        quoted_closes(s, i + 1, s[i])
    } else {
        true
    }
}

/// Scanning `s` from `i` ends in code: every piece read is closed by its own
/// terminator, none is cut short by the end of the input.
pub open spec fn c_settles_from(s: Seq<char>, i: int) -> bool
    decreases s.len() - i,
{
    if 0 <= i < s.len() {
        proof {
            lemma_c_token_bounds(s, i);
        }
        c_token_closes(s, i) && c_settles_from(s, c_token(s, i).0)
    } else {
        true
    }
}

pub proof fn lemma_block_comment_end_extend(a: Seq<char>, r: Seq<char>, k: int)
    requires
        0 <= k,
        block_comment_closes(a, k),
    ensures
        block_comment_end(a + r, k) == block_comment_end(a, k),
    decreases a.len() - k,
{
    assert((a + r)[k] == a[k]);
    if k + 1 < a.len() {
        assert((a + r)[k + 1] == a[k + 1]);
    }
    if !(a[k] == '*' && k + 1 < a.len() && a[k + 1] == '/') {
        if k + 1 >= a.len() {
            assert(!block_comment_closes(a, k + 1));
        }
        lemma_block_comment_end_extend(a, r, k + 1);
    }
}

pub proof fn lemma_block_comment_end_shift(a: Seq<char>, b: Seq<char>, k: int)
    requires
        0 <= k <= b.len(),
    ensures
        block_comment_end(a + b, a.len() + k) == a.len() + block_comment_end(b, k),
    decreases b.len() - k,
{
    if k < b.len() {
        assert((a + b)[a.len() + k] == b[k]);
        if k + 1 < b.len() {
            assert((a + b)[a.len() + k + 1] == b[k + 1]);
        }
        if !(b[k] == '*' && k + 1 < b.len() && b[k + 1] == '/') {
            lemma_block_comment_end_shift(a, b, k + 1);
        }
    }
}

/// Reading `s` from `i` inside `a + r` gives the output of reading `a` from `i`,
/// then what `a + r` gives from the end of `a`, when `a` settles and `r` does not
/// open with `/` or `*`.
pub proof fn lemma_c_strip_prefix(a: Seq<char>, r: Seq<char>, i: int)
    requires
        0 <= i <= a.len(),
        c_settles_from(a, i),
        r.len() > 0 ==> r[0] != '/' && r[0] != '*',
    ensures
        c_strip_from(a + r, i) == c_strip_from(a, i) + c_strip_from(a + r, a.len() as int),
    decreases a.len() - i,
{
    let s = a + r;
    if i < a.len() {
        lemma_c_token_bounds(a, i);
        let (e, comment) = c_token(a, i);
        assert(s[i] == a[i]);
        if i + 1 < a.len() {
            assert(s[i + 1] == a[i + 1]);
        } else if r.len() > 0 {
            assert(s[i + 1] == r[0]);
        }
        if a[i] == '/' && i + 1 < a.len() && a[i + 1] == '/' {
            lemma_line_end_bounds(a, i + 2);
            lemma_line_end_extend(a, r, i + 2);
        } else if a[i] == '/' && i + 1 < a.len() && a[i + 1] == '*' {
            lemma_block_comment_end_extend(a, r, i + 2);
        } else if a[i] == '"' || a[i] == '\'' {
            lemma_quoted_end_extend(a, r, i + 1, a[i]);
        }
        assert(c_token(s, i) == c_token(a, i));
        lemma_c_token_bounds(s, i);
        lemma_c_strip_prefix(a, r, e);
        assert(s.subrange(i, e) =~= a.subrange(i, e));
        assert(token_output(s, i, e, comment) == token_output(a, i, e, comment));
        let piece = token_output(a, i, e, comment);
        let tail = c_strip_from(s, a.len() as int);
        assert(piece + (c_strip_from(a, e) + tail) =~= (piece + c_strip_from(a, e)) + tail);
    } else {
        let tail = c_strip_from(s, a.len() as int);
        assert(Seq::<char>::empty() + tail =~= tail);
    }
}

/// Reading `b` placed after `a`, from the end of `a` on, gives what reading `b`
/// alone gives.
pub proof fn lemma_c_strip_shift(a: Seq<char>, b: Seq<char>, k: int)
    requires
        0 <= k <= b.len(),
    ensures
        c_strip_from(a + b, a.len() + k) == c_strip_from(b, k),
    decreases b.len() - k,
{
    let s = a + b;
    let n = a.len() as int;
    if k < b.len() {
        lemma_c_token_bounds(b, k);
        let (e, comment) = c_token(b, k);
        assert(s[n + k] == b[k]);
        if k + 1 < b.len() {
            assert(s[n + k + 1] == b[k + 1]);
        }
        if b[k] == '/' && k + 1 < b.len() && b[k + 1] == '/' {
            lemma_line_end_shift(a, b, k + 2);
        } else if b[k] == '/' && k + 1 < b.len() && b[k + 1] == '*' {
            lemma_block_comment_end_shift(a, b, k + 2);
        } else if b[k] == '"' || b[k] == '\'' {
            lemma_quoted_end_shift(a, b, k + 1, b[k]);
        }
        assert(c_token(s, n + k) == (n + e, comment));
        lemma_c_token_bounds(s, n + k);
        lemma_c_strip_shift(a, b, e);
        assert(s.subrange(n + k, n + e) =~= b.subrange(k, e));
    }
}

/// A string or char literal put between two texts is copied whole and unchanged,
/// and each text is stripped as it would be alone: when scanning the first text
/// alone ends in code, the output is the first text's output, the literal, then
/// the second text's output.
pub proof fn lemma_c_literal_between(a: Seq<char>, x: Seq<char>, q: char, b: Seq<char>)
    requires
        c_settles_from(a, 0),
        q == '"' || q == '\'',
        escaped_text(x, q),
    ensures
        c_strip(a + (seq![q] + x + seq![q]) + b) == c_strip(a) + (seq![q] + x + seq![q])
            + c_strip(b),
{
    let lit = seq![q] + x + seq![q];
    let r = lit + b;
    assert(a + lit + b =~= a + r);
    assert(r[0] == q);
    lemma_c_strip_prefix(a, r, 0);
    lemma_c_strip_shift(a, r, 0);
    assert(r.subrange(1, 1 + x.len() as int) =~= x);
    assert(r[1 + x.len() as int] == q);
    lemma_quoted_end_of_text(r, 1, x, q);
    assert(c_token(r, 0) == (lit.len() as int, false));
    assert(r.subrange(0, lit.len() as int) =~= lit);
    lemma_c_strip_shift(lit, b, 0);
    assert(c_strip_from(r, 0) == lit + c_strip_from(r, lit.len() as int));
    assert(c_strip(a) + (lit + c_strip(b)) =~= c_strip(a) + lit + c_strip(b));
}

} // verus!
