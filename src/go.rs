//! The Go engine: C-style comments (ending at the first `*/`, no line
//! continuation), `"`/`'` literals with escapes, and backtick raw strings in
//! which a backslash is an ordinary char.
use vstd::prelude::*;
use crate::c_type::{
    block_comment_closes, block_comment_end, lemma_block_comment_end_bounds,
    lemma_block_comment_end_extend, lemma_block_comment_end_shift, skip_block_comment,
};
use crate::literal::{
    escaped_text, lemma_quoted_end_bounds, lemma_quoted_end_extend, lemma_quoted_end_of_text,
    lemma_quoted_end_shift, quoted_closes, quoted_end, skip_quoted,
};
use crate::text::{
    chars_of, emit_token, lemma_line_end_bounds, lemma_line_end_extend, lemma_line_end_shift,
    lemma_step_newlines, lemma_step_unchanged, lemma_token_output_newlines, line_comment_end,
    line_end, newline_count, skip_line_comment, string_of, token_output,
};

verus! {

/// The index just past the first backtick at or after `k`, or the end of the input.
pub open spec fn backtick_end(s: Seq<char>, k: int) -> int
    decreases s.len() - k,
{
    if k >= s.len() {
        s.len() as int
    } else if s[k] == '`' {
        k + 1
    } else {
        backtick_end(s, k + 1)
    }
}

/// The piece that starts at `i`, scanning Go code: its end, and whether it is a comment.
pub open spec fn go_token(s: Seq<char>, i: int) -> (int, bool) {
    if s[i] == '`' {
        (backtick_end(s, i + 1), false)
    } else if s[i] == '"' || s[i] == '\'' {
        (quoted_end(s, i + 1, s[i]), false)
    } else if s[i] == '/' && i + 1 < s.len() && s[i + 1] == '/' {
        (line_comment_end(s, i + 2), true)
    } else if s[i] == '/' && i + 1 < s.len() && s[i + 1] == '*' {
        (block_comment_end(s, i + 2), true)
    } else {
        (i + 1, false)
    }
}

/// The output of the Go engine for the input `s[i..]`, scanning from code.
pub open spec fn go_strip_from(s: Seq<char>, i: int) -> Seq<char>
    decreases s.len() - i,
{
    if 0 <= i < s.len() {
        let (e, comment) = go_token(s, i);
        proof {
            lemma_go_token_bounds(s, i);
        }
        token_output(s, i, e, comment) + go_strip_from(s, e)
    } else {
        Seq::empty()
    }
}

/// The output of the Go engine for the input `s`.
pub open spec fn go_strip(s: Seq<char>) -> Seq<char> {
    go_strip_from(s, 0)
}

/// No piece that the Go engine reads in `s[i..]` is a comment.
pub open spec fn go_comment_free_from(s: Seq<char>, i: int) -> bool
    decreases s.len() - i,
{
    if 0 <= i < s.len() {
        let (e, comment) = go_token(s, i);
        proof {
            lemma_go_token_bounds(s, i);
        }
        !comment && go_comment_free_from(s, e)
    } else {
        true
    }
}

pub proof fn lemma_backtick_end_bounds(s: Seq<char>, k: int)
    requires
        0 <= k <= s.len(),
    ensures
        k <= backtick_end(s, k) <= s.len(),
    decreases s.len() - k,
{
    if k < s.len() && s[k] != '`' {
        lemma_backtick_end_bounds(s, k + 1);
    }
}

pub proof fn lemma_go_token_bounds(s: Seq<char>, i: int)
    requires
        0 <= i < s.len(),
    ensures
        i < go_token(s, i).0 <= s.len(),
{
    if s[i] == '`' {
        lemma_backtick_end_bounds(s, i + 1);
    } else if s[i] == '"' || s[i] == '\'' {
        lemma_quoted_end_bounds(s, i + 1, s[i]);
    } else if s[i] == '/' && i + 1 < s.len() && s[i + 1] == '/' {
        lemma_line_end_bounds(s, i + 2);
    } else if s[i] == '/' && i + 1 < s.len() && s[i + 1] == '*' {
        lemma_block_comment_end_bounds(s, i + 2);
    }
}

/// The Go engine keeps every line: the output has as many `'\n'` as the input.
pub proof fn lemma_go_keeps_newlines(s: Seq<char>)
    ensures
        newline_count(go_strip(s)) == newline_count(s),
{
    lemma_go_keeps_newlines_from(s, 0);
    assert(s.subrange(0, s.len() as int) =~= s);
}

pub proof fn lemma_go_keeps_newlines_from(s: Seq<char>, i: int)
    requires
        0 <= i <= s.len(),
    ensures
        newline_count(go_strip_from(s, i)) == newline_count(s.subrange(i, s.len() as int)),
    decreases s.len() - i,
{
    if i < s.len() {
        let (e, comment) = go_token(s, i);
        lemma_go_token_bounds(s, i);
        lemma_go_keeps_newlines_from(s, e);
        lemma_token_output_newlines(s, i, e, comment);
        lemma_step_newlines(s, i, e, token_output(s, i, e, comment), go_strip_from(s, e));
    } else {
        assert(s.subrange(i, s.len() as int).len() == 0);
    }
}

/// Scanning `s` from `i` in code comes to stand at `k`, in code again.
pub open spec fn go_reaches(s: Seq<char>, i: int, k: int) -> bool
    decreases s.len() - i,
{
    if 0 <= i < s.len() && i < k {
        proof {
            lemma_go_token_bounds(s, i);
        }
        go_reaches(s, go_token(s, i).0, k)
    } else {
        i == k
    }
}

/// The output of the pieces read from `i` up to `k`.
pub open spec fn go_output_between(s: Seq<char>, i: int, k: int) -> Seq<char>
    decreases s.len() - i,
{
    if 0 <= i < s.len() && i < k {
        let (e, comment) = go_token(s, i);
        proof {
            lemma_go_token_bounds(s, i);
        }
        token_output(s, i, e, comment) + go_output_between(s, e, k)
    } else {
        Seq::empty()
    }
}

/// Where the scan comes to stand, the output splits: what was read before, then
/// the output of the rest.
pub proof fn lemma_go_output_splits(s: Seq<char>, i: int, k: int)
    requires
        0 <= i,
        go_reaches(s, i, k),
    ensures
        go_strip_from(s, i) == go_output_between(s, i, k) + go_strip_from(s, k),
    decreases s.len() - i,
{
    if 0 <= i < s.len() && i < k {
        let (e, comment) = go_token(s, i);
        lemma_go_token_bounds(s, i);
        lemma_go_output_splits(s, e, k);
        let piece = token_output(s, i, e, comment);
        let between = go_output_between(s, e, k);
        assert(piece + (between + go_strip_from(s, k)) =~= (piece + between) + go_strip_from(s, k));
    } else {
        assert(Seq::<char>::empty() + go_strip_from(s, k) =~= go_strip_from(s, k));
    }
}

/// A string, rune or raw-string literal that opens where the Go engine reads code
/// is copied whole and unchanged into the output, whatever comment markers it
/// holds; scanning goes on after its closing quote.
pub proof fn lemma_go_literal_unchanged(s: Seq<char>, k: int)
    requires
        go_reaches(s, 0, k),
        0 <= k < s.len(),
        s[k] == '"' || s[k] == '\'' || s[k] == '`',
    ensures
        ({
            let e = if s[k] == '`' {
                backtick_end(s, k + 1)
            } else {
                quoted_end(s, k + 1, s[k])
            };
            go_strip(s) == go_output_between(s, 0, k) + s.subrange(k, e) + go_strip_from(s, e)
        }),
{
    lemma_go_output_splits(s, 0, k);
    let e = go_token(s, k).0;
    assert(go_output_between(s, 0, k) + (s.subrange(k, e) + go_strip_from(s, e))
        =~= go_output_between(s, 0, k) + s.subrange(k, e) + go_strip_from(s, e));
}

/// Input in which the Go engine reads no comment comes out unchanged.
pub proof fn lemma_go_comment_free_unchanged(s: Seq<char>)
    requires
        go_comment_free_from(s, 0),
    ensures
        go_strip(s) == s,
{
    lemma_go_comment_free_unchanged_from(s, 0);
    assert(s.subrange(0, s.len() as int) =~= s);
}

pub proof fn lemma_go_comment_free_unchanged_from(s: Seq<char>, i: int)
    requires
        0 <= i <= s.len(),
        go_comment_free_from(s, i),
    ensures
        go_strip_from(s, i) == s.subrange(i, s.len() as int),
    decreases s.len() - i,
{
    if i < s.len() {
        let (e, comment) = go_token(s, i);
        lemma_go_token_bounds(s, i);
        lemma_go_comment_free_unchanged_from(s, e);
        lemma_step_unchanged(s, i, e, go_strip_from(s, e));
    } else {
        assert(s.subrange(i, s.len() as int) =~= Seq::<char>::empty());
    }
}

/// The index just past the first backtick at or after `k` (see `backtick_end`).
pub fn skip_backtick(s: &Vec<char>, k: usize) -> (r: usize)
    requires
        k <= s@.len(),
    ensures
        r == backtick_end(s@, k as int),
{
    let mut j: usize = k;
    while j < s.len()
        invariant
            k <= j <= s@.len(),
            backtick_end(s@, j as int) == backtick_end(s@, k as int),
        decreases s@.len() - j,
    {
        if s[j] == '`' {
            return j + 1;
        }
        j += 1;
    }
    j
}

/// Reads the piece that starts at `i` (see `go_token`).
fn go_next_token(s: &Vec<char>, i: usize) -> (r: (usize, bool))
    requires
        i < s@.len(),
    ensures
        r.0 == go_token(s@, i as int).0,
        r.1 == go_token(s@, i as int).1,
{
    let n = s.len();
    if s[i] == '`' {
        (skip_backtick(s, i + 1), false)
    } else if s[i] == '"' || s[i] == '\'' {
        (skip_quoted(s, i + 1, s[i]), false)
    } else if s[i] == '/' && i + 1 < n && s[i + 1] == '/' {
        (skip_line_comment(s, i + 2), true)
    } else if s[i] == '/' && i + 1 < n && s[i + 1] == '*' {
        (skip_block_comment(s, i + 2), true)
    } else {
        (i + 1, false)
    }
}

/// Removes the comments of Go source. Every `'\n'` inside a removed comment
/// stays; string, rune and raw-string literals are copied unchanged.
pub fn remove_go_comments(input: &str) -> (r: String)
    ensures
        r@ == go_strip(input@),
{
    let s = chars_of(input);
    let mut out: Vec<char> = Vec::new();
    let mut i: usize = 0;
    while i < s.len()
        invariant
            i <= s@.len(),
            out@ + go_strip_from(s@, i as int) == go_strip(s@),
        decreases s@.len() - i,
    {
        let (e, comment) = go_next_token(&s, i);
        proof {
            lemma_go_token_bounds(s@, i as int);
        }
        let ghost before = out@;
        emit_token(&s, &mut out, i, e, comment);
        proof {
            assert(before + go_strip_from(s@, i as int) == out@ + go_strip_from(s@, e as int));
        }
        i = e;
    }
    string_of(&out)
}

/// A raw string whose contents start at `k` is closed by a backtick within `s`.
pub open spec fn backtick_closes(s: Seq<char>, k: int) -> bool
    decreases s.len() - k,
{
    if !(0 <= k < s.len()) {
        false
    } else if s[k] == '`' {
        true
    } else {
        backtick_closes(s, k + 1)
    }
}

/// The piece that starts at `i` is closed by its own terminator within `s`.
pub open spec fn go_token_closes(s: Seq<char>, i: int) -> bool {
    if s[i] == '`' {
        backtick_closes(s, i + 1)
    } else if s[i] == '"' || s[i] == '\'' {
        quoted_closes(s, i + 1, s[i])
    } else if s[i] == '/' && i + 1 < s.len() && s[i + 1] == '/' {
        line_end(s, i + 2) < s.len()
    } else if s[i] == '/' && i + 1 < s.len() && s[i + 1] == '*' {
        block_comment_closes(s, i + 2)
    } else {
        true
    }
}

/// Scanning `s` from `i` ends in code: every piece read is closed by its own
/// terminator, none is cut short by the end of the input.
pub open spec fn go_settles_from(s: Seq<char>, i: int) -> bool
    decreases s.len() - i,
{
    if 0 <= i < s.len() {
        proof {
            lemma_go_token_bounds(s, i);
        }
        go_token_closes(s, i) && go_settles_from(s, go_token(s, i).0)
    } else {
        true
    }
}

pub proof fn lemma_backtick_end_extend(a: Seq<char>, r: Seq<char>, k: int)
    requires
        0 <= k,
        backtick_closes(a, k),
    ensures
        backtick_end(a + r, k) == backtick_end(a, k),
    decreases a.len() - k,
{
    assert((a + r)[k] == a[k]);
    if a[k] != '`' {
        lemma_backtick_end_extend(a, r, k + 1);
    }
}

pub proof fn lemma_backtick_end_shift(a: Seq<char>, b: Seq<char>, k: int)
    requires
        0 <= k <= b.len(),
    ensures
        backtick_end(a + b, a.len() + k) == a.len() + backtick_end(b, k),
    decreases b.len() - k,
{
    if k < b.len() {
        assert((a + b)[a.len() + k] == b[k]);
        if b[k] != '`' {
            lemma_backtick_end_shift(a, b, k + 1);
        }
    }
}

/// Reading `s` from `i` inside `a + r` gives the output of reading `a` from `i`,
/// then what `a + r` gives from the end of `a`, when `a` settles and `r` does not
/// open with `/` or `*`.
pub proof fn lemma_go_strip_prefix(a: Seq<char>, r: Seq<char>, i: int)
    requires
        0 <= i <= a.len(),
        go_settles_from(a, i),
        r.len() > 0 ==> r[0] != '/' && r[0] != '*',
    ensures
        go_strip_from(a + r, i) == go_strip_from(a, i) + go_strip_from(a + r, a.len() as int),
    decreases a.len() - i,
{
    let s = a + r;
    if i < a.len() {
        lemma_go_token_bounds(a, i);
        let (e, comment) = go_token(a, i);
        assert(s[i] == a[i]);
        if i + 1 < a.len() {
            assert(s[i + 1] == a[i + 1]);
        } else if r.len() > 0 {
            assert(s[i + 1] == r[0]);
        }
        if a[i] == '`' {
            lemma_backtick_end_extend(a, r, i + 1);
        } else if a[i] == '/' && i + 1 < a.len() && a[i + 1] == '/' {
            lemma_line_end_bounds(a, i + 2);
            lemma_line_end_extend(a, r, i + 2);
        } else if a[i] == '/' && i + 1 < a.len() && a[i + 1] == '*' {
            lemma_block_comment_end_extend(a, r, i + 2);
        } else if a[i] == '"' || a[i] == '\'' {
            lemma_quoted_end_extend(a, r, i + 1, a[i]);
        }
        assert(go_token(s, i) == go_token(a, i));
        lemma_go_token_bounds(s, i);
        lemma_go_strip_prefix(a, r, e);
        assert(s.subrange(i, e) =~= a.subrange(i, e));
        assert(token_output(s, i, e, comment) == token_output(a, i, e, comment));
        let piece = token_output(a, i, e, comment);
        let tail = go_strip_from(s, a.len() as int);
        assert(piece + (go_strip_from(a, e) + tail) =~= (piece + go_strip_from(a, e)) + tail);
    } else {
        let tail = go_strip_from(s, a.len() as int);
        assert(Seq::<char>::empty() + tail =~= tail);
    }
}

/// Reading `b` placed after `a`, from the end of `a` on, gives what reading `b`
/// alone gives.
pub proof fn lemma_go_strip_shift(a: Seq<char>, b: Seq<char>, k: int)
    requires
        0 <= k <= b.len(),
    ensures
        go_strip_from(a + b, a.len() + k) == go_strip_from(b, k),
    decreases b.len() - k,
{
    let s = a + b;
    let n = a.len() as int;
    if k < b.len() {
        lemma_go_token_bounds(b, k);
        let (e, comment) = go_token(b, k);
        assert(s[n + k] == b[k]);
        if k + 1 < b.len() {
            assert(s[n + k + 1] == b[k + 1]);
        }
        if b[k] == '`' {
            lemma_backtick_end_shift(a, b, k + 1);
        } else if b[k] == '/' && k + 1 < b.len() && b[k + 1] == '/' {
            lemma_line_end_shift(a, b, k + 2);
        } else if b[k] == '/' && k + 1 < b.len() && b[k + 1] == '*' {
            lemma_block_comment_end_shift(a, b, k + 2);
        } else if b[k] == '"' || b[k] == '\'' {
            lemma_quoted_end_shift(a, b, k + 1, b[k]);
        }
        assert(go_token(s, n + k) == (n + e, comment));
        lemma_go_token_bounds(s, n + k);
        lemma_go_strip_shift(a, b, e);
        assert(s.subrange(n + k, n + e) =~= b.subrange(k, e));
    }
}

/// A literal put between two texts is copied whole and unchanged, and each text
/// is stripped as it would be alone: when scanning the first text alone ends in
/// code, the output is the first text's output, the literal, then the second
/// text's output. The literal is a string or rune whose contents are escaped
/// text, or a raw string whose contents hold no backtick.
pub proof fn lemma_go_literal_between(a: Seq<char>, x: Seq<char>, q: char, b: Seq<char>)
    requires
        go_settles_from(a, 0),
        q == '"' || q == '\'' || q == '`',
        q == '`' ==> !x.contains('`'),
        q != '`' ==> escaped_text(x, q),
    ensures
        go_strip(a + (seq![q] + x + seq![q]) + b) == go_strip(a) + (seq![q] + x + seq![q])
            + go_strip(b),
{
    let lit = seq![q] + x + seq![q];
    let r = lit + b;
    assert(a + lit + b =~= a + r);
    assert(r[0] == q);
    lemma_go_strip_prefix(a, r, 0);
    lemma_go_strip_shift(a, r, 0);
    assert(r.subrange(1, 1 + x.len() as int) =~= x);
    assert(r[1 + x.len() as int] == q);
    if q == '`' {
        lemma_backtick_end_of_text(r, 1, x);
    } else {
        lemma_quoted_end_of_text(r, 1, x, q);
    }
    assert(go_token(r, 0) == (lit.len() as int, false));
    assert(r.subrange(0, lit.len() as int) =~= lit);
    lemma_go_strip_shift(lit, b, 0);
    assert(go_strip_from(r, 0) == lit + go_strip_from(r, lit.len() as int));
    assert(go_strip(a) + (lit + go_strip(b)) =~= go_strip(a) + lit + go_strip(b));
}

/// A raw string whose contents `x` hold no backtick ends just past the backtick
/// after them.
pub proof fn lemma_backtick_end_of_text(s: Seq<char>, k: int, x: Seq<char>)
    requires
        0 <= k,
        k + x.len() < s.len(),
        s.subrange(k, k + x.len()) == x,
        s[k + x.len()] == '`',
        !x.contains('`'),
    ensures
        backtick_end(s, k) == k + x.len() + 1,
    decreases x.len(),
{
    if x.len() > 0 {
        assert(s[k] == x[0]);
        assert(s.subrange(k + 1, k + x.len()) =~= x.skip(1));
        if x.skip(1).contains('`') {
            let j = choose|j: int| 0 <= j < x.skip(1).len() && x.skip(1)[j] == '`';
            assert(x[j + 1] == '`');
        }
        lemma_backtick_end_of_text(s, k + 1, x.skip(1));
    }
}

} // verus!
