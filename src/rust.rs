//! The Rust engine: line comments, block comments that nest, string and char
//! literals, byte literals (`b"…"`, `b'…'`), and raw strings (`r"…"`,
//! `r#"…"#`, `br##"…"##`, …) closed by a quote and exactly as many `#` as opened them.
use vstd::prelude::*;
use crate::literal::{
    lemma_quoted_end_bounds, lemma_quoted_end_extend, lemma_quoted_end_shift, quoted_closes,
    quoted_end, skip_quoted,
};
use crate::text::{
    chars_of, emit_token, lemma_line_end_bounds, lemma_line_end_extend, lemma_line_end_shift,
    line_end, lemma_step_newlines, lemma_step_unchanged,
    lemma_token_output_newlines, line_comment_end, newline_count, skip_line_comment, string_of,
    token_output,
};

verus! {

/// The index of the first char at or after `k` that is not `#`, or the end of the input.
pub open spec fn hash_run_end(s: Seq<char>, k: int) -> int
    decreases s.len() - k,
{
    if k >= s.len() {
        s.len() as int
    } else if s[k] == '#' {
        hash_run_end(s, k + 1)
    } else {
        k
    }
}

/// A raw string opened with `h` hashes closes at `k`: a quote followed by exactly
/// `h` hashes (and no further one).
pub open spec fn raw_closes_at(s: Seq<char>, k: int, h: int) -> bool {
    s[k] == '"' && hash_run_end(s, k + 1) == k + 1 + h
}

/// The index just past the terminator of a raw string opened with `h` hashes
/// whose contents start at `k`, or the end of the input.
pub open spec fn raw_body_end(s: Seq<char>, k: int, h: int) -> int
    decreases s.len() - k,
{
    if k >= s.len() {
        s.len() as int
    } else if raw_closes_at(s, k, h) {
        k + 1 + h
    } else {
        raw_body_end(s, k + 1, h)
    }
}

/// The index just past a raw string whose hashes start at `k` (just after the `r`).
/// Without an opening quote after the hashes, only the hashes are taken.
pub open spec fn raw_string_end(s: Seq<char>, k: int) -> int {
    let q = hash_run_end(s, k);
    if q < s.len() && s[q] == '"' {
        raw_body_end(s, q + 1, q - k)
    } else {
        q
    }
}

/// The index just past a block comment whose text starts at `k`, inside `depth`
/// open comments: each `/*` opens one more level, each `*/` closes one, and the
/// comment ends when the last level closes (or at the end of the input).
pub open spec fn nested_comment_end(s: Seq<char>, k: int, depth: int) -> int
    decreases s.len() - k,
{
    if k >= s.len() {
        s.len() as int
    } else if s[k] == '/' && k + 1 < s.len() && s[k + 1] == '*' {
        nested_comment_end(s, k + 2, depth + 1)
    } else if s[k] == '*' && k + 1 < s.len() && s[k + 1] == '/' {
        if depth <= 1 {
            k + 2
        } else {
            nested_comment_end(s, k + 2, depth - 1)
        }
    } else {
        nested_comment_end(s, k + 1, depth)
    }
}

/// A literal of the Rust engine opens at `k`: a quote, a raw string (`r"` or `r#`),
/// or a byte literal (`b"`, `b'`, `br`).
pub open spec fn rust_literal_opens(s: Seq<char>, k: int) -> bool {
    ||| s[k] == '"'
    ||| s[k] == '\''
    ||| (s[k] == 'b' && k + 1 < s.len() && (s[k + 1] == '"' || s[k + 1] == '\'' || s[k + 1]
        == 'r'))
    ||| (s[k] == 'r' && k + 1 < s.len() && (s[k + 1] == '"' || s[k + 1] == '#'))
}

/// The index just past the literal that opens at `k`.
pub open spec fn rust_literal_end(s: Seq<char>, k: int) -> int {
    if s[k] == 'b' && k + 1 < s.len() && (s[k + 1] == '"' || s[k + 1] == '\'') {
        quoted_end(s, k + 2, s[k + 1])
    } else if s[k] == 'b' && k + 1 < s.len() && s[k + 1] == 'r' {
        raw_string_end(s, k + 2)
    } else if s[k] == 'r' {
        raw_string_end(s, k + 1)
    } else {
        quoted_end(s, k + 1, s[k])
    }
}

/// The piece that starts at `i`, scanning Rust code: its end, and whether it is a comment.
pub open spec fn rust_token(s: Seq<char>, i: int) -> (int, bool) {
    if rust_literal_opens(s, i) {
        (rust_literal_end(s, i), false)
    } else if s[i] == '/' && i + 1 < s.len() && s[i + 1] == '/' {
        (line_comment_end(s, i + 2), true)
    } else if s[i] == '/' && i + 1 < s.len() && s[i + 1] == '*' {
        (nested_comment_end(s, i + 2, 1), true)
    } else {
        (i + 1, false)
    }
}

/// The output of the Rust engine for the input `s[i..]`, scanning from code.
pub open spec fn rust_strip_from(s: Seq<char>, i: int) -> Seq<char>
    decreases s.len() - i,
{
    if 0 <= i < s.len() {
        let (e, comment) = rust_token(s, i);
        proof {
            lemma_rust_token_bounds(s, i);
        }
        token_output(s, i, e, comment) + rust_strip_from(s, e)
    } else {
        Seq::empty()
    }
}

/// The output of the Rust engine for the input `s`.
pub open spec fn rust_strip(s: Seq<char>) -> Seq<char> {
    rust_strip_from(s, 0)
}

/// No piece that the Rust engine reads in `s[i..]` is a comment.
pub open spec fn rust_comment_free_from(s: Seq<char>, i: int) -> bool
    decreases s.len() - i,
{
    if 0 <= i < s.len() {
        let (e, comment) = rust_token(s, i);
        proof {
            lemma_rust_token_bounds(s, i);
        }
        !comment && rust_comment_free_from(s, e)
    } else {
        true
    }
}

pub proof fn lemma_hash_run_end_bounds(s: Seq<char>, k: int)
    requires
        0 <= k <= s.len(),
    ensures
        k <= hash_run_end(s, k) <= s.len(),
    decreases s.len() - k,
{
    if k < s.len() && s[k] == '#' {
        lemma_hash_run_end_bounds(s, k + 1);
    }
}

pub proof fn lemma_raw_body_end_bounds(s: Seq<char>, k: int, h: int)
    requires
        0 <= k <= s.len(),
    ensures
        k <= raw_body_end(s, k, h) <= s.len(),
    decreases s.len() - k,
{
    if k < s.len() {
        if raw_closes_at(s, k, h) {
            lemma_hash_run_end_bounds(s, k + 1);
        } else {
            lemma_raw_body_end_bounds(s, k + 1, h);
        }
    }
}

pub proof fn lemma_raw_string_end_bounds(s: Seq<char>, k: int)
    requires
        0 <= k <= s.len(),
    ensures
        k <= raw_string_end(s, k) <= s.len(),
{
    lemma_hash_run_end_bounds(s, k);
    let q = hash_run_end(s, k);
    if q < s.len() && s[q] == '"' {
        lemma_raw_body_end_bounds(s, q + 1, q - k);
    }
}

pub proof fn lemma_nested_comment_end_bounds(s: Seq<char>, k: int, depth: int)
    requires
        0 <= k <= s.len(),
    ensures
        k <= nested_comment_end(s, k, depth) <= s.len(),
    decreases s.len() - k,
{
    if k < s.len() {
        if s[k] == '/' && k + 1 < s.len() && s[k + 1] == '*' {
            lemma_nested_comment_end_bounds(s, k + 2, depth + 1);
        } else if s[k] == '*' && k + 1 < s.len() && s[k + 1] == '/' {
            if depth > 1 {
                lemma_nested_comment_end_bounds(s, k + 2, depth - 1);
            }
        } else {
            lemma_nested_comment_end_bounds(s, k + 1, depth);
        }
    }
}

pub proof fn lemma_rust_token_bounds(s: Seq<char>, i: int)
    requires
        0 <= i < s.len(),
    ensures
        i < rust_token(s, i).0 <= s.len(),
{
    if rust_literal_opens(s, i) {
        if s[i] == 'b' && i + 1 < s.len() && (s[i + 1] == '"' || s[i + 1] == '\'') {
            lemma_quoted_end_bounds(s, i + 2, s[i + 1]);
        } else if s[i] == 'b' && i + 1 < s.len() && s[i + 1] == 'r' {
            lemma_raw_string_end_bounds(s, i + 2);
        } else if s[i] == 'r' {
            lemma_raw_string_end_bounds(s, i + 1);
        } else {
            lemma_quoted_end_bounds(s, i + 1, s[i]);
        }
    } else if s[i] == '/' && i + 1 < s.len() && s[i + 1] == '/' {
        lemma_line_end_bounds(s, i + 2);
    } else if s[i] == '/' && i + 1 < s.len() && s[i + 1] == '*' {
        lemma_nested_comment_end_bounds(s, i + 2, 1);
    }
}

/// The Rust engine keeps every line: the output has as many `'\n'` as the input.
pub proof fn lemma_rust_keeps_newlines(s: Seq<char>)
    ensures
        newline_count(rust_strip(s)) == newline_count(s),
{
    lemma_rust_keeps_newlines_from(s, 0);
    assert(s.subrange(0, s.len() as int) =~= s);
}

pub proof fn lemma_rust_keeps_newlines_from(s: Seq<char>, i: int)
    requires
        0 <= i <= s.len(),
    ensures
        newline_count(rust_strip_from(s, i)) == newline_count(s.subrange(i, s.len() as int)),
    decreases s.len() - i,
{
    if i < s.len() {
        let (e, comment) = rust_token(s, i);
        lemma_rust_token_bounds(s, i);
        lemma_rust_keeps_newlines_from(s, e);
        lemma_token_output_newlines(s, i, e, comment);
        lemma_step_newlines(s, i, e, token_output(s, i, e, comment), rust_strip_from(s, e));
    } else {
        assert(s.subrange(i, s.len() as int).len() == 0);
    }
}

/// Scanning `s` from `i` in code comes to stand at `k`, in code again.
pub open spec fn rust_reaches(s: Seq<char>, i: int, k: int) -> bool
    decreases s.len() - i,
{
    if 0 <= i < s.len() && i < k {
        proof {
            lemma_rust_token_bounds(s, i);
        }
        rust_reaches(s, rust_token(s, i).0, k)
    } else {
        i == k
    }
}

/// The output of the pieces read from `i` up to `k`.
pub open spec fn rust_output_between(s: Seq<char>, i: int, k: int) -> Seq<char>
    decreases s.len() - i,
{
    if 0 <= i < s.len() && i < k {
        let (e, comment) = rust_token(s, i);
        proof {
            lemma_rust_token_bounds(s, i);
        }
        token_output(s, i, e, comment) + rust_output_between(s, e, k)
    } else {
        Seq::empty()
    }
}

/// Where the scan comes to stand, the output splits: what was read before, then
/// the output of the rest.
pub proof fn lemma_rust_output_splits(s: Seq<char>, i: int, k: int)
    requires
        0 <= i,
        rust_reaches(s, i, k),
    ensures
        rust_strip_from(s, i) == rust_output_between(s, i, k) + rust_strip_from(s, k),
    decreases s.len() - i,
{
    if 0 <= i < s.len() && i < k {
        let (e, comment) = rust_token(s, i);
        lemma_rust_token_bounds(s, i);
        lemma_rust_output_splits(s, e, k);
        assert(token_output(s, i, e, comment) + (rust_output_between(s, e, k) + rust_strip_from(s, k))
            =~= (token_output(s, i, e, comment) + rust_output_between(s, e, k)) + rust_strip_from(s, k));
    } else {
        assert(Seq::<char>::empty() + rust_strip_from(s, k) =~= rust_strip_from(s, k));
    }
}

/// A string, char, byte or raw-string literal that opens where the Rust engine
/// reads code is copied whole and unchanged into the output, whatever comment
/// markers it holds; scanning goes on after its terminator.
pub proof fn lemma_rust_literal_unchanged(s: Seq<char>, k: int)
    requires
        rust_reaches(s, 0, k),
        0 <= k < s.len(),
        rust_literal_opens(s, k),
    ensures
        ({
            let e = rust_literal_end(s, k);
            rust_strip(s) == rust_output_between(s, 0, k) + s.subrange(k, e) + rust_strip_from(s, e)
        }),
{
    lemma_rust_output_splits(s, 0, k);
    let e = rust_token(s, k).0;
    assert(rust_output_between(s, 0, k) + (s.subrange(k, e) + rust_strip_from(s, e))
        =~= rust_output_between(s, 0, k) + s.subrange(k, e) + rust_strip_from(s, e));
}

/// Input in which the Rust engine reads no comment comes out unchanged.
pub proof fn lemma_rust_comment_free_unchanged(s: Seq<char>)
    requires
        rust_comment_free_from(s, 0),
    ensures
        rust_strip(s) == s,
{
    lemma_rust_comment_free_unchanged_from(s, 0);
    assert(s.subrange(0, s.len() as int) =~= s);
}

pub proof fn lemma_rust_comment_free_unchanged_from(s: Seq<char>, i: int)
    requires
        0 <= i <= s.len(),
        rust_comment_free_from(s, i),
    ensures
        rust_strip_from(s, i) == s.subrange(i, s.len() as int),
    decreases s.len() - i,
{
    if i < s.len() {
        let (e, comment) = rust_token(s, i);
        lemma_rust_token_bounds(s, i);
        lemma_rust_comment_free_unchanged_from(s, e);
        lemma_step_unchanged(s, i, e, rust_strip_from(s, e));
    } else {
        assert(s.subrange(i, s.len() as int) =~= Seq::<char>::empty());
    }
}

/// The index of the first char at or after `k` that is not `#` (see `hash_run_end`).
fn skip_hashes(s: &Vec<char>, k: usize) -> (r: usize)
    requires
        k <= s@.len(),
    ensures
        r == hash_run_end(s@, k as int),
        k <= r <= s@.len(),
{
    let mut j: usize = k;
    while j < s.len() && s[j] == '#'
        invariant
            k <= j <= s@.len(),
            hash_run_end(s@, j as int) == hash_run_end(s@, k as int),
        decreases s@.len() - j,
    {
        j += 1;
    }
    j
}

/// The index just past a raw string whose hashes start at `k` (see `raw_string_end`).
fn skip_raw_string(s: &Vec<char>, k: usize) -> (r: usize)
    requires
        k <= s@.len(),
    ensures
        r == raw_string_end(s@, k as int),
{
    let q = skip_hashes(s, k);
    if q >= s.len() || s[q] != '"' {
        return q;
    }
    let h = q - k;
    let mut j: usize = q + 1;
    while j < s.len()
        invariant
            q < j <= s@.len(),
            h == q - k,
            raw_string_end(s@, k as int) == raw_body_end(s@, q + 1, h as int),
            raw_body_end(s@, j as int, h as int) == raw_body_end(s@, q + 1, h as int),
        decreases s@.len() - j,
    {
        if s[j] == '"' {
            let m = skip_hashes(s, j + 1);
            if m - (j + 1) == h {
                return m;
            }
        }
        j += 1;
    }
    j
}

/// The index just past a block comment whose text starts at `k`, one level deep
/// (see `nested_comment_end`).
fn skip_nested_comment(s: &Vec<char>, k: usize) -> (r: usize)
    requires
        2 <= k <= s@.len(),
    ensures
        r == nested_comment_end(s@, k as int, 1),
{
    let n = s.len();
    let mut depth: usize = 1;
    let mut j: usize = k;
    while j < n
        invariant
            n == s@.len(),
            k <= j <= n,
            1 <= depth <= j,
            nested_comment_end(s@, j as int, depth as int) == nested_comment_end(s@, k as int, 1),
        decreases n - j,
    {
        if s[j] == '/' && j + 1 < n && s[j + 1] == '*' {
            depth += 1;
            j += 2;
        } else if s[j] == '*' && j + 1 < n && s[j + 1] == '/' {
            if depth <= 1 {
                return j + 2;
            }
            depth -= 1;
            j += 2;
        } else {
            j += 1;
        }
    }
    j
}

/// Reads the piece that starts at `i` (see `rust_token`).
fn rust_next_token(s: &Vec<char>, i: usize) -> (r: (usize, bool))
    requires
        i < s@.len(),
    ensures
        r.0 == rust_token(s@, i as int).0,
        r.1 == rust_token(s@, i as int).1,
{
    let n = s.len();
    if s[i] == 'b' && i + 1 < n && (s[i + 1] == '"' || s[i + 1] == '\'') {
        (skip_quoted(s, i + 2, s[i + 1]), false)
    } else if s[i] == 'b' && i + 1 < n && s[i + 1] == 'r' {
        (skip_raw_string(s, i + 2), false)
    } else if s[i] == 'r' && i + 1 < n && (s[i + 1] == '"' || s[i + 1] == '#') {
        (skip_raw_string(s, i + 1), false)
    } else if s[i] == '"' || s[i] == '\'' {
        (skip_quoted(s, i + 1, s[i]), false)
    } else if s[i] == '/' && i + 1 < n && s[i + 1] == '/' {
        (skip_line_comment(s, i + 2), true)
    } else if s[i] == '/' && i + 1 < n && s[i + 1] == '*' {
        (skip_nested_comment(s, i + 2), true)
    } else {
        (i + 1, false)
    }
}

/// Removes the comments of Rust source, nested block comments as one unit. Every
/// `'\n'` inside a removed comment stays; string, char, byte and raw-string
/// literals are copied unchanged.
pub fn remove_rust_comments(input: &str) -> (r: String)
    ensures
        r@ == rust_strip(input@),
{
    let s = chars_of(input);
    let mut out: Vec<char> = Vec::new();
    let mut i: usize = 0;
    while i < s.len()
        invariant
            i <= s@.len(),
            out@ + rust_strip_from(s@, i as int) == rust_strip(s@),
        decreases s@.len() - i,
    {
        let (e, comment) = rust_next_token(&s, i);
        proof {
            lemma_rust_token_bounds(s@, i as int);
        }
        let ghost before = out@;
        emit_token(&s, &mut out, i, e, comment);
        proof {
            assert(before + rust_strip_from(s@, i as int) == out@ + rust_strip_from(s@, e as int));
        }
        i = e;
    }
    string_of(&out)
}

/// A block comment whose text starts at `k`, `depth` levels deep, is closed within `s`.
pub open spec fn nested_comment_closes(s: Seq<char>, k: int, depth: int) -> bool
    decreases s.len() - k,
{
    if !(0 <= k < s.len()) {
        false
    } else if s[k] == '/' && k + 1 < s.len() && s[k + 1] == '*' {
        nested_comment_closes(s, k + 2, depth + 1)
    } else if s[k] == '*' && k + 1 < s.len() && s[k + 1] == '/' {
        if depth <= 1 {
            true
        } else {
            nested_comment_closes(s, k + 2, depth - 1)
        }
    } else {
        nested_comment_closes(s, k + 1, depth)
    }
}

/// A raw string opened with `h` hashes, whose contents start at `k`, is closed
/// within `s`.
pub open spec fn raw_body_closes(s: Seq<char>, k: int, h: int) -> bool
    decreases s.len() - k,
{
    if !(0 <= k < s.len()) {
        false
    } else if raw_closes_at(s, k, h) {
        true
    } else {
        raw_body_closes(s, k + 1, h)
    }
}

/// The raw string whose hashes start at `k` ends within `s`: the char after the
/// hashes is in `s`, and if it opens the string, its terminator is in `s` too.
pub open spec fn raw_string_closes(s: Seq<char>, k: int) -> bool {
    let q = hash_run_end(s, k);
    q < s.len() && (s[q] != '"' || raw_body_closes(s, q + 1, q - k))
}

/// The piece that starts at `i` is closed by its own terminator within `s`.
pub open spec fn rust_token_closes(s: Seq<char>, i: int) -> bool {
    if s[i] == 'b' && i + 1 < s.len() && (s[i + 1] == '"' || s[i + 1] == '\'') {
        quoted_closes(s, i + 2, s[i + 1])
    } else if s[i] == 'b' && i + 1 < s.len() && s[i + 1] == 'r' {
        raw_string_closes(s, i + 2)
    } else if s[i] == 'r' && i + 1 < s.len() && (s[i + 1] == '"' || s[i + 1] == '#') {
        raw_string_closes(s, i + 1)
    } else if s[i] == '"' || s[i] == '\'' {
        quoted_closes(s, i + 1, s[i])
    } else if s[i] == '/' && i + 1 < s.len() && s[i + 1] == '/' {
        line_end(s, i + 2) < s.len()
    } else if s[i] == '/' && i + 1 < s.len() && s[i + 1] == '*' {
        nested_comment_closes(s, i + 2, 1)
    } else {
        true
    }
}

/// Scanning `s` from `i` ends in code: every piece read is closed by its own
/// terminator, none is cut short by the end of the input.
pub open spec fn rust_settles_from(s: Seq<char>, i: int) -> bool
    decreases s.len() - i,
{
    if 0 <= i < s.len() {
        proof {
            lemma_rust_token_bounds(s, i);
        }
        rust_token_closes(s, i) && rust_settles_from(s, rust_token(s, i).0)
    } else {
        true
    }
}

/// The char `d` written right after `c` would make one piece with it: `b"`, `b'`,
/// `br`, `r"`, `r#`, `//` or `/*`.
pub open spec fn rust_joins(c: char, d: char) -> bool {
    ||| (c == 'b' && (d == '"' || d == '\'' || d == 'r'))
    ||| (c == 'r' && (d == '"' || d == '#'))
    ||| (c == '/' && (d == '/' || d == '*'))
}

/// `h` hashes.
pub open spec fn hashes(h: nat) -> Seq<char> {
    Seq::new(h, |j: int| '#')
}

/// The raw string `r##"x"##` with `h` hashes on each side.
pub open spec fn raw_literal(h: nat, x: Seq<char>) -> Seq<char> {
    seq!['r'] + hashes(h) + seq!['"'] + x + seq!['"'] + hashes(h)
}

pub proof fn lemma_hash_run_end_extend(a: Seq<char>, r: Seq<char>, k: int)
    requires
        0 <= k <= a.len(),
        r.len() > 0 ==> r[0] != '#',
    ensures
        hash_run_end(a + r, k) == hash_run_end(a, k),
    decreases a.len() - k,
{
    if k < a.len() {
        assert((a + r)[k] == a[k]);
        if a[k] == '#' {
            lemma_hash_run_end_extend(a, r, k + 1);
        }
    } else if r.len() > 0 {
        assert((a + r)[k] == r[0]);
    }
}

pub proof fn lemma_hash_run_end_shift(a: Seq<char>, b: Seq<char>, k: int)
    requires
        0 <= k <= b.len(),
    ensures
        hash_run_end(a + b, a.len() + k) == a.len() + hash_run_end(b, k),
    decreases b.len() - k,
{
    if k < b.len() {
        assert((a + b)[a.len() + k] == b[k]);
        if b[k] == '#' {
            lemma_hash_run_end_shift(a, b, k + 1);
        }
    }
}

pub proof fn lemma_raw_body_end_extend(a: Seq<char>, r: Seq<char>, k: int, h: int)
    requires
        0 <= k,
        raw_body_closes(a, k, h),
        r.len() > 0 ==> r[0] != '#',
    ensures
        raw_body_end(a + r, k, h) == raw_body_end(a, k, h),
    decreases a.len() - k,
{
    assert((a + r)[k] == a[k]);
    lemma_hash_run_end_extend(a, r, k + 1);
    if !raw_closes_at(a, k, h) {
        lemma_raw_body_end_extend(a, r, k + 1, h);
    }
}

pub proof fn lemma_raw_body_end_shift(a: Seq<char>, b: Seq<char>, k: int, h: int)
    requires
        0 <= k <= b.len(),
    ensures
        raw_body_end(a + b, a.len() + k, h) == a.len() + raw_body_end(b, k, h),
    decreases b.len() - k,
{
    if k < b.len() {
        assert((a + b)[a.len() + k] == b[k]);
        lemma_hash_run_end_shift(a, b, k + 1);
        if !raw_closes_at(b, k, h) {
            lemma_raw_body_end_shift(a, b, k + 1, h);
        }
    }
}

pub proof fn lemma_raw_string_end_extend(a: Seq<char>, r: Seq<char>, k: int)
    requires
        0 <= k <= a.len(),
        raw_string_closes(a, k),
        r.len() > 0 ==> r[0] != '#',
    ensures
        raw_string_end(a + r, k) == raw_string_end(a, k),
{
    lemma_hash_run_end_extend(a, r, k);
    lemma_hash_run_end_bounds(a, k);
    let q = hash_run_end(a, k);
    assert((a + r)[q] == a[q]);
    if a[q] == '"' {
        lemma_raw_body_end_extend(a, r, q + 1, q - k);
    }
}

pub proof fn lemma_raw_string_end_shift(a: Seq<char>, b: Seq<char>, k: int)
    requires
        0 <= k <= b.len(),
    ensures
        raw_string_end(a + b, a.len() + k) == a.len() + raw_string_end(b, k),
{
    lemma_hash_run_end_shift(a, b, k);
    lemma_hash_run_end_bounds(b, k);
    let q = hash_run_end(b, k);
    if q < b.len() {
        assert((a + b)[a.len() + q] == b[q]);
        if b[q] == '"' {
            lemma_raw_body_end_shift(a, b, q + 1, q - k);
        }
    }
}

pub proof fn lemma_nested_comment_end_extend(a: Seq<char>, r: Seq<char>, k: int, depth: int)
    requires
        0 <= k,
        nested_comment_closes(a, k, depth),
    ensures
        nested_comment_end(a + r, k, depth) == nested_comment_end(a, k, depth),
    decreases a.len() - k,
{
    assert((a + r)[k] == a[k]);
    if k + 1 < a.len() {
        assert((a + r)[k + 1] == a[k + 1]);
        if a[k] == '/' && a[k + 1] == '*' {
            lemma_nested_comment_end_extend(a, r, k + 2, depth + 1);
        } else if a[k] == '*' && a[k + 1] == '/' {
            if depth > 1 {
                lemma_nested_comment_end_extend(a, r, k + 2, depth - 1);
            }
        } else {
            lemma_nested_comment_end_extend(a, r, k + 1, depth);
        }
    } else {
        assert(!nested_comment_closes(a, k + 1, depth));
    }
}

pub proof fn lemma_nested_comment_end_shift(a: Seq<char>, b: Seq<char>, k: int, depth: int)
    requires
        0 <= k <= b.len(),
    ensures
        nested_comment_end(a + b, a.len() + k, depth) == a.len() + nested_comment_end(b, k, depth),
    decreases b.len() - k,
{
    if k < b.len() {
        assert((a + b)[a.len() + k] == b[k]);
        if k + 1 < b.len() {
            assert((a + b)[a.len() + k + 1] == b[k + 1]);
        }
        if b[k] == '/' && k + 1 < b.len() && b[k + 1] == '*' {
            lemma_nested_comment_end_shift(a, b, k + 2, depth + 1);
        } else if b[k] == '*' && k + 1 < b.len() && b[k + 1] == '/' {
            if depth > 1 {
                lemma_nested_comment_end_shift(a, b, k + 2, depth - 1);
            }
        } else {
            lemma_nested_comment_end_shift(a, b, k + 1, depth);
        }
    }
}

/// Reading `a + r` from `i` gives the output of reading `a` from `i`, then what
/// `a + r` gives from the end of `a`, when `a` settles, `r` does not open with a
/// `#`, and the first char of `r` does not join the last char of `a`.
pub proof fn lemma_rust_strip_prefix(a: Seq<char>, r: Seq<char>, i: int)
    requires
        0 <= i <= a.len(),
        rust_settles_from(a, i),
        r.len() > 0 ==> r[0] != '#',
        a.len() > 0 && r.len() > 0 ==> !rust_joins(a.last(), r[0]),
    ensures
        rust_strip_from(a + r, i) == rust_strip_from(a, i) + rust_strip_from(a + r, a.len() as int),
    decreases a.len() - i,
{
    let s = a + r;
    if i < a.len() {
        lemma_rust_token_bounds(a, i);
        let (e, comment) = rust_token(a, i);
        assert(s[i] == a[i]);
        if i + 1 < a.len() {
            assert(s[i + 1] == a[i + 1]);
        } else if r.len() > 0 {
            assert(s[i + 1] == r[0]);
        }
        if a[i] == 'b' && i + 1 < a.len() && (a[i + 1] == '"' || a[i + 1] == '\'') {
            lemma_quoted_end_extend(a, r, i + 2, a[i + 1]);
        } else if a[i] == 'b' && i + 1 < a.len() && a[i + 1] == 'r' {
            lemma_raw_string_end_extend(a, r, i + 2);
        } else if a[i] == 'r' && i + 1 < a.len() && (a[i + 1] == '"' || a[i + 1] == '#') {
            lemma_raw_string_end_extend(a, r, i + 1);
        } else if a[i] == '"' || a[i] == '\'' {
            lemma_quoted_end_extend(a, r, i + 1, a[i]);
        } else if a[i] == '/' && i + 1 < a.len() && a[i + 1] == '/' {
            lemma_line_end_bounds(a, i + 2);
            lemma_line_end_extend(a, r, i + 2);
        } else if a[i] == '/' && i + 1 < a.len() && a[i + 1] == '*' {
            lemma_nested_comment_end_extend(a, r, i + 2, 1);
        }
        assert(rust_token(s, i) == rust_token(a, i));
        lemma_rust_token_bounds(s, i);
        lemma_rust_strip_prefix(a, r, e);
        assert(s.subrange(i, e) =~= a.subrange(i, e));
        assert(token_output(s, i, e, comment) == token_output(a, i, e, comment));
        assert(token_output(a, i, e, comment) + (rust_strip_from(a, e) + rust_strip_from(
            s,
            a.len() as int,
        )) =~= (token_output(a, i, e, comment) + rust_strip_from(a, e)) + rust_strip_from(
            s,
            a.len() as int,
        ));
    } else {
        assert(Seq::<char>::empty() + rust_strip_from(s, a.len() as int) =~= rust_strip_from(
            s,
            a.len() as int,
        ));
    }
}

/// Reading `b` placed after `a`, from the end of `a` on, gives what reading `b`
/// alone gives.
pub proof fn lemma_rust_strip_shift(a: Seq<char>, b: Seq<char>, k: int)
    requires
        0 <= k <= b.len(),
    ensures
        rust_strip_from(a + b, a.len() + k) == rust_strip_from(b, k),
    decreases b.len() - k,
{
    let s = a + b;
    let n = a.len() as int;
    if k < b.len() {
        lemma_rust_token_bounds(b, k);
        let (e, comment) = rust_token(b, k);
        assert(s[n + k] == b[k]);
        if k + 1 < b.len() {
            assert(s[n + k + 1] == b[k + 1]);
        }
        if b[k] == 'b' && k + 1 < b.len() && (b[k + 1] == '"' || b[k + 1] == '\'') {
            lemma_quoted_end_shift(a, b, k + 2, b[k + 1]);
        } else if b[k] == 'b' && k + 1 < b.len() && b[k + 1] == 'r' {
            lemma_raw_string_end_shift(a, b, k + 2);
        } else if b[k] == 'r' && k + 1 < b.len() && (b[k + 1] == '"' || b[k + 1] == '#') {
            lemma_raw_string_end_shift(a, b, k + 1);
        } else if b[k] == '"' || b[k] == '\'' {
            lemma_quoted_end_shift(a, b, k + 1, b[k]);
        } else if b[k] == '/' && k + 1 < b.len() && b[k + 1] == '/' {
            lemma_line_end_shift(a, b, k + 2);
        } else if b[k] == '/' && k + 1 < b.len() && b[k + 1] == '*' {
            lemma_nested_comment_end_shift(a, b, k + 2, 1);
        }
        assert(rust_token(s, n + k) == (n + e, comment));
        lemma_rust_token_bounds(s, n + k);
        lemma_rust_strip_shift(a, b, e);
        assert(s.subrange(n + k, n + e) =~= b.subrange(k, e));
    }
}

/// `h` hashes at `k`, then no further hash, make a run that ends at `k + h`.
pub proof fn lemma_hash_run_of(s: Seq<char>, k: int, h: nat)
    requires
        0 <= k,
        k + h <= s.len(),
        forall|j: int| k <= j < k + h ==> s[j] == '#',
        k + h < s.len() ==> s[k + h] != '#',
    ensures
        hash_run_end(s, k) == k + h,
    decreases h,
{
    if h > 0 {
        lemma_hash_run_of(s, k + 1, (h - 1) as nat);
    }
}

/// A raw string opened with `h` hashes, whose contents `x` hold no quote and are
/// followed by a quote and the `h` hashes that close it, ends just past them.
pub proof fn lemma_raw_body_end_of_text(s: Seq<char>, k: int, x: Seq<char>, h: int)
    requires
        0 <= k,
        k + x.len() < s.len(),
        s.subrange(k, k + x.len()) == x,
        !x.contains('"'),
        s[k + x.len()] == '"',
        hash_run_end(s, k + x.len() + 1) == k + x.len() + 1 + h,
    ensures
        raw_body_end(s, k, h) == k + x.len() + 1 + h,
    decreases x.len(),
{
    if x.len() > 0 {
        assert(s[k] == x[0]);
        assert(x.contains(x[0]));
        assert(s.subrange(k + 1, k + x.len()) =~= x.skip(1));
        if x.skip(1).contains('"') {
            let j = choose|j: int| 0 <= j < x.skip(1).len() && x.skip(1)[j] == '"';
            assert(x[j + 1] == '"');
        }
        lemma_raw_body_end_of_text(s, k + 1, x.skip(1), h);
    }
}

/// Scanning a raw string `r##"x"##` followed by a text that does not open with
/// `#` reads the raw string as one piece, kept.
pub proof fn lemma_raw_literal_token(h: nat, x: Seq<char>, b: Seq<char>)
    requires
        !x.contains('"'),
        b.len() > 0 ==> b[0] != '#',
    ensures
        rust_token(raw_literal(h, x) + b, 0) == (raw_literal(h, x).len() as int, false),
{
    let lit = raw_literal(h, x);
    let r = lit + b;
    let n = lit.len() as int;
    let xs: int = 2 + h as int;
    let xe: int = xs + x.len() as int;
    assert(n == xe + 1 + h);
    assert(r[0] == 'r');
    assert forall|j: int| 1 <= j < 1 + h implies r[j] == '#' by {
        assert(r[j] == lit[j]);
    }
    assert(r[1 + h as int] == '"');
    if n < r.len() {
        assert(r[n] == b[0]);
    }
    lemma_hash_run_of(r, 1, h);
    assert(r.subrange(xs, xe) =~= x);
    assert(r[xe] == '"');
    assert forall|j: int| xe + 1 <= j < xe + 1 + h implies r[j] == '#' by {
        assert(r[j] == lit[j]);
    }
    lemma_hash_run_of(r, xe + 1, h);
    lemma_raw_body_end_of_text(r, xs, x, h as int);
    assert(rust_literal_opens(r, 0));
}

/// A raw string put between two texts is copied whole and unchanged, whatever
/// comment markers it holds, and each text is stripped as it would be alone: when
/// scanning the first text alone ends in code, that text does not end with `b`,
/// and the second text does not open with `#`, the output is the first text's
/// output, the raw string, then the second text's output.
pub proof fn lemma_rust_raw_string_between(a: Seq<char>, h: nat, x: Seq<char>, b: Seq<char>)
    requires
        rust_settles_from(a, 0),
        !(a.len() > 0 && a.last() == 'b'),
        !x.contains('"'),
        b.len() > 0 ==> b[0] != '#',
    ensures
        rust_strip(a + raw_literal(h, x) + b) == rust_strip(a) + raw_literal(h, x) + rust_strip(b),
{
    let lit = raw_literal(h, x);
    let r = lit + b;
    let n = lit.len() as int;
    assert(a + lit + b =~= a + r);
    assert(r[0] == 'r');
    lemma_rust_strip_prefix(a, r, 0);
    lemma_rust_strip_shift(a, r, 0);
    lemma_raw_literal_token(h, x, b);
    assert(r.subrange(0, n) =~= lit);
    lemma_rust_strip_shift(lit, b, 0);
    assert(rust_strip_from(r, 0) == lit + rust_strip_from(r, n));
    assert(rust_strip(a) + (lit + rust_strip(b)) =~= rust_strip(a) + lit + rust_strip(b));
}

} // verus!
