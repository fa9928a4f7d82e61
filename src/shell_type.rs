//! The `#`-comment engines: a generic one, one for shell scripts (comments only
//! after whitespace, backslash escapes and line continuations, heredocs) and one
//! for Python (triple-quoted literals). All three copy a leading `#!` line as it is.
use vstd::prelude::*;
use crate::literal::{
    escaped_text, lemma_quoted_end_bounds, lemma_quoted_end_extend, lemma_quoted_end_of_text,
    lemma_quoted_end_shift, quoted_closes, quoted_end, skip_quoted,
};
use crate::text::{
    chars_of, copy_range, emit_token, find_line_end, is_whitespace, lemma_line_end_bounds,
    lemma_line_end_extend, lemma_line_end_shift,
    lemma_newline_count_concat, lemma_step_newlines, lemma_step_unchanged,
    lemma_token_output_newlines, line_comment_end, line_end, newline_count, skip_line_comment,
    string_of, token_output, trim_bounds, trim_whitespace, whitespace_char,
};

verus! {

/// The dialects of the `#`-comment engine.
#[derive(Clone, Copy)]
pub enum HashDialect {
    /// Any `#` outside a literal starts a comment.
    Generic,
    /// Shell scripts.
    Shell,
    /// Python.
    Python,
}

/// The length of the `#!` line that opens `s`, newline included; 0 when `s` does
/// not open with `#!`.
pub open spec fn shebang_end(s: Seq<char>) -> int {
    if s.len() >= 2 && s[0] == '#' && s[1] == '!' {
        line_comment_end(s, 0)
    } else {
        0
    }
}

/// The index of the first char at or after `k` that is neither a space nor a tab.
pub open spec fn blank_run_end(s: Seq<char>, k: int) -> int
    decreases s.len() - k,
{
    if k < s.len() && (s[k] == ' ' || s[k] == '\t') {
        blank_run_end(s, k + 1)
    } else {
        k
    }
}

/// Reading a heredoc delimiter that starts at `k`: where the delimiter ends, and
/// where reading goes on. A quoted delimiter runs to the closing quote `q`, which
/// is passed over; an unquoted one stops at a blank, `;` or `&`. Both stop at the
/// end of the line.
pub open spec fn delimiter_bounds(s: Seq<char>, k: int, quoted: bool, q: char) -> (int, int)
    decreases s.len() - k,
{
    if k >= s.len() || s[k] == '\n' {
        (k, k)
    } else if quoted && s[k] == q {
        (k, k + 1)
    } else if !quoted && (s[k] == ' ' || s[k] == '\t' || s[k] == ';' || s[k] == '&') {
        (k, k)
    } else {
        delimiter_bounds(s, k + 1, quoted, q)
    }
}

/// The index just past the heredoc body whose first line starts at `k`: through
/// the first line that, trimmed, is the delimiter `d`, or to the end of the input.
pub open spec fn heredoc_body_end(s: Seq<char>, k: int, d: Seq<char>) -> int
    decreases s.len() - k,
{
    if !(0 <= k < s.len()) {
        s.len() as int
    } else if {
        proof {
            lemma_line_end_bounds(s, k);
        }
        trim_whitespace(s.subrange(k, line_end(s, k))) == d
    } {
        line_comment_end(s, k)
    } else if line_end(s, k) < s.len() {
        heredoc_body_end(s, line_end(s, k) + 1, d)
    } else {
        s.len() as int
    }
}

/// The index just past a heredoc whose `<<` ends just before `k`: an optional `-`,
/// blanks, the delimiter (maybe quoted), the rest of that line, then the body.
/// Without a delimiter the heredoc ends with its first line.
pub open spec fn heredoc_end(s: Seq<char>, k: int) -> int {
    let a = if k < s.len() && s[k] == '-' {
        k + 1
    } else {
        k
    };
    let b = blank_run_end(s, a);
    let quoted = b < s.len() && (s[b] == '\'' || s[b] == '"');
    let c = if quoted {
        b + 1
    } else {
        b
    };
    let q = if quoted {
        s[b]
    } else {
        ' '
    };
    let (de, after) = delimiter_bounds(s, c, quoted, q);
    let body = line_comment_end(s, after);
    if de > c {
        heredoc_body_end(s, body, s.subrange(c, de))
    } else {
        body
    }
}

/// The index just past the first three `q` in a row at or after `k`, or the end
/// of the input.
pub open spec fn triple_quote_end(s: Seq<char>, k: int, q: char) -> int
    decreases s.len() - k,
{
    if k + 2 >= s.len() {
        s.len() as int
    } else if s[k] == q && s[k + 1] == q && s[k + 2] == q {
        k + 3
    } else {
        triple_quote_end(s, k + 1, q)
    }
}

/// A heredoc opens at `i`: `<<` with at least one char after it.
pub open spec fn heredoc_opens(s: Seq<char>, i: int) -> bool {
    s[i] == '<' && i + 2 < s.len() && s[i + 1] == '<'
}

/// A triple-quoted literal opens at `i`.
pub open spec fn triple_quote_opens(s: Seq<char>, i: int) -> bool {
    i + 2 < s.len() && (s[i] == '"' || s[i] == '\'') && s[i + 1] == s[i] && s[i + 2] == s[i]
}

/// A `#` at `i` starts a comment: always, but in a shell script only at the
/// start or after whitespace.
pub open spec fn hash_comment_opens(s: Seq<char>, i: int, d: HashDialect) -> bool {
    s[i] == '#' && (!(d is Shell) || i == 0 || whitespace_char(s[i - 1]))
}

/// The piece that starts at `i`, scanning code of dialect `d`: its end, and
/// whether it is a comment.
pub open spec fn hash_token(s: Seq<char>, i: int, d: HashDialect) -> (int, bool) {
    if d is Shell && heredoc_opens(s, i) {
        (heredoc_end(s, i + 2), false)
    } else if d is Shell && s[i] == '\\' && i + 1 < s.len() && s[i + 1] == '\n' {
        (blank_run_end(s, i + 2), false)
    } else if d is Shell && s[i] == '\\' && i + 1 < s.len() {
        (i + 2, false)
    } else if d is Python && triple_quote_opens(s, i) {
        (triple_quote_end(s, i + 3, s[i]), false)
    } else if hash_comment_opens(s, i, d) {
        (line_comment_end(s, i + 1), true)
    } else if s[i] == '"' || s[i] == '\'' {
        (quoted_end(s, i + 1, s[i]), false)
    } else {
        (i + 1, false)
    }
}

/// The output of the engine for dialect `d` for the input `s[i..]`, scanning from code.
pub open spec fn hash_strip_from(s: Seq<char>, i: int, d: HashDialect) -> Seq<char>
    decreases s.len() - i,
{
    if 0 <= i < s.len() {
        let (e, comment) = hash_token(s, i, d);
        proof {
            lemma_hash_token_bounds(s, i, d);
        }
        token_output(s, i, e, comment) + hash_strip_from(s, e, d)
    } else {
        Seq::empty()
    }
}

/// The output of the engine for dialect `d` for the input `s`: the `#!` line as it
/// is, then the rest scanned from code.
pub open spec fn hash_strip(s: Seq<char>, d: HashDialect) -> Seq<char> {
    s.take(shebang_end(s)) + hash_strip_from(s, shebang_end(s), d)
}

/// No piece that the engine for dialect `d` reads in `s[i..]` is a comment.
pub open spec fn hash_comment_free_from(s: Seq<char>, i: int, d: HashDialect) -> bool
    decreases s.len() - i,
{
    if 0 <= i < s.len() {
        let (e, comment) = hash_token(s, i, d);
        proof {
            lemma_hash_token_bounds(s, i, d);
        }
        !comment && hash_comment_free_from(s, e, d)
    } else {
        true
    }
}

/// A literal of dialect `d` opens at `k`: a quote, a heredoc in a shell script,
/// a triple quote in Python.
pub open spec fn hash_literal_opens(s: Seq<char>, k: int, d: HashDialect) -> bool {
    ||| s[k] == '"'
    ||| s[k] == '\''
    ||| (d is Shell && heredoc_opens(s, k))
}

/// The index just past the literal of dialect `d` that opens at `k`.
pub open spec fn hash_literal_end(s: Seq<char>, k: int, d: HashDialect) -> int {
    if d is Shell && heredoc_opens(s, k) {
        heredoc_end(s, k + 2)
    } else if d is Python && triple_quote_opens(s, k) {
        triple_quote_end(s, k + 3, s[k])
    } else {
        quoted_end(s, k + 1, s[k])
    }
}

pub proof fn lemma_blank_run_end_bounds(s: Seq<char>, k: int)
    requires
        0 <= k <= s.len(),
    ensures
        k <= blank_run_end(s, k) <= s.len(),
    decreases s.len() - k,
{
    if k < s.len() && (s[k] == ' ' || s[k] == '\t') {
        lemma_blank_run_end_bounds(s, k + 1);
    }
}

pub proof fn lemma_delimiter_bounds(s: Seq<char>, k: int, quoted: bool, q: char)
    requires
        0 <= k <= s.len(),
    ensures
        k <= delimiter_bounds(s, k, quoted, q).0 <= delimiter_bounds(s, k, quoted, q).1 <= s.len(),
    decreases s.len() - k,
{
    if !(k >= s.len() || s[k] == '\n') && !(quoted && s[k] == q) && !(!quoted && (s[k] == ' '
        || s[k] == '\t' || s[k] == ';' || s[k] == '&')) {
        lemma_delimiter_bounds(s, k + 1, quoted, q);
    }
}

pub proof fn lemma_heredoc_body_end_bounds(s: Seq<char>, k: int, d: Seq<char>)
    requires
        0 <= k <= s.len(),
    ensures
        k <= heredoc_body_end(s, k, d) <= s.len(),
    decreases s.len() - k,
{
    if k < s.len() {
        lemma_line_end_bounds(s, k);
        if trim_whitespace(s.subrange(k, line_end(s, k))) != d && line_end(s, k) < s.len() {
            lemma_heredoc_body_end_bounds(s, line_end(s, k) + 1, d);
        }
    }
}

pub proof fn lemma_heredoc_end_bounds(s: Seq<char>, k: int)
    requires
        0 <= k <= s.len(),
    ensures
        k <= heredoc_end(s, k) <= s.len(),
{
    let a = if k < s.len() && s[k] == '-' {
        k + 1
    } else {
        k
    };
    lemma_blank_run_end_bounds(s, a);
    let b = blank_run_end(s, a);
    let quoted = b < s.len() && (s[b] == '\'' || s[b] == '"');
    let c = if quoted {
        b + 1
    } else {
        b
    };
    let q = if quoted {
        s[b]
    } else {
        ' '
    };
    lemma_delimiter_bounds(s, c, quoted, q);
    let (de, after) = delimiter_bounds(s, c, quoted, q);
    lemma_line_end_bounds(s, after);
    let body = line_comment_end(s, after);
    if de > c {
        lemma_heredoc_body_end_bounds(s, body, s.subrange(c, de));
    }
}

pub proof fn lemma_triple_quote_end_bounds(s: Seq<char>, k: int, q: char)
    requires
        0 <= k <= s.len(),
    ensures
        k <= triple_quote_end(s, k, q) <= s.len(),
    decreases s.len() - k,
{
    if k + 2 < s.len() && !(s[k] == q && s[k + 1] == q && s[k + 2] == q) {
        lemma_triple_quote_end_bounds(s, k + 1, q);
    }
}

pub proof fn lemma_hash_token_bounds(s: Seq<char>, i: int, d: HashDialect)
    requires
        0 <= i < s.len(),
    ensures
        i < hash_token(s, i, d).0 <= s.len(),
{
    if d is Shell && heredoc_opens(s, i) {
        lemma_heredoc_end_bounds(s, i + 2);
    } else if d is Shell && s[i] == '\\' && i + 1 < s.len() && s[i + 1] == '\n' {
        lemma_blank_run_end_bounds(s, i + 2);
    } else if d is Shell && s[i] == '\\' && i + 1 < s.len() {
    } else if d is Python && triple_quote_opens(s, i) {
        lemma_triple_quote_end_bounds(s, i + 3, s[i]);
    } else if hash_comment_opens(s, i, d) {
        lemma_line_end_bounds(s, i + 1);
    } else if s[i] == '"' || s[i] == '\'' {
        lemma_quoted_end_bounds(s, i + 1, s[i]);
    }
}

pub proof fn lemma_shebang_end_bounds(s: Seq<char>)
    ensures
        0 <= shebang_end(s) <= s.len(),
{
    lemma_line_end_bounds(s, 0);
}

/// The `#`-comment engines keep every line: the output has as many `'\n'` as the input.
pub proof fn lemma_hash_keeps_newlines(s: Seq<char>, d: HashDialect)
    ensures
        newline_count(hash_strip(s, d)) == newline_count(s),
{
    let sb = shebang_end(s);
    lemma_shebang_end_bounds(s);
    lemma_hash_keeps_newlines_from(s, sb, d);
    lemma_newline_count_concat(s.take(sb), hash_strip_from(s, sb, d));
    lemma_newline_count_concat(s.take(sb), s.subrange(sb, s.len() as int));
    assert(s.take(sb) + s.subrange(sb, s.len() as int) =~= s);
}

pub proof fn lemma_hash_keeps_newlines_from(s: Seq<char>, i: int, d: HashDialect)
    requires
        0 <= i <= s.len(),
    ensures
        newline_count(hash_strip_from(s, i, d)) == newline_count(s.subrange(i, s.len() as int)),
    decreases s.len() - i,
{
    if i < s.len() {
        let (e, comment) = hash_token(s, i, d);
        lemma_hash_token_bounds(s, i, d);
        lemma_hash_keeps_newlines_from(s, e, d);
        lemma_token_output_newlines(s, i, e, comment);
        lemma_step_newlines(s, i, e, token_output(s, i, e, comment), hash_strip_from(s, e, d));
    } else {
        assert(s.subrange(i, s.len() as int).len() == 0);
    }
}

/// Scanning `s` from `i` in code comes to stand at `k`, in code again.
pub open spec fn hash_reaches(s: Seq<char>, i: int, k: int, d: HashDialect) -> bool
    decreases s.len() - i,
{
    if 0 <= i < s.len() && i < k {
        proof {
            lemma_hash_token_bounds(s, i, d);
        }
        hash_reaches(s, hash_token(s, i, d).0, k, d)
    } else {
        i == k
    }
}

/// The output of the pieces read from `i` up to `k`.
pub open spec fn hash_output_between(s: Seq<char>, i: int, k: int, d: HashDialect) -> Seq<char>
    decreases s.len() - i,
{
    if 0 <= i < s.len() && i < k {
        let (e, comment) = hash_token(s, i, d);
        proof {
            lemma_hash_token_bounds(s, i, d);
        }
        token_output(s, i, e, comment) + hash_output_between(s, e, k, d)
    } else {
        Seq::empty()
    }
}

/// Where the scan comes to stand, the output splits: what was read before, then
/// the output of the rest.
pub proof fn lemma_hash_output_splits(s: Seq<char>, i: int, k: int, d: HashDialect)
    requires
        0 <= i,
        hash_reaches(s, i, k, d),
    ensures
        hash_strip_from(s, i, d) == hash_output_between(s, i, k, d) + hash_strip_from(s, k, d),
    decreases s.len() - i,
{
    if 0 <= i < s.len() && i < k {
        let (e, comment) = hash_token(s, i, d);
        lemma_hash_token_bounds(s, i, d);
        lemma_hash_output_splits(s, e, k, d);
        assert(token_output(s, i, e, comment) + (hash_output_between(s, e, k, d) + hash_strip_from(s, k, d))
            =~= (token_output(s, i, e, comment) + hash_output_between(s, e, k, d)) + hash_strip_from(s, k, d));
    } else {
        assert(Seq::<char>::empty() + hash_strip_from(s, k, d) =~= hash_strip_from(s, k, d));
    }
}

/// A string, heredoc or triple-quoted literal that opens where a `#`-comment
/// engine reads code is copied whole and unchanged into the output, whatever `#`
/// it holds; scanning goes on after its end.
pub proof fn lemma_hash_literal_unchanged(s: Seq<char>, k: int, d: HashDialect)
    requires
        hash_reaches(s, shebang_end(s), k, d),
        0 <= k < s.len(),
        hash_literal_opens(s, k, d),
    ensures
        ({
            let e = hash_literal_end(s, k, d);
            hash_strip(s, d) == s.take(shebang_end(s)) + hash_output_between(s, shebang_end(s), k, d)
                + s.subrange(k, e) + hash_strip_from(s, e, d)
        }),
{
    let sb = shebang_end(s);
    lemma_shebang_end_bounds(s);
    lemma_hash_output_splits(s, sb, k, d);
    let e = hash_token(s, k, d).0;
    assert(s.take(sb) + (hash_output_between(s, sb, k, d) + (s.subrange(k, e) + hash_strip_from(s, e, d)))
        =~= s.take(sb) + hash_output_between(s, sb, k, d) + s.subrange(k, e) + hash_strip_from(s, e, d));
}

/// Input in which a `#`-comment engine reads no comment comes out unchanged.
pub proof fn lemma_hash_comment_free_unchanged(s: Seq<char>, d: HashDialect)
    requires
        hash_comment_free_from(s, shebang_end(s), d),
    ensures
        hash_strip(s, d) == s,
{
    let sb = shebang_end(s);
    lemma_shebang_end_bounds(s);
    lemma_hash_comment_free_unchanged_from(s, sb, d);
    assert(s.take(sb) + s.subrange(sb, s.len() as int) =~= s);
}

pub proof fn lemma_hash_comment_free_unchanged_from(s: Seq<char>, i: int, d: HashDialect)
    requires
        0 <= i <= s.len(),
        hash_comment_free_from(s, i, d),
    ensures
        hash_strip_from(s, i, d) == s.subrange(i, s.len() as int),
    decreases s.len() - i,
{
    if i < s.len() {
        let (e, comment) = hash_token(s, i, d);
        lemma_hash_token_bounds(s, i, d);
        lemma_hash_comment_free_unchanged_from(s, e, d);
        lemma_step_unchanged(s, i, e, hash_strip_from(s, e, d));
    } else {
        assert(s.subrange(i, s.len() as int) =~= Seq::<char>::empty());
    }
}

/// The index of the first char at or after `k` that is neither a space nor a tab.
fn skip_blanks(s: &Vec<char>, k: usize) -> (r: usize)
    requires
        k <= s@.len(),
    ensures
        r == blank_run_end(s@, k as int),
        k <= r <= s@.len(),
{
    let mut j: usize = k;
    while j < s.len() && (s[j] == ' ' || s[j] == '\t')
        invariant
            k <= j <= s@.len(),
            blank_run_end(s@, j as int) == blank_run_end(s@, k as int),
        decreases s@.len() - j,
    {
        j += 1;
    }
    j
}

/// Reads a heredoc delimiter that starts at `k` (see `delimiter_bounds`).
fn find_delimiter(s: &Vec<char>, k: usize, quoted: bool, q: char) -> (r: (usize, usize))
    requires
        k <= s@.len(),
    ensures
        r.0 == delimiter_bounds(s@, k as int, quoted, q).0,
        r.1 == delimiter_bounds(s@, k as int, quoted, q).1,
{
    let mut j: usize = k;
    while j < s.len() && s[j] != '\n'
        invariant
            k <= j <= s@.len(),
            delimiter_bounds(s@, j as int, quoted, q) == delimiter_bounds(s@, k as int, quoted, q),
        decreases s@.len() - j,
    {
        if quoted && s[j] == q {
            return (j, j + 1);
        }
        if !quoted && (s[j] == ' ' || s[j] == '\t' || s[j] == ';' || s[j] == '&') {
            return (j, j);
        }
        j += 1;
    }
    (j, j)
}

/// Whether `s[from..to]`, trimmed, equals `s[d0..d1]`.
fn trimmed_line_is(s: &Vec<char>, from: usize, to: usize, d0: usize, d1: usize) -> (r: bool)
    requires
        from <= to <= s@.len(),
        d0 <= d1 <= s@.len(),
    ensures
        r == (trim_whitespace(s@.subrange(from as int, to as int)) == s@.subrange(
            d0 as int,
            d1 as int,
        )),
{
    let (a, b) = trim_bounds(s, from, to);
    let ghost t = s@.subrange(a as int, b as int);
    let ghost d = s@.subrange(d0 as int, d1 as int);
    if b - a != d1 - d0 {
        proof {
            assert(t.len() != d.len());
        }
        return false;
    }
    let mut j: usize = 0;
    while j < b - a
        invariant
            from <= a <= b <= to <= s@.len(),
            d0 <= d1 <= s@.len(),
            b - a == d1 - d0,
            t == s@.subrange(a as int, b as int),
            t == trim_whitespace(s@.subrange(from as int, to as int)),
            d == s@.subrange(d0 as int, d1 as int),
            j <= b - a,
            forall|x: int| 0 <= x < j ==> t[x] == d[x],
        decreases b - a - j,
    {
        if s[a + j] != s[d0 + j] {
            proof {
                assert(t[j as int] != d[j as int]);
            }
            return false;
        }
        j += 1;
    }
    proof {
        assert(t =~= d);
    }
    true
}

/// The index just past the heredoc body whose first line starts at `k`, the
/// delimiter being `s[d0..d1]` (see `heredoc_body_end`).
fn skip_heredoc_body(s: &Vec<char>, k: usize, d0: usize, d1: usize) -> (r: usize)
    requires
        k <= s@.len(),
        d0 <= d1 <= s@.len(),
    ensures
        r == heredoc_body_end(s@, k as int, s@.subrange(d0 as int, d1 as int)),
{
    let ghost d = s@.subrange(d0 as int, d1 as int);
    let n = s.len();
    let mut j: usize = k;
    while j < n
        invariant
            n == s@.len(),
            k <= j <= n,
            d0 <= d1 <= n,
            d == s@.subrange(d0 as int, d1 as int),
            heredoc_body_end(s@, j as int, d) == heredoc_body_end(s@, k as int, d),
        decreases n - j,
    {
        proof {
            lemma_line_end_bounds(s@, j as int);
        }
        let le = find_line_end(s, j);
        if trimmed_line_is(s, j, le, d0, d1) {
            return if le < n {
                le + 1
            } else {
                n
            };
        }
        if le >= n {
            return n;
        }
        j = le + 1;
    }
    j
}

/// The index just past a heredoc whose `<<` ends just before `k` (see `heredoc_end`).
fn skip_heredoc(s: &Vec<char>, k: usize) -> (r: usize)
    requires
        k <= s@.len(),
    ensures
        r == heredoc_end(s@, k as int),
{
    let n = s.len();
    let a = if k < n && s[k] == '-' {
        k + 1
    } else {
        k
    };
    let b = skip_blanks(s, a);
    let quoted = b < n && (s[b] == '\'' || s[b] == '"');
    let c = if quoted {
        b + 1
    } else {
        b
    };
    let q = if quoted {
        s[b]
    } else {
        ' '
    };
    proof {
        lemma_delimiter_bounds(s@, c as int, quoted, q);
    }
    let (de, after) = find_delimiter(s, c, quoted, q);
    let body = skip_line_comment(s, after);
    if de > c {
        skip_heredoc_body(s, body, c, de)
    } else {
        body
    }
}

/// The index just past the first three `q` in a row at or after `k` (see
/// `triple_quote_end`).
fn skip_triple_quoted(s: &Vec<char>, k: usize, q: char) -> (r: usize)
    requires
        k <= s@.len(),
    ensures
        r == triple_quote_end(s@, k as int, q),
{
    let n = s.len();
    let mut j: usize = k;
    while n - j > 2
        invariant
            n == s@.len(),
            k <= j <= n,
            triple_quote_end(s@, j as int, q) == triple_quote_end(s@, k as int, q),
        decreases n - j,
    {
        if s[j] == q && s[j + 1] == q && s[j + 2] == q {
            return j + 3;
        }
        j += 1;
    }
    n
}

/// The length of the `#!` line that opens `s` (see `shebang_end`).
fn find_shebang_end(s: &Vec<char>) -> (r: usize)
    ensures
        r == shebang_end(s@),
{
    if s.len() >= 2 && s[0] == '#' && s[1] == '!' {
        skip_line_comment(s, 0)
    } else {
        0
    }
}

/// Reads the piece that starts at `i` in dialect `d` (see `hash_token`).
fn hash_next_token(s: &Vec<char>, i: usize, d: HashDialect) -> (r: (usize, bool))
    requires
        i < s@.len(),
    ensures
        r.0 == hash_token(s@, i as int, d).0,
        r.1 == hash_token(s@, i as int, d).1,
{
    let n = s.len();
    let shell = match d {
        HashDialect::Shell => true,
        _ => false,
    };
    let python = match d {
        HashDialect::Python => true,
        _ => false,
    };
    if shell && s[i] == '<' && n - i > 2 && s[i + 1] == '<' {
        (skip_heredoc(s, i + 2), false)
    } else if shell && s[i] == '\\' && i + 1 < n && s[i + 1] == '\n' {
        (skip_blanks(s, i + 2), false)
    } else if shell && s[i] == '\\' && i + 1 < n {
        (i + 2, false)
    } else if python && n - i > 2 && (s[i] == '"' || s[i] == '\'') && s[i + 1] == s[i] && s[i
        + 2] == s[i] {
        (skip_triple_quoted(s, i + 3, s[i]), false)
    } else if s[i] == '#' && (!shell || i == 0 || is_whitespace(s[i - 1])) {
        (skip_line_comment(s, i + 1), true)
    } else if s[i] == '"' || s[i] == '\'' {
        (skip_quoted(s, i + 1, s[i]), false)
    } else {
        (i + 1, false)
    }
}

/// Removes the comments of dialect `d` from `input` (see `hash_strip`).
fn remove_hash_comments(input: &str, d: HashDialect) -> (r: String)
    ensures
        r@ == hash_strip(input@, d),
{
    let s = chars_of(input);
    let mut out: Vec<char> = Vec::new();
    let sb = find_shebang_end(&s);
    proof {
        lemma_shebang_end_bounds(s@);
    }
    copy_range(&s, &mut out, 0, sb);
    proof {
        assert(out@ =~= s@.take(sb as int));
    }
    let mut i: usize = sb;
    while i < s.len()
        invariant
            i <= s@.len(),
            out@ + hash_strip_from(s@, i as int, d) == hash_strip(s@, d),
        decreases s@.len() - i,
    {
        let (e, comment) = hash_next_token(&s, i, d);
        proof {
            lemma_hash_token_bounds(s@, i as int, d);
        }
        let ghost before = out@;
        emit_token(&s, &mut out, i, e, comment);
        proof {
            assert(before + hash_strip_from(s@, i as int, d) == out@ + hash_strip_from(
                s@,
                e as int,
                d,
            ));
        }
        i = e;
    }
    string_of(&out)
}

/// Removes `#` comments, outside `"`/`'` literals, from the text of any language
/// that writes its comments so; a leading `#!` line is kept.
pub fn remove_hash_comments_basic(input: &str) -> (r: String)
    ensures
        r@ == hash_strip(input@, HashDialect::Generic),
{
    remove_hash_comments(input, HashDialect::Generic)
}

/// Removes the comments of a shell script: a `#` at the start or after whitespace,
/// outside literals, escapes and heredocs; a leading `#!` line is kept.
pub fn remove_shell_comments(input: &str) -> (r: String)
    ensures
        r@ == hash_strip(input@, HashDialect::Shell),
{
    remove_hash_comments(input, HashDialect::Shell)
}

/// Removes the `#` comments of Python source; string and triple-quoted literals
/// are copied unchanged, and a leading `#!` line is kept.
pub fn remove_python_comments(input: &str) -> (r: String)
    ensures
        r@ == hash_strip(input@, HashDialect::Python),
{
    remove_hash_comments(input, HashDialect::Python)
}

/// The piece that dialect `d` reads at `i` is closed by its own terminator within
/// `s`: a comment by a `'\n'`, a literal by its quote, the blanks after a line
/// continuation by a char that is not a blank. A heredoc is not counted as closed.
pub open spec fn hash_token_closes(s: Seq<char>, i: int, d: HashDialect) -> bool {
    if d is Shell && heredoc_opens(s, i) {
        false
    } else if d is Shell && s[i] == '\\' && i + 1 < s.len() && s[i + 1] == '\n' {
        blank_run_end(s, i + 2) < s.len()
    } else if d is Shell && s[i] == '\\' && i + 1 < s.len() {
        true
    } else if d is Python && triple_quote_opens(s, i) {
        triple_quote_closes(s, i + 3, s[i])
    } else if hash_comment_opens(s, i, d) {
        line_end(s, i + 1) < s.len()
    } else if s[i] == '"' || s[i] == '\'' {
        quoted_closes(s, i + 1, s[i])
    } else {
        true
    }
}

/// Scanning `s` from `i` in dialect `d` ends in code: every piece read is closed by
/// its own terminator, none is cut short by the end of the input.
pub open spec fn hash_settles_from(s: Seq<char>, i: int, d: HashDialect) -> bool
    decreases s.len() - i,
{
    if 0 <= i < s.len() {
        proof {
            lemma_hash_token_bounds(s, i, d);
        }
        hash_token_closes(s, i, d) && hash_settles_from(s, hash_token(s, i, d).0, d)
    } else {
        true
    }
}

/// Three `q` in a row, the first at `k` or after it, lie within `s`.
pub open spec fn triple_quote_closes(s: Seq<char>, k: int, q: char) -> bool
    decreases s.len() - k,
{
    if !(0 <= k) || k + 2 >= s.len() {
        false
    } else if s[k] == q && s[k + 1] == q && s[k + 2] == q {
        true
    } else {
        triple_quote_closes(s, k + 1, q)
    }
}

pub proof fn lemma_triple_quote_end_extend(a: Seq<char>, r: Seq<char>, k: int, q: char)
    requires
        0 <= k,
        triple_quote_closes(a, k, q),
    ensures
        triple_quote_end(a + r, k, q) == triple_quote_end(a, k, q),
    decreases a.len() - k,
{
    let s = a + r;
    assert(s[k] == a[k] && s[k + 1] == a[k + 1] && s[k + 2] == a[k + 2]);
    if !(a[k] == q && a[k + 1] == q && a[k + 2] == q) {
        lemma_triple_quote_end_extend(a, r, k + 1, q);
    }
}

pub proof fn lemma_blank_run_end_extend(a: Seq<char>, r: Seq<char>, k: int)
    requires
        0 <= k <= a.len(),
        blank_run_end(a, k) < a.len(),
    ensures
        blank_run_end(a + r, k) == blank_run_end(a, k),
    decreases a.len() - k,
{
    assert((a + r)[k] == a[k]);
    if a[k] == ' ' || a[k] == '\t' {
        lemma_blank_run_end_extend(a, r, k + 1);
    }
}

/// The first char of `r`, written after `a`, could change how dialect `d` reads
/// the end of `a`: after `<` or `\` in a shell script, after the same quote in
/// Python.
pub open spec fn hash_joins(a: Seq<char>, r: Seq<char>, d: HashDialect) -> bool {
    a.len() > 0 && r.len() > 0 && ((d is Shell && (a.last() == '<' || a.last() == '\\')) || (
    d is Python && a.last() == r[0]))
}

/// Reading `a + r` from `i` in dialect `d` gives the output of reading `a` from `i`,
/// then what `a + r` gives from the end of `a`, when `a` settles and `r` cannot
/// join the end of `a`.
pub proof fn lemma_hash_strip_prefix(a: Seq<char>, r: Seq<char>, i: int, d: HashDialect)
    requires
        0 <= i <= a.len(),
        hash_settles_from(a, i, d),
        !hash_joins(a, r, d),
    ensures
        hash_strip_from(a + r, i, d) == hash_strip_from(a, i, d) + hash_strip_from(
            a + r,
            a.len() as int,
            d,
        ),
    decreases a.len() - i,
{
    let s = a + r;
    let n = a.len() as int;
    if i < n {
        lemma_hash_token_bounds(a, i, d);
        let (e, comment) = hash_token(a, i, d);
        assert(s[i] == a[i]);
        if i > 0 {
            assert(s[i - 1] == a[i - 1]);
        }
        if i + 1 < n {
            assert(s[i + 1] == a[i + 1]);
        } else if r.len() > 0 {
            assert(a[i] == a.last());
            assert(s[i + 1] == r[0]);
        }
        if i + 2 < n {
            assert(s[i + 2] == a[i + 2]);
        } else if i + 2 == n && r.len() > 0 {
            assert(a[i + 1] == a.last());
            assert(s[i + 2] == r[0]);
        }
        if d is Shell && s[i] == '\\' && i + 1 < n && s[i + 1] == '\n' {
            lemma_blank_run_end_bounds(a, i + 2);
            lemma_blank_run_end_extend(a, r, i + 2);
        } else if d is Python && triple_quote_opens(a, i) {
            lemma_triple_quote_end_extend(a, r, i + 3, a[i]);
        } else if hash_comment_opens(a, i, d) {
            lemma_line_end_bounds(a, i + 1);
            lemma_line_end_extend(a, r, i + 1);
        } else if a[i] == '"' || a[i] == '\'' {
            lemma_quoted_end_extend(a, r, i + 1, a[i]);
        }
        assert(hash_token(s, i, d) == hash_token(a, i, d));
        lemma_hash_token_bounds(s, i, d);
        lemma_hash_strip_prefix(a, r, e, d);
        assert(s.subrange(i, e) =~= a.subrange(i, e));
        assert(token_output(s, i, e, comment) == token_output(a, i, e, comment));
        assert(token_output(a, i, e, comment) + (hash_strip_from(a, e, d) + hash_strip_from(s, n, d))
            =~= (token_output(a, i, e, comment) + hash_strip_from(a, e, d)) + hash_strip_from(
            s,
            n,
            d,
        ));
    } else {
        assert(Seq::<char>::empty() + hash_strip_from(s, n, d) =~= hash_strip_from(s, n, d));
    }
}

/// Reading `b` placed after `a` in the generic dialect, from the end of `a` on,
/// gives what reading `b` alone gives.
pub proof fn lemma_generic_strip_shift(a: Seq<char>, b: Seq<char>, k: int)
    requires
        0 <= k <= b.len(),
    ensures
        hash_strip_from(a + b, a.len() + k, HashDialect::Generic) == hash_strip_from(
            b,
            k,
            HashDialect::Generic,
        ),
    decreases b.len() - k,
{
    let d = HashDialect::Generic;
    let s = a + b;
    let n = a.len() as int;
    if k < b.len() {
        lemma_hash_token_bounds(b, k, d);
        let (e, comment) = hash_token(b, k, d);
        assert(s[n + k] == b[k]);
        if b[k] == '#' {
            lemma_line_end_shift(a, b, k + 1);
        } else if b[k] == '"' || b[k] == '\'' {
            lemma_quoted_end_shift(a, b, k + 1, b[k]);
        }
        assert(hash_token(s, n + k, d) == (n + e, comment));
        lemma_hash_token_bounds(s, n + k, d);
        lemma_generic_strip_shift(a, b, e);
        assert(s.subrange(n + k, n + e) =~= b.subrange(k, e));
    }
}

/// A string literal put between two texts is copied whole and unchanged by the
/// generic dialect, whatever `#` it holds, and each text is stripped as it would
/// be alone: when scanning the first text alone ends in code and neither text
/// opens with `#!`, the output is the first text's output, the literal, then the
/// second text's output.
pub proof fn lemma_generic_literal_between(a: Seq<char>, x: Seq<char>, q: char, b: Seq<char>)
    requires
        hash_settles_from(a, 0, HashDialect::Generic),
        shebang_end(a) == 0,
        shebang_end(b) == 0,
        q == '"' || q == '\'',
        escaped_text(x, q),
    ensures
        hash_strip(a + (seq![q] + x + seq![q]) + b, HashDialect::Generic) == hash_strip(
            a,
            HashDialect::Generic,
        ) + (seq![q] + x + seq![q]) + hash_strip(b, HashDialect::Generic),
{
    let d = HashDialect::Generic;
    let lit = seq![q] + x + seq![q];
    let r = lit + b;
    let s = a + r;
    assert(a + lit + b =~= s);
    assert(r[0] == q);
    lemma_no_shebang_before_quote(a, r);
    assert(s.take(0) =~= Seq::<char>::empty());
    assert(a.take(0) =~= Seq::<char>::empty());
    assert(b.take(0) =~= Seq::<char>::empty());
    lemma_hash_strip_prefix(a, r, 0, d);
    lemma_generic_strip_shift(a, r, 0);
    assert(r.subrange(1, 1 + x.len() as int) =~= x);
    assert(r[1 + x.len() as int] == q);
    lemma_quoted_end_of_text(r, 1, x, q);
    assert(hash_token(r, 0, d) == (lit.len() as int, false));
    assert(r.subrange(0, lit.len() as int) =~= lit);
    lemma_generic_strip_shift(lit, b, 0);
    assert(hash_strip_from(r, 0, d) == lit + hash_strip_from(r, lit.len() as int, d));
    assert(Seq::<char>::empty() + hash_strip_from(s, 0, d) =~= hash_strip_from(s, 0, d));
    assert(Seq::<char>::empty() + hash_strip_from(a, 0, d) =~= hash_strip_from(a, 0, d));
    assert(Seq::<char>::empty() + hash_strip_from(b, 0, d) =~= hash_strip_from(b, 0, d));
    assert(hash_strip_from(a, 0, d) + (lit + hash_strip_from(b, 0, d)) =~= hash_strip_from(a, 0, d)
        + lit + hash_strip_from(b, 0, d));
}

/// When `a` does not open with `#!`, nor does `a` followed by a text that opens
/// with a quote.
pub proof fn lemma_no_shebang_before_quote(a: Seq<char>, r: Seq<char>)
    requires
        shebang_end(a) == 0,
        r.len() >= 2,
        r[0] == '"' || r[0] == '\'',
    ensures
        shebang_end(a + r) == 0,
{
    let s = a + r;
    lemma_line_end_bounds(a, 0);
    lemma_line_end_bounds(s, 0);
    if a.len() >= 2 {
        assert(s[0] == a[0] && s[1] == a[1]);
    } else if a.len() == 1 {
        assert(s[1] == r[0]);
    } else {
        assert(s[0] == r[0]);
    }
}

/// A quoted string put after a text in a shell script is copied whole and
/// unchanged, whatever `#` it holds, right after that text's own output: when
/// scanning the first text alone ends in code, outside any heredoc, that text
/// neither opens with `#!` nor ends with `<` or `\`, the output is the first
/// text's output, the string, then what the rest gives.
pub proof fn lemma_shell_quoted_after(a: Seq<char>, x: Seq<char>, q: char, b: Seq<char>)
    requires
        hash_settles_from(a, 0, HashDialect::Shell),
        shebang_end(a) == 0,
        !(a.len() > 0 && (a.last() == '<' || a.last() == '\\')),
        q == '"' || q == '\'',
        escaped_text(x, q),
    ensures
        ({
            let lit = seq![q] + x + seq![q];
            let s = a + lit + b;
            hash_strip(s, HashDialect::Shell) == hash_strip(a, HashDialect::Shell) + lit
                + hash_strip_from(s, (a.len() + lit.len()) as int, HashDialect::Shell)
        }),
{
    let d = HashDialect::Shell;
    let lit = seq![q] + x + seq![q];
    let r = lit + b;
    let s = a + r;
    let n = a.len() as int;
    let e = n + lit.len();
    assert(a + lit + b =~= s);
    assert(r[0] == q);
    lemma_no_shebang_before_quote(a, r);
    assert(s.take(0) =~= Seq::<char>::empty());
    assert(a.take(0) =~= Seq::<char>::empty());
    lemma_hash_strip_prefix(a, r, 0, d);
    assert(s[n] == q);
    assert(s.subrange(n + 1, n + 1 + x.len() as int) =~= x);
    assert(s[n + 1 + x.len() as int] == q);
    lemma_quoted_end_of_text(s, n + 1, x, q);
    assert(hash_token(s, n, d) == (e, false));
    lemma_hash_token_bounds(s, n, d);
    assert(s.subrange(n, e) =~= lit);
    let pa = hash_strip_from(a, 0, d);
    assert(hash_strip_from(s, n, d) == lit + hash_strip_from(s, e, d));
    assert(Seq::<char>::empty() + hash_strip_from(s, 0, d) =~= hash_strip_from(s, 0, d));
    assert(Seq::<char>::empty() + pa =~= pa);
    assert(pa + (lit + hash_strip_from(s, e, d)) =~= pa + lit + hash_strip_from(s, e, d));
}

/// `x` can stand inside a literal of triple `q`: it holds no three `q` in a row and
/// does not end with `q`.
pub open spec fn triple_quote_text(x: Seq<char>, q: char) -> bool {
    &&& forall|j: int|
        0 <= j && j + 2 < x.len() ==> !(#[trigger] x[j] == q && x[j + 1] == q && x[j + 2] == q)
    &&& !(x.len() > 0 && x.last() == q)
}

/// A triple-quoted literal whose text `x` fits it ends just past the three `q` after it.
pub proof fn lemma_triple_quote_end_of_text(s: Seq<char>, k: int, x: Seq<char>, q: char)
    requires
        0 <= k,
        k + x.len() + 3 <= s.len(),
        s.subrange(k, k + x.len()) == x,
        s[k + x.len()] == q && s[k + x.len() + 1] == q && s[k + x.len() + 2] == q,
        triple_quote_text(x, q),
    ensures
        triple_quote_end(s, k, q) == k + x.len() + 3,
    decreases x.len(),
{
    if x.len() > 0 {
        assert(s[k] == x[0]);
        if x.len() >= 3 {
            assert(s[k + 1] == x[1] && s[k + 2] == x[2]);
        } else if x.len() == 2 {
            assert(s[k + 1] == x[1]);
            assert(x.last() == x[1]);
        } else {
            assert(x.last() == x[0]);
        }
        let y = x.skip(1);
        assert(s.subrange(k + 1, k + x.len()) =~= y);
        assert forall|j: int| 0 <= j && j + 2 < y.len() implies !(#[trigger] y[j] == q && y[j
            + 1] == q && y[j + 2] == q) by {
            assert(y[j] == x[j + 1] && y[j + 1] == x[j + 2] && y[j + 2] == x[j + 3]);
            assert(!(x[j + 1] == q && x[j + 2] == q && x[j + 3] == q));
        }
        if y.len() > 0 {
            assert(y.last() == x.last());
        }
        lemma_triple_quote_end_of_text(s, k + 1, y, q);
    }
}

/// A triple-quoted literal put after a text in Python is copied whole and
/// unchanged, whatever `#` it holds, right after that text's own output: when
/// scanning the first text alone ends in code, that text neither opens with `#!`
/// nor ends with the literal's quote, the output is the first text's output, the
/// literal, then what the rest gives.
pub proof fn lemma_python_triple_after(a: Seq<char>, x: Seq<char>, q: char, b: Seq<char>)
    requires
        hash_settles_from(a, 0, HashDialect::Python),
        shebang_end(a) == 0,
        !(a.len() > 0 && a.last() == q),
        q == '"' || q == '\'',
        triple_quote_text(x, q),
    ensures
        ({
            let lit = seq![q, q, q] + x + seq![q, q, q];
            let s = a + lit + b;
            hash_strip(s, HashDialect::Python) == hash_strip(a, HashDialect::Python) + lit
                + hash_strip_from(s, (a.len() + lit.len()) as int, HashDialect::Python)
        }),
{
    let d = HashDialect::Python;
    let lit = seq![q, q, q] + x + seq![q, q, q];
    let r = lit + b;
    let s = a + r;
    let n = a.len() as int;
    let e = n + lit.len();
    let m = x.len() as int;
    assert(a + lit + b =~= s);
    assert(r[0] == q);
    lemma_no_shebang_before_quote(a, r);
    assert(s.take(0) =~= Seq::<char>::empty());
    assert(a.take(0) =~= Seq::<char>::empty());
    lemma_hash_strip_prefix(a, r, 0, d);
    assert(s[n] == q && s[n + 1] == q && s[n + 2] == q);
    assert(s.subrange(n + 3, n + 3 + m) =~= x);
    assert(s[n + 3 + m] == q && s[n + 4 + m] == q && s[n + 5 + m] == q);
    lemma_triple_quote_end_of_text(s, n + 3, x, q);
    assert(triple_quote_opens(s, n));
    assert(hash_token(s, n, d) == (e, false));
    lemma_hash_token_bounds(s, n, d);
    assert(s.subrange(n, e) =~= lit);
    let pa = hash_strip_from(a, 0, d);
    assert(hash_strip_from(s, n, d) == lit + hash_strip_from(s, e, d));
    assert(Seq::<char>::empty() + hash_strip_from(s, 0, d) =~= hash_strip_from(s, 0, d));
    assert(Seq::<char>::empty() + pa =~= pa);
    assert(pa + (lit + hash_strip_from(s, e, d)) =~= pa + lit + hash_strip_from(s, e, d));
}

} // verus!
