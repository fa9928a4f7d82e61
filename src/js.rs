//! The JavaScript engine: C-style comments, `"`/`'` literals, template literals
//! whose `${…}` regions are followed by brace depth alone, and regex literals,
//! told apart from division by what the output ends with so far.
use vstd::prelude::*;
use crate::c_type::{
    block_comment_closes, block_comment_end, lemma_block_comment_end_bounds,
    lemma_block_comment_end_extend, skip_block_comment,
};
use crate::literal::{
    lemma_quoted_end_bounds, lemma_quoted_end_extend, quoted_closes, quoted_end, skip_quoted,
};
use crate::text::{
    alphanumeric_char, chars_of, emit_token, is_alphanumeric, is_whitespace,
    lemma_line_end_bounds, lemma_line_end_extend, lemma_step_newlines, lemma_step_unchanged,
    lemma_token_output_newlines, line_end,
    line_comment_end, newline_count, skip_line_comment, string_of, token_output, trimmed_len,
};

verus! {

/// The index just past a template literal whose text starts at `k`, `depth`
/// braces deep inside `${…}` regions (0 in the template's own text). In the text a
/// backslash escapes the next char and a backtick closes the literal; inside a
/// region only `{` and `}` count.
pub open spec fn template_end(s: Seq<char>, k: int, depth: int) -> int
    decreases s.len() - k,
{
    if k >= s.len() {
        s.len() as int
    } else if depth <= 0 {
        if s[k] == '\\' && k + 1 < s.len() {
            template_end(s, k + 2, 0)
        } else if s[k] == '`' {
            k + 1
        } else if s[k] == '$' && k + 1 < s.len() && s[k + 1] == '{' {
            template_end(s, k + 2, 1)
        } else {
            template_end(s, k + 1, 0)
        }
    } else if s[k] == '{' {
        template_end(s, k + 1, depth + 1)
    } else if s[k] == '}' {
        template_end(s, k + 1, depth - 1)
    } else {
        template_end(s, k + 1, depth)
    }
}

/// A regex flag letter.
pub open spec fn is_regex_flag(c: char) -> bool {
    c == 'g' || c == 'i' || c == 'm' || c == 's' || c == 'u' || c == 'y'
}

/// The index of the first char at or after `k` that is not a regex flag.
pub open spec fn regex_flags_end(s: Seq<char>, k: int) -> int
    decreases s.len() - k,
{
    if k < s.len() && is_regex_flag(s[k]) {
        regex_flags_end(s, k + 1)
    } else {
        k
    }
}

/// The index just past a regex literal whose pattern starts at `k`: through the
/// next unescaped `/` and the flags after it, or to the end of the input.
pub open spec fn regex_end(s: Seq<char>, k: int) -> int
    decreases s.len() - k,
{
    if k >= s.len() {
        s.len() as int
    } else if s[k] == '\\' && k + 1 < s.len() {
        regex_end(s, k + 2)
    } else if s[k] == '/' {
        regex_flags_end(s, k + 1)
    } else {
        regex_end(s, k + 1)
    }
}

/// `t` ends with the word `kw`, and the char before it, if any, is not part of an
/// identifier.
pub open spec fn ends_with_keyword(t: Seq<char>, kw: Seq<char>) -> bool {
    &&& kw.len() <= t.len()
    &&& t.subrange(t.len() - kw.len(), t.len() as int) == kw
    &&& (t.len() == kw.len() || {
        let c = t[t.len() - kw.len() - 1];
        !alphanumeric_char(c) && c != '_'
    })
}

/// A char after which a `/` ends an expression: a closing bracket, a digit, or a
/// closing quote.
pub open spec fn ends_operand(c: char) -> bool {
    c == ')' || c == ']' || c == '}' || ('0' <= c && c <= '9') || c == '"' || c == '\'' || c
        == '`'
}

/// A char after which a `/` starts an operand: an operator or opening punctuation.
pub open spec fn expects_operand(c: char) -> bool {
    c == '=' || c == '(' || c == '[' || c == ',' || c == ':' || c == ';' || c == '!' || c == '&'
        || c == '|' || c == '?' || c == '+' || c == '-' || c == '*' || c == '%' || c == '^' || c
        == '~' || c == '{'
}

/// A `/` after the output `p` starts a regex literal: `p` is blank, or its last
/// non-whitespace char expects an operand, or it ends with one of the keywords
/// after which an expression follows.
pub open spec fn regex_allowed_after(p: Seq<char>) -> bool {
    let t = p.take(trimmed_len(p));
    if t.len() == 0 {
        true
    } else if ends_operand(t.last()) {
        false
    } else if expects_operand(t.last()) {
        true
    } else {
        ||| ends_with_keyword(t, "return"@)
        ||| ends_with_keyword(t, "throw"@)
        ||| ends_with_keyword(t, "new"@)
        ||| ends_with_keyword(t, "case"@)
        ||| ends_with_keyword(t, "delete"@)
        ||| ends_with_keyword(t, "void"@)
        ||| ends_with_keyword(t, "typeof"@)
        ||| ends_with_keyword(t, "instanceof"@)
        ||| ends_with_keyword(t, "in"@)
    }
}

/// A literal of the JavaScript engine opens at `k` after the output `p`: a quote,
/// a backtick, or a `/` that starts a regex.
pub open spec fn js_literal_opens(s: Seq<char>, k: int, p: Seq<char>) -> bool {
    ||| s[k] == '"'
    ||| s[k] == '\''
    ||| s[k] == '`'
    ||| (s[k] == '/' && !(k + 1 < s.len() && (s[k + 1] == '/' || s[k + 1] == '*'))
        && regex_allowed_after(p))
}

/// The index just past the literal that opens at `k`.
pub open spec fn js_literal_end(s: Seq<char>, k: int) -> int {
    if s[k] == '`' {
        template_end(s, k + 1, 0)
    } else if s[k] == '/' {
        regex_end(s, k + 1)
    } else {
        quoted_end(s, k + 1, s[k])
    }
}

/// The piece that starts at `i` after the output `p`, scanning JavaScript code:
/// its end, and whether it is a comment.
pub open spec fn js_token(s: Seq<char>, i: int, p: Seq<char>) -> (int, bool) {
    if s[i] == '"' || s[i] == '\'' || s[i] == '`' {
        (js_literal_end(s, i), false)
    } else if s[i] == '/' && i + 1 < s.len() && s[i + 1] == '/' {
        (line_comment_end(s, i + 2), true)
    } else if s[i] == '/' && i + 1 < s.len() && s[i + 1] == '*' {
        (block_comment_end(s, i + 2), true)
    } else if s[i] == '/' && regex_allowed_after(p) {
        (regex_end(s, i + 1), false)
    } else {
        (i + 1, false)
    }
}

/// The output of the JavaScript engine for the input `s[i..]`, scanning from code
/// after the output `p`.
pub open spec fn js_strip_from(s: Seq<char>, i: int, p: Seq<char>) -> Seq<char>
    decreases s.len() - i,
{
    if 0 <= i < s.len() {
        let (e, comment) = js_token(s, i, p);
        proof {
            lemma_js_token_bounds(s, i, p);
        }
        let piece = token_output(s, i, e, comment);
        piece + js_strip_from(s, e, p + piece)
    } else {
        Seq::empty()
    }
}

/// The output of the JavaScript engine for the input `s`.
pub open spec fn js_strip(s: Seq<char>) -> Seq<char> {
    js_strip_from(s, 0, Seq::empty())
}

/// No piece that the JavaScript engine reads in `s[i..]`, after the output `p`, is
/// a comment.
pub open spec fn js_comment_free_from(s: Seq<char>, i: int, p: Seq<char>) -> bool
    decreases s.len() - i,
{
    if 0 <= i < s.len() {
        let (e, comment) = js_token(s, i, p);
        proof {
            lemma_js_token_bounds(s, i, p);
        }
        !comment && js_comment_free_from(s, e, p + token_output(s, i, e, comment))
    } else {
        true
    }
}

pub proof fn lemma_template_end_bounds(s: Seq<char>, k: int, depth: int)
    requires
        0 <= k <= s.len(),
    ensures
        k <= template_end(s, k, depth) <= s.len(),
    decreases s.len() - k,
{
    if k < s.len() {
        if depth <= 0 {
            if s[k] == '\\' && k + 1 < s.len() {
                lemma_template_end_bounds(s, k + 2, 0);
            } else if s[k] == '`' {
            } else if s[k] == '$' && k + 1 < s.len() && s[k + 1] == '{' {
                lemma_template_end_bounds(s, k + 2, 1);
            } else {
                lemma_template_end_bounds(s, k + 1, 0);
            }
        } else if s[k] == '{' {
            lemma_template_end_bounds(s, k + 1, depth + 1);
        } else if s[k] == '}' {
            lemma_template_end_bounds(s, k + 1, depth - 1);
        } else {
            lemma_template_end_bounds(s, k + 1, depth);
        }
    }
}

pub proof fn lemma_regex_flags_end_bounds(s: Seq<char>, k: int)
    requires
        0 <= k <= s.len(),
    ensures
        k <= regex_flags_end(s, k) <= s.len(),
    decreases s.len() - k,
{
    if k < s.len() && is_regex_flag(s[k]) {
        lemma_regex_flags_end_bounds(s, k + 1);
    }
}

pub proof fn lemma_regex_end_bounds(s: Seq<char>, k: int)
    requires
        0 <= k <= s.len(),
    ensures
        k <= regex_end(s, k) <= s.len(),
    decreases s.len() - k,
{
    if k < s.len() {
        if s[k] == '\\' && k + 1 < s.len() {
            lemma_regex_end_bounds(s, k + 2);
        } else if s[k] == '/' {
            lemma_regex_flags_end_bounds(s, k + 1);
        } else {
            lemma_regex_end_bounds(s, k + 1);
        }
    }
}

pub proof fn lemma_js_token_bounds(s: Seq<char>, i: int, p: Seq<char>)
    requires
        0 <= i < s.len(),
    ensures
        i < js_token(s, i, p).0 <= s.len(),
{
    if s[i] == '"' || s[i] == '\'' {
        lemma_quoted_end_bounds(s, i + 1, s[i]);
    } else if s[i] == '`' {
        lemma_template_end_bounds(s, i + 1, 0);
    } else if s[i] == '/' && i + 1 < s.len() && s[i + 1] == '/' {
        lemma_line_end_bounds(s, i + 2);
    } else if s[i] == '/' && i + 1 < s.len() && s[i + 1] == '*' {
        lemma_block_comment_end_bounds(s, i + 2);
    } else if s[i] == '/' {
        lemma_regex_end_bounds(s, i + 1);
    }
}

/// The JavaScript engine keeps every line: the output has as many `'\n'` as the input.
pub proof fn lemma_js_keeps_newlines(s: Seq<char>)
    ensures
        newline_count(js_strip(s)) == newline_count(s),
{
    lemma_js_keeps_newlines_from(s, 0, Seq::empty());
    assert(s.subrange(0, s.len() as int) =~= s);
}

pub proof fn lemma_js_keeps_newlines_from(s: Seq<char>, i: int, p: Seq<char>)
    requires
        0 <= i <= s.len(),
    ensures
        newline_count(js_strip_from(s, i, p)) == newline_count(s.subrange(i, s.len() as int)),
    decreases s.len() - i,
{
    if i < s.len() {
        let (e, comment) = js_token(s, i, p);
        let piece = token_output(s, i, e, comment);
        lemma_js_token_bounds(s, i, p);
        lemma_js_keeps_newlines_from(s, e, p + piece);
        lemma_token_output_newlines(s, i, e, comment);
        lemma_step_newlines(s, i, e, piece, js_strip_from(s, e, p + piece));
    } else {
        assert(s.subrange(i, s.len() as int).len() == 0);
    }
}

/// Scanning `s` from `i` in code, after the output `p`, comes to stand at `k`, in
/// code again.
pub open spec fn js_reaches(s: Seq<char>, i: int, p: Seq<char>, k: int) -> bool
    decreases s.len() - i,
{
    if 0 <= i < s.len() && i < k {
        let (e, comment) = js_token(s, i, p);
        proof {
            lemma_js_token_bounds(s, i, p);
        }
        js_reaches(s, e, p + token_output(s, i, e, comment), k)
    } else {
        i == k
    }
}

/// The output of the pieces read from `i` up to `k`, after the output `p`.
pub open spec fn js_output_between(s: Seq<char>, i: int, p: Seq<char>, k: int) -> Seq<char>
    decreases s.len() - i,
{
    if 0 <= i < s.len() && i < k {
        let (e, comment) = js_token(s, i, p);
        proof {
            lemma_js_token_bounds(s, i, p);
        }
        let piece = token_output(s, i, e, comment);
        piece + js_output_between(s, e, p + piece, k)
    } else {
        Seq::empty()
    }
}

/// Where the scan comes to stand, the output splits: what was read before, then
/// the output of the rest, read after all that.
pub proof fn lemma_js_output_splits(s: Seq<char>, i: int, p: Seq<char>, k: int)
    requires
        0 <= i,
        js_reaches(s, i, p, k),
    ensures
        js_strip_from(s, i, p) == js_output_between(s, i, p, k) + js_strip_from(
            s,
            k,
            p + js_output_between(s, i, p, k),
        ),
    decreases s.len() - i,
{
    if 0 <= i < s.len() && i < k {
        let (e, comment) = js_token(s, i, p);
        let piece = token_output(s, i, e, comment);
        lemma_js_token_bounds(s, i, p);
        lemma_js_output_splits(s, e, p + piece, k);
        let between = js_output_between(s, e, p + piece, k);
        assert(p + piece + between =~= p + (piece + between));
        assert(piece + (between + js_strip_from(s, k, p + piece + between)) =~= (piece + between)
            + js_strip_from(s, k, p + piece + between));
    } else {
        assert(p + Seq::<char>::empty() =~= p);
        assert(Seq::<char>::empty() + js_strip_from(s, k, p) =~= js_strip_from(s, k, p));
    }
}

/// A string, template or regex literal that opens where the JavaScript engine
/// reads code is copied whole and unchanged into the output, whatever comment
/// markers it holds; scanning goes on after its end.
pub proof fn lemma_js_literal_unchanged(s: Seq<char>, k: int)
    requires
        js_reaches(s, 0, Seq::empty(), k),
        0 <= k < s.len(),
        js_literal_opens(s, k, js_output_between(s, 0, Seq::empty(), k)),
    ensures
        ({
            let before = js_output_between(s, 0, Seq::empty(), k);
            let e = js_literal_end(s, k);
            js_strip(s) == before + s.subrange(k, e) + js_strip_from(
                s,
                e,
                before + s.subrange(k, e),
            )
        }),
{
    let before = js_output_between(s, 0, Seq::empty(), k);
    lemma_js_output_splits(s, 0, Seq::empty(), k);
    assert(Seq::<char>::empty() + before =~= before);
    let e = js_token(s, k, before).0;
    assert(before + (s.subrange(k, e) + js_strip_from(s, e, before + s.subrange(k, e)))
        =~= before + s.subrange(k, e) + js_strip_from(s, e, before + s.subrange(k, e)));
}

/// Input in which the JavaScript engine reads no comment comes out unchanged.
pub proof fn lemma_js_comment_free_unchanged(s: Seq<char>)
    requires
        js_comment_free_from(s, 0, Seq::empty()),
    ensures
        js_strip(s) == s,
{
    lemma_js_comment_free_unchanged_from(s, 0, Seq::empty());
    assert(s.subrange(0, s.len() as int) =~= s);
}

pub proof fn lemma_js_comment_free_unchanged_from(s: Seq<char>, i: int, p: Seq<char>)
    requires
        0 <= i <= s.len(),
        js_comment_free_from(s, i, p),
    ensures
        js_strip_from(s, i, p) == s.subrange(i, s.len() as int),
    decreases s.len() - i,
{
    if i < s.len() {
        let (e, comment) = js_token(s, i, p);
        lemma_js_token_bounds(s, i, p);
        lemma_js_comment_free_unchanged_from(s, e, p + token_output(s, i, e, comment));
        lemma_step_unchanged(s, i, e, js_strip_from(s, e, p + token_output(s, i, e, comment)));
    } else {
        assert(s.subrange(i, s.len() as int) =~= Seq::<char>::empty());
    }
}

/// The index just past a template literal whose text starts at `k` (see `template_end`).
fn skip_template(s: &Vec<char>, k: usize) -> (r: usize)
    requires
        k <= s@.len(),
    ensures
        r == template_end(s@, k as int, 0),
{
    let n = s.len();
    let mut depth: usize = 0;
    let mut j: usize = k;
    while j < n
        invariant
            n == s@.len(),
            k <= j <= n,
            depth <= j,
            template_end(s@, j as int, depth as int) == template_end(s@, k as int, 0),
        decreases n - j,
    {
        if depth == 0 {
            if s[j] == '\\' && j + 1 < n {
                j += 2;
            } else if s[j] == '`' {
                return j + 1;
            } else if s[j] == '$' && j + 1 < n && s[j + 1] == '{' {
                depth = 1;
                j += 2;
            } else {
                j += 1;
            }
        } else if s[j] == '{' {
            depth += 1;
            j += 1;
        } else if s[j] == '}' {
            depth -= 1;
            j += 1;
        } else {
            j += 1;
        }
    }
    j
}

/// The index just past a regex literal whose pattern starts at `k` (see `regex_end`).
fn skip_regex(s: &Vec<char>, k: usize) -> (r: usize)
    requires
        k <= s@.len(),
    ensures
        r == regex_end(s@, k as int),
{
    let n = s.len();
    let mut j: usize = k;
    while j < n
        invariant
            n == s@.len(),
            k <= j <= n,
            regex_end(s@, j as int) == regex_end(s@, k as int),
        decreases n - j,
    {
        if s[j] == '\\' && j + 1 < n {
            j += 2;
        } else if s[j] == '/' {
            let mut f: usize = j + 1;
            while f < n && (s[f] == 'g' || s[f] == 'i' || s[f] == 'm' || s[f] == 's' || s[f]
                == 'u' || s[f] == 'y')
                invariant
                    n == s@.len(),
                    j < f <= n,
                    regex_flags_end(s@, f as int) == regex_end(s@, k as int),
                decreases n - f,
            {
                f += 1;
            }
            return f;
        } else {
            j += 1;
        }
    }
    j
}

/// Whether `t[..len]` ends with the keyword `kw` (see `ends_with_keyword`).
fn ends_with_word(t: &Vec<char>, len: usize, kw: &str) -> (r: bool)
    requires
        len <= t@.len(),
    ensures
        r == ends_with_keyword(t@.take(len as int), kw@),
{
    let ghost w = t@.take(len as int);
    let m = kw.unicode_len();
    if m > len {
        return false;
    }
    let start = len - m;
    let mut j: usize = 0;
    while j < m
        invariant
            m == kw@.len(),
            start + m == len,
            len <= t@.len(),
            w == t@.take(len as int),
            j <= m,
            forall|x: int| 0 <= x < j ==> t@[start + x] == kw@[x],
        decreases m - j,
    {
        if t[start + j] != kw.get_char(j) {
            proof {
                assert(w.subrange(start as int, len as int)[j as int] != kw@[j as int]);
            }
            return false;
        }
        j += 1;
    }
    proof {
        assert(w.subrange(start as int, len as int) =~= kw@);
    }
    if start == 0 {
        return true;
    }
    let c = t[start - 1];
    !is_alphanumeric(c) && c != '_'
}

/// Whether a `/` after the output `p` starts a regex (see `regex_allowed_after`).
fn regex_allowed(p: &Vec<char>) -> (r: bool)
    ensures
        r == regex_allowed_after(p@),
{
    let mut len: usize = p.len();
    proof {
        assert(p@.take(len as int) =~= p@);
    }
    while len > 0 && is_whitespace(p[len - 1])
        invariant
            len <= p@.len(),
            trimmed_len(p@.take(len as int)) == trimmed_len(p@),
        decreases len,
    {
        proof {
            assert(p@.take(len as int).drop_last() =~= p@.take(len - 1));
        }
        len -= 1;
    }
    proof {
        assert(trimmed_len(p@.take(len as int)) == len);
    }
    if len == 0 {
        return true;
    }
    let c = p[len - 1];
    if c == ')' || c == ']' || c == '}' || ('0' <= c && c <= '9') || c == '"' || c == '\'' || c
        == '`' {
        return false;
    }
    if c == '=' || c == '(' || c == '[' || c == ',' || c == ':' || c == ';' || c == '!' || c
        == '&' || c == '|' || c == '?' || c == '+' || c == '-' || c == '*' || c == '%' || c == '^'
        || c == '~' || c == '{' {
        return true;
    }
    ends_with_word(p, len, "return") || ends_with_word(p, len, "throw") || ends_with_word(
        p,
        len,
        "new",
    ) || ends_with_word(p, len, "case") || ends_with_word(p, len, "delete") || ends_with_word(
        p,
        len,
        "void",
    ) || ends_with_word(p, len, "typeof") || ends_with_word(p, len, "instanceof")
        || ends_with_word(p, len, "in")
}

/// Reads the piece that starts at `i` after the output `p` (see `js_token`).
fn js_next_token(s: &Vec<char>, i: usize, p: &Vec<char>) -> (r: (usize, bool))
    requires
        i < s@.len(),
    ensures
        r.0 == js_token(s@, i as int, p@).0,
        r.1 == js_token(s@, i as int, p@).1,
{
    let n = s.len();
    if s[i] == '"' || s[i] == '\'' {
        (skip_quoted(s, i + 1, s[i]), false)
    } else if s[i] == '`' {
        (skip_template(s, i + 1), false)
    } else if s[i] == '/' && i + 1 < n && s[i + 1] == '/' {
        (skip_line_comment(s, i + 2), true)
    } else if s[i] == '/' && i + 1 < n && s[i + 1] == '*' {
        (skip_block_comment(s, i + 2), true)
    } else if s[i] == '/' && regex_allowed(p) {
        (skip_regex(s, i + 1), false)
    } else {
        (i + 1, false)
    }
}

/// Removes the comments of JavaScript source. Every `'\n'` inside a removed
/// comment stays; string, template and regex literals are copied unchanged.
pub fn remove_js_comments(input: &str) -> (r: String)
    ensures
        r@ == js_strip(input@),
{
    let s = chars_of(input);
    let mut out: Vec<char> = Vec::new();
    let mut i: usize = 0;
    proof {
        assert(out@ =~= Seq::<char>::empty());
    }
    while i < s.len()
        invariant
            i <= s@.len(),
            out@ + js_strip_from(s@, i as int, out@) == js_strip(s@),
        decreases s@.len() - i,
    {
        let (e, comment) = js_next_token(&s, i, &out);
        proof {
            lemma_js_token_bounds(s@, i as int, out@);
        }
        let ghost before = out@;
        emit_token(&s, &mut out, i, e, comment);
        proof {
            assert(before + js_strip_from(s@, i as int, before) == out@ + js_strip_from(
                s@,
                e as int,
                out@,
            ));
        }
        i = e;
    }
    string_of(&out)
}

/// A template literal whose text starts at `k`, `depth` braces deep, is closed by
/// its backtick within `s`.
pub open spec fn template_closes(s: Seq<char>, k: int, depth: int) -> bool
    decreases s.len() - k,
{
    if !(0 <= k < s.len()) {
        false
    } else if depth <= 0 {
        if s[k] == '\\' && k + 1 < s.len() {
            template_closes(s, k + 2, 0)
        } else if s[k] == '`' {
            true
        } else if s[k] == '$' && k + 1 < s.len() && s[k + 1] == '{' {
            template_closes(s, k + 2, 1)
        } else {
            template_closes(s, k + 1, 0)
        }
    } else if s[k] == '{' {
        template_closes(s, k + 1, depth + 1)
    } else if s[k] == '}' {
        template_closes(s, k + 1, depth - 1)
    } else {
        template_closes(s, k + 1, depth)
    }
}

/// A regex literal whose pattern starts at `k` is closed by an unescaped `/` within `s`.
pub open spec fn regex_closes(s: Seq<char>, k: int) -> bool
    decreases s.len() - k,
{
    if !(0 <= k < s.len()) {
        false
    } else if s[k] == '\\' && k + 1 < s.len() {
        regex_closes(s, k + 2)
    } else if s[k] == '/' {
        true
    } else {
        regex_closes(s, k + 1)
    }
}

/// The piece read at `i` after the output `p` is closed by its own terminator within `s`.
pub open spec fn js_token_closes(s: Seq<char>, i: int, p: Seq<char>) -> bool {
    if s[i] == '"' || s[i] == '\'' {
        quoted_closes(s, i + 1, s[i])
    } else if s[i] == '`' {
        template_closes(s, i + 1, 0)
    } else if s[i] == '/' && i + 1 < s.len() && s[i + 1] == '/' {
        line_end(s, i + 2) < s.len()
    } else if s[i] == '/' && i + 1 < s.len() && s[i + 1] == '*' {
        block_comment_closes(s, i + 2)
    } else if s[i] == '/' && regex_allowed_after(p) {
        regex_closes(s, i + 1)
    } else {
        true
    }
}

/// Scanning `s` from `i`, after the output `p`, ends in code: every piece read is
/// closed by its own terminator, none is cut short by the end of the input.
pub open spec fn js_settles_from(s: Seq<char>, i: int, p: Seq<char>) -> bool
    decreases s.len() - i,
{
    if 0 <= i < s.len() {
        let (e, comment) = js_token(s, i, p);
        proof {
            lemma_js_token_bounds(s, i, p);
        }
        js_token_closes(s, i, p) && js_settles_from(s, e, p + token_output(s, i, e, comment))
    } else {
        true
    }
}

pub proof fn lemma_template_end_extend(a: Seq<char>, r: Seq<char>, k: int, depth: int)
    requires
        0 <= k,
        template_closes(a, k, depth),
    ensures
        template_end(a + r, k, depth) == template_end(a, k, depth),
    decreases a.len() - k,
{
    assert((a + r)[k] == a[k]);
    if k + 1 < a.len() {
        assert((a + r)[k + 1] == a[k + 1]);
    } else {
        assert(!template_closes(a, k + 1, 0));
    }
    if depth <= 0 {
        if a[k] == '\\' && k + 1 < a.len() {
            lemma_template_end_extend(a, r, k + 2, 0);
        } else if a[k] == '`' {
        } else if a[k] == '$' && k + 1 < a.len() && a[k + 1] == '{' {
            lemma_template_end_extend(a, r, k + 2, 1);
        } else {
            lemma_template_end_extend(a, r, k + 1, 0);
        }
    } else if a[k] == '{' {
        lemma_template_end_extend(a, r, k + 1, depth + 1);
    } else if a[k] == '}' {
        lemma_template_end_extend(a, r, k + 1, depth - 1);
    } else {
        lemma_template_end_extend(a, r, k + 1, depth);
    }
}

pub proof fn lemma_regex_flags_end_extend(a: Seq<char>, r: Seq<char>, k: int)
    requires
        0 <= k <= a.len(),
        r.len() > 0 ==> !is_regex_flag(r[0]),
    ensures
        regex_flags_end(a + r, k) == regex_flags_end(a, k),
    decreases a.len() - k,
{
    if k < a.len() {
        assert((a + r)[k] == a[k]);
        if is_regex_flag(a[k]) {
            lemma_regex_flags_end_extend(a, r, k + 1);
        }
    } else if r.len() > 0 {
        assert((a + r)[k] == r[0]);
    }
}

pub proof fn lemma_regex_end_extend(a: Seq<char>, r: Seq<char>, k: int)
    requires
        0 <= k,
        regex_closes(a, k),
        r.len() > 0 ==> !is_regex_flag(r[0]),
    ensures
        regex_end(a + r, k) == regex_end(a, k),
    decreases a.len() - k,
{
    assert((a + r)[k] == a[k]);
    if k + 1 < a.len() {
        assert((a + r)[k + 1] == a[k + 1]);
    } else {
        assert(!regex_closes(a, k + 1));
    }
    if a[k] == '\\' && k + 1 < a.len() {
        lemma_regex_end_extend(a, r, k + 2);
    } else if a[k] == '/' {
        lemma_regex_flags_end_extend(a, r, k + 1);
    } else {
        lemma_regex_end_extend(a, r, k + 1);
    }
}

/// Reading `a + r` from `i`, after the output `p`, gives the output of reading `a`
/// from `i`, then what `a + r` gives from the end of `a` after all that output,
/// when `a` settles and `r` does not open with `/`, `*` or a regex flag.
pub proof fn lemma_js_strip_prefix(a: Seq<char>, r: Seq<char>, i: int, p: Seq<char>)
    requires
        0 <= i <= a.len(),
        js_settles_from(a, i, p),
        r.len() > 0 ==> r[0] != '/' && r[0] != '*' && !is_regex_flag(r[0]),
    ensures
        js_strip_from(a + r, i, p) == js_strip_from(a, i, p) + js_strip_from(
            a + r,
            a.len() as int,
            p + js_strip_from(a, i, p),
        ),
    decreases a.len() - i,
{
    let s = a + r;
    let n = a.len() as int;
    if i < n {
        lemma_js_token_bounds(a, i, p);
        let (e, comment) = js_token(a, i, p);
        assert(s[i] == a[i]);
        if i + 1 < n {
            assert(s[i + 1] == a[i + 1]);
        } else if r.len() > 0 {
            assert(s[i + 1] == r[0]);
        }
        if a[i] == '"' || a[i] == '\'' {
            lemma_quoted_end_extend(a, r, i + 1, a[i]);
        } else if a[i] == '`' {
            lemma_template_end_extend(a, r, i + 1, 0);
        } else if a[i] == '/' && i + 1 < n && a[i + 1] == '/' {
            lemma_line_end_bounds(a, i + 2);
            lemma_line_end_extend(a, r, i + 2);
        } else if a[i] == '/' && i + 1 < n && a[i + 1] == '*' {
            lemma_block_comment_end_extend(a, r, i + 2);
        } else if a[i] == '/' && regex_allowed_after(p) {
            lemma_regex_end_extend(a, r, i + 1);
        }
        assert(js_token(s, i, p) == js_token(a, i, p));
        lemma_js_token_bounds(s, i, p);
        let piece = token_output(a, i, e, comment);
        assert(s.subrange(i, e) =~= a.subrange(i, e));
        assert(token_output(s, i, e, comment) == piece);
        lemma_js_strip_prefix(a, r, e, p + piece);
        let rest_a = js_strip_from(a, e, p + piece);
        assert(p + piece + rest_a =~= p + (piece + rest_a));
        let tail = js_strip_from(s, n, p + (piece + rest_a));
        assert(piece + (rest_a + tail) =~= (piece + rest_a) + tail);
    } else {
        assert(p + Seq::<char>::empty() =~= p);
        assert(Seq::<char>::empty() + js_strip_from(s, n, p) =~= js_strip_from(s, n, p));
    }
}

/// `x` can stand inside a template literal with no escape and no `${` region: it
/// holds no backtick, no backslash, and no `$` before a `{`.
pub open spec fn plain_template_text(x: Seq<char>) -> bool {
    forall|j: int|
        0 <= j < x.len() ==> #[trigger] x[j] != '`' && x[j] != '\\' && !(x[j] == '$' && j + 1
            < x.len() && x[j + 1] == '{')
}

/// A template literal whose text `x` is plain ends just past the backtick after it.
pub proof fn lemma_template_end_of_text(s: Seq<char>, k: int, x: Seq<char>)
    requires
        0 <= k,
        k + x.len() < s.len(),
        s.subrange(k, k + x.len()) == x,
        s[k + x.len()] == '`',
        plain_template_text(x),
    ensures
        template_end(s, k, 0) == k + x.len() + 1,
    decreases x.len(),
{
    if x.len() > 0 {
        assert(s[k] == x[0]);
        assert(x[0] != '`' && x[0] != '\\');
        if x.len() > 1 {
            assert(s[k + 1] == x[1]);
        }
        assert(s.subrange(k + 1, k + x.len()) =~= x.skip(1));
        assert forall|j: int| 0 <= j < x.skip(1).len() implies #[trigger] x.skip(1)[j] != '`'
            && x.skip(1)[j] != '\\' && !(x.skip(1)[j] == '$' && j + 1 < x.skip(1).len() && x.skip(
            1,
        )[j + 1] == '{') by {
            assert(x.skip(1)[j] == x[j + 1]);
            assert(x[j + 1] != '`');
            if j + 1 < x.skip(1).len() {
                assert(x.skip(1)[j + 1] == x[j + 2]);
            }
        }
        lemma_template_end_of_text(s, k + 1, x.skip(1));
    }
}

/// A template literal put after a text is copied whole and unchanged, whatever
/// comment markers it holds, right after that text's own output: when scanning
/// the first text alone ends in code, the output is the first text's output, the
/// literal, then what the rest gives after them.
pub proof fn lemma_js_template_after(a: Seq<char>, x: Seq<char>, b: Seq<char>)
    requires
        js_settles_from(a, 0, Seq::empty()),
        plain_template_text(x),
    ensures
        ({
            let lit = seq!['`'] + x + seq!['`'];
            let s = a + lit + b;
            js_strip(s) == js_strip(a) + lit + js_strip_from(
                s,
                (a.len() + lit.len()) as int,
                js_strip(a) + lit,
            )
        }),
{
    let lit = seq!['`'] + x + seq!['`'];
    let r = lit + b;
    let s = a + r;
    let n = a.len() as int;
    assert(a + lit + b =~= s);
    assert(r[0] == '`');
    lemma_js_strip_prefix(a, r, 0, Seq::empty());
    assert(Seq::<char>::empty() + js_strip(a) =~= js_strip(a));
    let pa = js_strip(a);
    assert(s[n] == '`');
    assert(s.subrange(n + 1, n + 1 + x.len() as int) =~= x);
    assert(s[n + 1 + x.len() as int] == '`');
    lemma_template_end_of_text(s, n + 1, x);
    let e = n + lit.len();
    assert(js_token(s, n, pa) == (e, false));
    lemma_js_token_bounds(s, n, pa);
    assert(s.subrange(n, e) =~= lit);
    assert(js_strip_from(s, n, pa) == lit + js_strip_from(s, e, pa + lit));
    assert(pa + (lit + js_strip_from(s, e, pa + lit)) =~= pa + lit + js_strip_from(s, e, pa + lit));
}

} // verus!
