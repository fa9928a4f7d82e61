//! The markup engine for XML and HTML: `<!-- -->` comments are replaced by the
//! newlines they held; CDATA sections, tags with their quoted attribute values,
//! processing instructions and declarations are copied unchanged; the bodies of
//! `script` and `style` elements keep their quoted strings and CDATA sections,
//! and lose their markup comments.
use vstd::prelude::*;
use crate::literal::{
    lemma_quoted_end_bounds, lemma_quoted_end_extend, lemma_quoted_end_shift, quoted_closes,
    quoted_end, skip_quoted,
};
use crate::text::{
    chars_of, emit_token, lemma_step_newlines, lemma_step_unchanged, lemma_token_output_newlines,
    newline_count, string_of, token_output,
};

verus! {

/// Where the markup engine stands: in markup, or in the body of a `script` or a
/// `style` element.
#[derive(Clone, Copy, PartialEq, Eq, Structural)]
pub enum MarkupMode {
    Markup,
    Script,
    Style,
}

/// `c` is the letter written `lower` or `upper`.
pub open spec fn is_letter(c: char, lower: char, upper: char) -> bool {
    c == lower || c == upper
}

/// `<!--` at `i`.
pub open spec fn comment_opens(s: Seq<char>, i: int) -> bool {
    i + 3 < s.len() && s[i] == '<' && s[i + 1] == '!' && s[i + 2] == '-' && s[i + 3] == '-'
}

/// `<![CDATA[` at `i`.
pub open spec fn cdata_opens(s: Seq<char>, i: int) -> bool {
    &&& i + 8 < s.len()
    &&& s[i] == '<' && s[i + 1] == '!' && s[i + 2] == '[' && s[i + 3] == 'C'
    &&& s[i + 4] == 'D' && s[i + 5] == 'A' && s[i + 6] == 'T' && s[i + 7] == 'A'
    &&& s[i + 8] == '['
}

/// `<script` in any case, then `>` or a space, at `i`.
pub open spec fn script_opens(s: Seq<char>, i: int) -> bool {
    &&& i + 7 < s.len()
    &&& s[i] == '<' && is_letter(s[i + 1], 's', 'S') && is_letter(s[i + 2], 'c', 'C')
    &&& is_letter(s[i + 3], 'r', 'R') && is_letter(s[i + 4], 'i', 'I')
    &&& is_letter(s[i + 5], 'p', 'P') && is_letter(s[i + 6], 't', 'T')
    &&& (s[i + 7] == '>' || s[i + 7] == ' ')
}

/// `<style` in any case, then `>` or a space, at `i`.
pub open spec fn style_opens(s: Seq<char>, i: int) -> bool {
    &&& i + 6 < s.len()
    &&& s[i] == '<' && is_letter(s[i + 1], 's', 'S') && is_letter(s[i + 2], 't', 'T')
    &&& is_letter(s[i + 3], 'y', 'Y') && is_letter(s[i + 4], 'l', 'L')
    &&& is_letter(s[i + 5], 'e', 'E')
    &&& (s[i + 6] == '>' || s[i + 6] == ' ')
}

/// `</script>` in any case at `i`.
pub open spec fn script_closes(s: Seq<char>, i: int) -> bool {
    &&& i + 8 < s.len()
    &&& s[i] == '<' && s[i + 1] == '/' && is_letter(s[i + 2], 's', 'S')
    &&& is_letter(s[i + 3], 'c', 'C') && is_letter(s[i + 4], 'r', 'R')
    &&& is_letter(s[i + 5], 'i', 'I') && is_letter(s[i + 6], 'p', 'P')
    &&& is_letter(s[i + 7], 't', 'T') && s[i + 8] == '>'
}

/// `</style>` in any case at `i`.
pub open spec fn style_closes(s: Seq<char>, i: int) -> bool {
    &&& i + 7 < s.len()
    &&& s[i] == '<' && s[i + 1] == '/' && is_letter(s[i + 2], 's', 'S')
    &&& is_letter(s[i + 3], 't', 'T') && is_letter(s[i + 4], 'y', 'Y')
    &&& is_letter(s[i + 5], 'l', 'L') && is_letter(s[i + 6], 'e', 'E') && s[i + 7] == '>'
}

/// A tag (an element's, a script's or a style's) opens at `i`: `<` followed by a
/// char other than `!` and `?`.
pub open spec fn tag_opens(s: Seq<char>, i: int) -> bool {
    s[i] == '<' && i + 1 < s.len() && s[i + 1] != '!' && s[i + 1] != '?'
}

/// The index just past the first `-->` at or after `k`, or the end of the input:
/// markup comments do not nest.
pub open spec fn markup_comment_end(s: Seq<char>, k: int) -> int
    decreases s.len() - k,
{
    if k >= s.len() {
        s.len() as int
    } else if k + 2 < s.len() && s[k] == '-' && s[k + 1] == '-' && s[k + 2] == '>' {
        k + 3
    } else {
        markup_comment_end(s, k + 1)
    }
}

/// The index just past the first `]]>` at or after `k`, or the end of the input.
pub open spec fn cdata_end(s: Seq<char>, k: int) -> int
    decreases s.len() - k,
{
    if k >= s.len() {
        s.len() as int
    } else if k + 2 < s.len() && s[k] == ']' && s[k + 1] == ']' && s[k + 2] == '>' {
        k + 3
    } else {
        cdata_end(s, k + 1)
    }
}

/// The index just past the `>` that closes a tag whose text goes on at `k`;
/// quoted attribute values are passed over whole. Without it, the end of the input.
pub open spec fn tag_end(s: Seq<char>, k: int) -> int
    decreases s.len() - k,
{
    if !(0 <= k < s.len()) {
        s.len() as int
    } else if s[k] == '>' {
        k + 1
    } else if s[k] == '"' || s[k] == '\'' {
        proof {
            lemma_quoted_end_bounds(s, k + 1, s[k]);
        }
        tag_end(s, quoted_end(s, k + 1, s[k]))
    } else {
        tag_end(s, k + 1)
    }
}

/// The index just past the first `?>` at or after `k`, or the end of the input.
pub open spec fn instruction_end(s: Seq<char>, k: int) -> int
    decreases s.len() - k,
{
    if k >= s.len() {
        s.len() as int
    } else if s[k] == '?' && k + 1 < s.len() && s[k + 1] == '>' {
        k + 2
    } else {
        instruction_end(s, k + 1)
    }
}

/// The index just past the first `>` at or after `k`, or the end of the input.
pub open spec fn declaration_end(s: Seq<char>, k: int) -> int
    decreases s.len() - k,
{
    if k >= s.len() {
        s.len() as int
    } else if s[k] == '>' {
        k + 1
    } else {
        declaration_end(s, k + 1)
    }
}

/// The piece that starts at `i` in mode `m`: its end, whether it is a comment,
/// and the mode after it.
pub open spec fn xml_token(s: Seq<char>, i: int, m: MarkupMode) -> (int, bool, MarkupMode) {
    if comment_opens(s, i) {
        (markup_comment_end(s, i + 4), true, m)
    } else if cdata_opens(s, i) {
        (cdata_end(s, i + 9), false, m)
    } else if m == MarkupMode::Markup {
        if script_opens(s, i) {
            (tag_end(s, i + 1), false, MarkupMode::Script)
        } else if style_opens(s, i) {
            (tag_end(s, i + 1), false, MarkupMode::Style)
        } else if tag_opens(s, i) {
            (tag_end(s, i + 1), false, m)
        } else if s[i] == '<' && i + 1 < s.len() && s[i + 1] == '?' {
            (instruction_end(s, i + 2), false, m)
        } else if s[i] == '<' && i + 1 < s.len() && s[i + 1] == '!' {
            (declaration_end(s, i + 1), false, m)
        } else {
            (i + 1, false, m)
        }
    } else if m == MarkupMode::Script && script_closes(s, i) {
        (i + 9, false, MarkupMode::Markup)
    } else if m == MarkupMode::Style && style_closes(s, i) {
        (i + 8, false, MarkupMode::Markup)
    } else if s[i] == '"' || s[i] == '\'' {
        (quoted_end(s, i + 1, s[i]), false, m)
    } else {
        (i + 1, false, m)
    }
}

/// The output of the markup engine for the input `s[i..]`, starting in mode `m`.
pub open spec fn xml_strip_from(s: Seq<char>, i: int, m: MarkupMode) -> Seq<char>
    decreases s.len() - i,
{
    if 0 <= i < s.len() {
        let (e, comment, next) = xml_token(s, i, m);
        proof {
            lemma_xml_token_bounds(s, i, m);
        }
        token_output(s, i, e, comment) + xml_strip_from(s, e, next)
    } else {
        Seq::empty()
    }
}

/// The output of the markup engine for the input `s`.
pub open spec fn xml_strip(s: Seq<char>) -> Seq<char> {
    xml_strip_from(s, 0, MarkupMode::Markup)
}

/// No piece that the markup engine reads in `s[i..]`, starting in mode `m`, is a comment.
pub open spec fn xml_comment_free_from(s: Seq<char>, i: int, m: MarkupMode) -> bool
    decreases s.len() - i,
{
    if 0 <= i < s.len() {
        let (e, comment, next) = xml_token(s, i, m);
        proof {
            lemma_xml_token_bounds(s, i, m);
        }
        !comment && xml_comment_free_from(s, e, next)
    } else {
        true
    }
}

/// A literal opens at `k` in mode `m`: a CDATA section anywhere; in markup, a tag
/// with its attribute values; in a script or style body, a quoted string.
pub open spec fn xml_literal_opens(s: Seq<char>, k: int, m: MarkupMode) -> bool {
    ||| cdata_opens(s, k)
    ||| (m == MarkupMode::Markup && tag_opens(s, k))
    ||| (m != MarkupMode::Markup && (s[k] == '"' || s[k] == '\''))
}

/// The index just past the literal that opens at `k` in mode `m`.
pub open spec fn xml_literal_end(s: Seq<char>, k: int, m: MarkupMode) -> int {
    if cdata_opens(s, k) {
        cdata_end(s, k + 9)
    } else if m == MarkupMode::Markup {
        tag_end(s, k + 1)
    } else {
        quoted_end(s, k + 1, s[k])
    }
}

pub proof fn lemma_markup_comment_end_bounds(s: Seq<char>, k: int)
    requires
        0 <= k <= s.len(),
    ensures
        k <= markup_comment_end(s, k) <= s.len(),
    decreases s.len() - k,
{
    if k < s.len() && !(k + 2 < s.len() && s[k] == '-' && s[k + 1] == '-' && s[k + 2] == '>') {
        lemma_markup_comment_end_bounds(s, k + 1);
    }
}

pub proof fn lemma_cdata_end_bounds(s: Seq<char>, k: int)
    requires
        0 <= k <= s.len(),
    ensures
        k <= cdata_end(s, k) <= s.len(),
    decreases s.len() - k,
{
    if k < s.len() && !(k + 2 < s.len() && s[k] == ']' && s[k + 1] == ']' && s[k + 2] == '>') {
        lemma_cdata_end_bounds(s, k + 1);
    }
}

pub proof fn lemma_tag_end_bounds(s: Seq<char>, k: int)
    requires
        0 <= k <= s.len(),
    ensures
        k <= tag_end(s, k) <= s.len(),
    decreases s.len() - k,
{
    if k < s.len() && s[k] != '>' {
        if s[k] == '"' || s[k] == '\'' {
            lemma_quoted_end_bounds(s, k + 1, s[k]);
            lemma_tag_end_bounds(s, quoted_end(s, k + 1, s[k]));
        } else {
            lemma_tag_end_bounds(s, k + 1);
        }
    }
}

pub proof fn lemma_instruction_end_bounds(s: Seq<char>, k: int)
    requires
        0 <= k <= s.len(),
    ensures
        k <= instruction_end(s, k) <= s.len(),
    decreases s.len() - k,
{
    if k < s.len() && !(s[k] == '?' && k + 1 < s.len() && s[k + 1] == '>') {
        lemma_instruction_end_bounds(s, k + 1);
    }
}

pub proof fn lemma_declaration_end_bounds(s: Seq<char>, k: int)
    requires
        0 <= k <= s.len(),
    ensures
        k <= declaration_end(s, k) <= s.len(),
    decreases s.len() - k,
{
    if k < s.len() && s[k] != '>' {
        lemma_declaration_end_bounds(s, k + 1);
    }
}

pub proof fn lemma_xml_token_bounds(s: Seq<char>, i: int, m: MarkupMode)
    requires
        0 <= i < s.len(),
    ensures
        i < xml_token(s, i, m).0 <= s.len(),
{
    if i + 4 <= s.len() {
        lemma_markup_comment_end_bounds(s, i + 4);
    }
    if i + 9 <= s.len() {
        lemma_cdata_end_bounds(s, i + 9);
    }
    if i + 1 < s.len() {
        lemma_tag_end_bounds(s, i + 1);
    }
    if i + 2 <= s.len() {
        lemma_instruction_end_bounds(s, i + 2);
    }
    lemma_declaration_end_bounds(s, i + 1);
    lemma_quoted_end_bounds(s, i + 1, s[i]);
}

/// The markup engine keeps every line: the output has as many `'\n'` as the input.
pub proof fn lemma_xml_keeps_newlines(s: Seq<char>)
    ensures
        newline_count(xml_strip(s)) == newline_count(s),
{
    lemma_xml_keeps_newlines_from(s, 0, MarkupMode::Markup);
    assert(s.subrange(0, s.len() as int) =~= s);
}

pub proof fn lemma_xml_keeps_newlines_from(s: Seq<char>, i: int, m: MarkupMode)
    requires
        0 <= i <= s.len(),
    ensures
        newline_count(xml_strip_from(s, i, m)) == newline_count(s.subrange(i, s.len() as int)),
    decreases s.len() - i,
{
    if i < s.len() {
        let (e, comment, next) = xml_token(s, i, m);
        lemma_xml_token_bounds(s, i, m);
        lemma_xml_keeps_newlines_from(s, e, next);
        lemma_token_output_newlines(s, i, e, comment);
        lemma_step_newlines(s, i, e, token_output(s, i, e, comment), xml_strip_from(s, e, next));
    } else {
        assert(s.subrange(i, s.len() as int).len() == 0);
    }
}

/// Reading `s` from `i` in mode `m` comes to stand at `k`, between two pieces.
pub open spec fn xml_reaches(s: Seq<char>, i: int, m: MarkupMode, k: int) -> bool
    decreases s.len() - i,
{
    if 0 <= i < s.len() && i < k {
        let (e, comment, next) = xml_token(s, i, m);
        proof {
            lemma_xml_token_bounds(s, i, m);
        }
        xml_reaches(s, e, next, k)
    } else {
        i == k
    }
}

/// The mode in which reading `s` from `i` in mode `m` stands at `k`.
pub open spec fn xml_mode_at(s: Seq<char>, i: int, m: MarkupMode, k: int) -> MarkupMode
    decreases s.len() - i,
{
    if 0 <= i < s.len() && i < k {
        let (e, comment, next) = xml_token(s, i, m);
        proof {
            lemma_xml_token_bounds(s, i, m);
        }
        xml_mode_at(s, e, next, k)
    } else {
        m
    }
}

/// The output of the pieces read from `i` up to `k`, starting in mode `m`.
pub open spec fn xml_output_between(s: Seq<char>, i: int, m: MarkupMode, k: int) -> Seq<char>
    decreases s.len() - i,
{
    if 0 <= i < s.len() && i < k {
        let (e, comment, next) = xml_token(s, i, m);
        proof {
            lemma_xml_token_bounds(s, i, m);
        }
        token_output(s, i, e, comment) + xml_output_between(s, e, next, k)
    } else {
        Seq::empty()
    }
}

/// Where the reading comes to stand, the output splits: what was read before,
/// then the output of the rest, read in the mode reached.
pub proof fn lemma_xml_output_splits(s: Seq<char>, i: int, m: MarkupMode, k: int)
    requires
        0 <= i,
        xml_reaches(s, i, m, k),
    ensures
        xml_strip_from(s, i, m) == xml_output_between(s, i, m, k) + xml_strip_from(
            s,
            k,
            xml_mode_at(s, i, m, k),
        ),
    decreases s.len() - i,
{
    if 0 <= i < s.len() && i < k {
        let (e, comment, next) = xml_token(s, i, m);
        lemma_xml_token_bounds(s, i, m);
        lemma_xml_output_splits(s, e, next, k);
        let rest = xml_strip_from(s, k, xml_mode_at(s, e, next, k));
        assert(token_output(s, i, e, comment) + (xml_output_between(s, e, next, k) + rest)
            =~= (token_output(s, i, e, comment) + xml_output_between(s, e, next, k)) + rest);
    } else {
        assert(Seq::<char>::empty() + xml_strip_from(s, k, m) =~= xml_strip_from(s, k, m));
    }
}

/// A CDATA section, a tag with its attribute values, or a quoted string in a
/// script or style body, met where the markup engine reads, is copied whole and
/// unchanged into the output, whatever `<!--` it holds; reading goes on after it.
pub proof fn lemma_xml_literal_unchanged(s: Seq<char>, k: int)
    requires
        xml_reaches(s, 0, MarkupMode::Markup, k),
        0 <= k < s.len(),
        xml_literal_opens(s, k, xml_mode_at(s, 0, MarkupMode::Markup, k)),
    ensures
        ({
            let m = xml_mode_at(s, 0, MarkupMode::Markup, k);
            let e = xml_literal_end(s, k, m);
            xml_strip(s) == xml_output_between(s, 0, MarkupMode::Markup, k) + s.subrange(k, e)
                + xml_strip_from(s, e, xml_token(s, k, m).2)
        }),
{
    let m = xml_mode_at(s, 0, MarkupMode::Markup, k);
    let before = xml_output_between(s, 0, MarkupMode::Markup, k);
    lemma_xml_output_splits(s, 0, MarkupMode::Markup, k);
    let (e, comment, next) = xml_token(s, k, m);
    assert(before + (s.subrange(k, e) + xml_strip_from(s, e, next)) =~= before + s.subrange(k, e)
        + xml_strip_from(s, e, next));
}

/// Input in which the markup engine reads no comment comes out unchanged.
pub proof fn lemma_xml_comment_free_unchanged(s: Seq<char>)
    requires
        xml_comment_free_from(s, 0, MarkupMode::Markup),
    ensures
        xml_strip(s) == s,
{
    lemma_xml_comment_free_unchanged_from(s, 0, MarkupMode::Markup);
    assert(s.subrange(0, s.len() as int) =~= s);
}

pub proof fn lemma_xml_comment_free_unchanged_from(s: Seq<char>, i: int, m: MarkupMode)
    requires
        0 <= i <= s.len(),
        xml_comment_free_from(s, i, m),
    ensures
        xml_strip_from(s, i, m) == s.subrange(i, s.len() as int),
    decreases s.len() - i,
{
    if i < s.len() {
        let (e, comment, next) = xml_token(s, i, m);
        lemma_xml_token_bounds(s, i, m);
        lemma_xml_comment_free_unchanged_from(s, e, next);
        lemma_step_unchanged(s, i, e, xml_strip_from(s, e, next));
    } else {
        assert(s.subrange(i, s.len() as int) =~= Seq::<char>::empty());
    }
}

/// Whether `c` is the letter written `lower` or `upper`.
fn letter(c: char, lower: char, upper: char) -> (r: bool)
    ensures
        r == is_letter(c, lower, upper),
{
    c == lower || c == upper
}

/// Whether `<!--` is at `i`.
fn at_comment(s: &Vec<char>, i: usize) -> (r: bool)
    requires
        i < s@.len(),
    ensures
        r == comment_opens(s@, i as int),
{
    s.len() - i > 3 && s[i] == '<' && s[i + 1] == '!' && s[i + 2] == '-' && s[i + 3] == '-'
}

/// Whether `<![CDATA[` is at `i`.
fn at_cdata(s: &Vec<char>, i: usize) -> (r: bool)
    requires
        i < s@.len(),
    ensures
        r == cdata_opens(s@, i as int),
{
    s.len() - i > 8 && s[i] == '<' && s[i + 1] == '!' && s[i + 2] == '[' && s[i + 3] == 'C' && s[i
        + 4] == 'D' && s[i + 5] == 'A' && s[i + 6] == 'T' && s[i + 7] == 'A' && s[i + 8] == '['
}

/// Whether a `script` start tag opens at `i`.
fn at_script_open(s: &Vec<char>, i: usize) -> (r: bool)
    requires
        i < s@.len(),
    ensures
        r == script_opens(s@, i as int),
{
    s.len() - i > 7 && s[i] == '<' && letter(s[i + 1], 's', 'S') && letter(s[i + 2], 'c', 'C')
        && letter(s[i + 3], 'r', 'R') && letter(s[i + 4], 'i', 'I') && letter(s[i + 5], 'p', 'P')
        && letter(s[i + 6], 't', 'T') && (s[i + 7] == '>' || s[i + 7] == ' ')
}

/// Whether a `style` start tag opens at `i`.
fn at_style_open(s: &Vec<char>, i: usize) -> (r: bool)
    requires
        i < s@.len(),
    ensures
        r == style_opens(s@, i as int),
{
    s.len() - i > 6 && s[i] == '<' && letter(s[i + 1], 's', 'S') && letter(s[i + 2], 't', 'T')
        && letter(s[i + 3], 'y', 'Y') && letter(s[i + 4], 'l', 'L') && letter(s[i + 5], 'e', 'E')
        && (s[i + 6] == '>' || s[i + 6] == ' ')
}

/// Whether `</script>` is at `i`.
fn at_script_close(s: &Vec<char>, i: usize) -> (r: bool)
    requires
        i < s@.len(),
    ensures
        r == script_closes(s@, i as int),
{
    s.len() - i > 8 && s[i] == '<' && s[i + 1] == '/' && letter(s[i + 2], 's', 'S') && letter(
        s[i + 3],
        'c',
        'C',
    ) && letter(s[i + 4], 'r', 'R') && letter(s[i + 5], 'i', 'I') && letter(s[i + 6], 'p', 'P')
        && letter(s[i + 7], 't', 'T') && s[i + 8] == '>'
}

/// Whether `</style>` is at `i`.
fn at_style_close(s: &Vec<char>, i: usize) -> (r: bool)
    requires
        i < s@.len(),
    ensures
        r == style_closes(s@, i as int),
{
    s.len() - i > 7 && s[i] == '<' && s[i + 1] == '/' && letter(s[i + 2], 's', 'S') && letter(
        s[i + 3],
        't',
        'T',
    ) && letter(s[i + 4], 'y', 'Y') && letter(s[i + 5], 'l', 'L') && letter(s[i + 6], 'e', 'E')
        && s[i + 7] == '>'
}

/// The index just past the first `-->` at or after `k` (see `markup_comment_end`).
fn skip_markup_comment(s: &Vec<char>, k: usize) -> (r: usize)
    requires
        k <= s@.len(),
    ensures
        r == markup_comment_end(s@, k as int),
{
    let n = s.len();
    let mut j: usize = k;
    while j < n
        invariant
            n == s@.len(),
            k <= j <= n,
            markup_comment_end(s@, j as int) == markup_comment_end(s@, k as int),
        decreases n - j,
    {
        if n - j > 2 && s[j] == '-' && s[j + 1] == '-' && s[j + 2] == '>' {
            return j + 3;
        }
        j += 1;
    }
    j
}

/// The index just past the first `]]>` at or after `k` (see `cdata_end`).
fn skip_cdata(s: &Vec<char>, k: usize) -> (r: usize)
    requires
        k <= s@.len(),
    ensures
        r == cdata_end(s@, k as int),
{
    let n = s.len();
    let mut j: usize = k;
    while j < n
        invariant
            n == s@.len(),
            k <= j <= n,
            cdata_end(s@, j as int) == cdata_end(s@, k as int),
        decreases n - j,
    {
        if n - j > 2 && s[j] == ']' && s[j + 1] == ']' && s[j + 2] == '>' {
            return j + 3;
        }
        j += 1;
    }
    j
}

/// The index just past the `>` that closes a tag whose text goes on at `k` (see
/// `tag_end`).
fn skip_tag(s: &Vec<char>, k: usize) -> (r: usize)
    requires
        k <= s@.len(),
    ensures
        r == tag_end(s@, k as int),
{
    let n = s.len();
    let mut j: usize = k;
    while j < n
        invariant
            n == s@.len(),
            k <= j <= n,
            tag_end(s@, j as int) == tag_end(s@, k as int),
        decreases n - j,
    {
        if s[j] == '>' {
            return j + 1;
        }
        if s[j] == '"' || s[j] == '\'' {
            j = skip_quoted(s, j + 1, s[j]);
        } else {
            j += 1;
        }
    }
    j
}

/// The index just past the first `?>` at or after `k` (see `instruction_end`).
fn skip_instruction(s: &Vec<char>, k: usize) -> (r: usize)
    requires
        k <= s@.len(),
    ensures
        r == instruction_end(s@, k as int),
{
    let n = s.len();
    let mut j: usize = k;
    while j < n
        invariant
            n == s@.len(),
            k <= j <= n,
            instruction_end(s@, j as int) == instruction_end(s@, k as int),
        decreases n - j,
    {
        if s[j] == '?' && j + 1 < n && s[j + 1] == '>' {
            return j + 2;
        }
        j += 1;
    }
    j
}

/// The index just past the first `>` at or after `k` (see `declaration_end`).
fn skip_declaration(s: &Vec<char>, k: usize) -> (r: usize)
    requires
        k <= s@.len(),
    ensures
        r == declaration_end(s@, k as int),
{
    let n = s.len();
    let mut j: usize = k;
    while j < n
        invariant
            n == s@.len(),
            k <= j <= n,
            declaration_end(s@, j as int) == declaration_end(s@, k as int),
        decreases n - j,
    {
        if s[j] == '>' {
            return j + 1;
        }
        j += 1;
    }
    j
}

/// Reads the piece that starts at `i` in mode `m` (see `xml_token`).
fn xml_next_token(s: &Vec<char>, i: usize, m: MarkupMode) -> (r: (usize, bool, MarkupMode))
    requires
        i < s@.len(),
    ensures
        r.0 == xml_token(s@, i as int, m).0,
        r.1 == xml_token(s@, i as int, m).1,
        r.2 == xml_token(s@, i as int, m).2,
{
    let n = s.len();
    if at_comment(s, i) {
        return (skip_markup_comment(s, i + 4), true, m);
    }
    if at_cdata(s, i) {
        return (skip_cdata(s, i + 9), false, m);
    }
    match m {
        MarkupMode::Markup => {
            if at_script_open(s, i) {
                (skip_tag(s, i + 1), false, MarkupMode::Script)
            } else if at_style_open(s, i) {
                (skip_tag(s, i + 1), false, MarkupMode::Style)
            } else if s[i] == '<' && i + 1 < n && s[i + 1] != '!' && s[i + 1] != '?' {
                (skip_tag(s, i + 1), false, m)
            } else if s[i] == '<' && i + 1 < n && s[i + 1] == '?' {
                (skip_instruction(s, i + 2), false, m)
            } else if s[i] == '<' && i + 1 < n && s[i + 1] == '!' {
                (skip_declaration(s, i + 1), false, m)
            } else {
                (i + 1, false, m)
            }
        },
        MarkupMode::Script if at_script_close(s, i) => (i + 9, false, MarkupMode::Markup),
        MarkupMode::Style if at_style_close(s, i) => (i + 8, false, MarkupMode::Markup),
        _ => {
            if s[i] == '"' || s[i] == '\'' {
                (skip_quoted(s, i + 1, s[i]), false, m)
            } else {
                (i + 1, false, m)
            }
        },
    }
}

/// Removes the `<!-- -->` comments of XML or HTML text, each replaced by the
/// newlines it held. CDATA sections, tags with their attribute values,
/// processing instructions, declarations, and quoted strings inside `script`
/// and `style` elements are copied unchanged.
pub fn xml_type_remover(input: &str) -> (r: String)
    ensures
        r@ == xml_strip(input@),
{
    let s = chars_of(input);
    let mut out: Vec<char> = Vec::new();
    let mut m = MarkupMode::Markup;
    let mut i: usize = 0;
    while i < s.len()
        invariant
            i <= s@.len(),
            out@ + xml_strip_from(s@, i as int, m) == xml_strip(s@),
        decreases s@.len() - i,
    {
        let (e, comment, next) = xml_next_token(&s, i, m);
        proof {
            lemma_xml_token_bounds(s@, i as int, m);
        }
        let ghost before = out@;
        emit_token(&s, &mut out, i, e, comment);
        proof {
            assert(before + xml_strip_from(s@, i as int, m) == out@ + xml_strip_from(
                s@,
                e as int,
                next,
            ));
        }
        i = e;
        m = next;
    }
    string_of(&out)
}

/// A markup comment whose text starts at `k` is closed by `-->` within `s`.
pub open spec fn markup_comment_closes(s: Seq<char>, k: int) -> bool
    decreases s.len() - k,
{
    if !(0 <= k < s.len()) {
        false
    } else if k + 2 < s.len() && s[k] == '-' && s[k + 1] == '-' && s[k + 2] == '>' {
        true
    } else {
        markup_comment_closes(s, k + 1)
    }
}

pub proof fn lemma_markup_comment_closes_room(s: Seq<char>, k: int)
    requires
        markup_comment_closes(s, k),
    ensures
        k + 2 < s.len(),
    decreases s.len() - k,
{
    if !(k + 2 < s.len()) {
        lemma_markup_comment_closes_room(s, k + 1);
    }
}

pub proof fn lemma_markup_comment_end_extend(a: Seq<char>, r: Seq<char>, k: int)
    requires
        0 <= k,
        markup_comment_closes(a, k),
    ensures
        markup_comment_end(a + r, k) == markup_comment_end(a, k),
    decreases a.len() - k,
{
    lemma_markup_comment_closes_room(a, k);
    let s = a + r;
    assert(s[k] == a[k]);
    if k + 2 < a.len() {
        assert(s[k + 1] == a[k + 1] && s[k + 2] == a[k + 2]);
    } else if k + 1 < a.len() {
        assert(s[k + 1] == a[k + 1]);
    }
    if !(k + 2 < a.len() && a[k] == '-' && a[k + 1] == '-' && a[k + 2] == '>') {
        lemma_markup_comment_end_extend(a, r, k + 1);
    }
}

pub proof fn lemma_markup_comment_end_shift(a: Seq<char>, b: Seq<char>, k: int)
    requires
        0 <= k <= b.len(),
    ensures
        markup_comment_end(a + b, a.len() + k) == a.len() + markup_comment_end(b, k),
    decreases b.len() - k,
{
    let n = a.len() as int;
    if k < b.len() {
        assert((a + b)[n + k] == b[k]);
        if k + 1 < b.len() {
            assert((a + b)[n + k + 1] == b[k + 1]);
        }
        if k + 2 < b.len() {
            assert((a + b)[n + k + 2] == b[k + 2]);
        }
        if !(k + 2 < b.len() && b[k] == '-' && b[k + 1] == '-' && b[k + 2] == '>') {
            lemma_markup_comment_end_shift(a, b, k + 1);
        }
    }
}

/// A CDATA section whose text starts at `k` is closed by `]]>` within `s`.
pub open spec fn cdata_closes(s: Seq<char>, k: int) -> bool
    decreases s.len() - k,
{
    if !(0 <= k < s.len()) {
        false
    } else if k + 2 < s.len() && s[k] == ']' && s[k + 1] == ']' && s[k + 2] == '>' {
        true
    } else {
        cdata_closes(s, k + 1)
    }
}

pub proof fn lemma_cdata_closes_room(s: Seq<char>, k: int)
    requires
        cdata_closes(s, k),
    ensures
        k + 2 < s.len(),
    decreases s.len() - k,
{
    if !(k + 2 < s.len()) {
        lemma_cdata_closes_room(s, k + 1);
    }
}

pub proof fn lemma_cdata_end_extend(a: Seq<char>, r: Seq<char>, k: int)
    requires
        0 <= k,
        cdata_closes(a, k),
    ensures
        cdata_end(a + r, k) == cdata_end(a, k),
    decreases a.len() - k,
{
    lemma_cdata_closes_room(a, k);
    let s = a + r;
    assert(s[k] == a[k]);
    if k + 2 < a.len() {
        assert(s[k + 1] == a[k + 1] && s[k + 2] == a[k + 2]);
    } else if k + 1 < a.len() {
        assert(s[k + 1] == a[k + 1]);
    }
    if !(k + 2 < a.len() && a[k] == ']' && a[k + 1] == ']' && a[k + 2] == '>') {
        lemma_cdata_end_extend(a, r, k + 1);
    }
}

pub proof fn lemma_cdata_end_shift(a: Seq<char>, b: Seq<char>, k: int)
    requires
        0 <= k <= b.len(),
    ensures
        cdata_end(a + b, a.len() + k) == a.len() + cdata_end(b, k),
    decreases b.len() - k,
{
    let n = a.len() as int;
    if k < b.len() {
        assert((a + b)[n + k] == b[k]);
        if k + 1 < b.len() {
            assert((a + b)[n + k + 1] == b[k + 1]);
        }
        if k + 2 < b.len() {
            assert((a + b)[n + k + 2] == b[k + 2]);
        }
        if !(k + 2 < b.len() && b[k] == ']' && b[k + 1] == ']' && b[k + 2] == '>') {
            lemma_cdata_end_shift(a, b, k + 1);
        }
    }
}

/// A processing instruction whose text goes on at `k` is closed by `?>` within `s`.
pub open spec fn instruction_closes(s: Seq<char>, k: int) -> bool
    decreases s.len() - k,
{
    if !(0 <= k < s.len()) {
        false
    } else if s[k] == '?' && k + 1 < s.len() && s[k + 1] == '>' {
        true
    } else {
        instruction_closes(s, k + 1)
    }
}

pub proof fn lemma_instruction_end_extend(a: Seq<char>, r: Seq<char>, k: int)
    requires
        0 <= k,
        instruction_closes(a, k),
    ensures
        instruction_end(a + r, k) == instruction_end(a, k),
    decreases a.len() - k,
{
    let s = a + r;
    assert(s[k] == a[k]);
    if k + 2 < a.len() {
        assert(s[k + 1] == a[k + 1] && s[k + 2] == a[k + 2]);
    } else if k + 1 < a.len() {
        assert(s[k + 1] == a[k + 1]);
    }
    if !(a[k] == '?' && k + 1 < a.len() && a[k + 1] == '>') {
        if k + 1 >= a.len() {
            assert(!instruction_closes(a, k + 1));
        }
        lemma_instruction_end_extend(a, r, k + 1);
    }
}

pub proof fn lemma_instruction_end_shift(a: Seq<char>, b: Seq<char>, k: int)
    requires
        0 <= k <= b.len(),
    ensures
        instruction_end(a + b, a.len() + k) == a.len() + instruction_end(b, k),
    decreases b.len() - k,
{
    let n = a.len() as int;
    if k < b.len() {
        assert((a + b)[n + k] == b[k]);
        if k + 1 < b.len() {
            assert((a + b)[n + k + 1] == b[k + 1]);
        }
        if k + 2 < b.len() {
            assert((a + b)[n + k + 2] == b[k + 2]);
        }
        if !(b[k] == '?' && k + 1 < b.len() && b[k + 1] == '>') {
            lemma_instruction_end_shift(a, b, k + 1);
        }
    }
}

/// A declaration whose text goes on at `k` is closed by `>` within `s`.
pub open spec fn declaration_closes(s: Seq<char>, k: int) -> bool
    decreases s.len() - k,
{
    if !(0 <= k < s.len()) {
        false
    } else if s[k] == '>' {
        true
    } else {
        declaration_closes(s, k + 1)
    }
}

pub proof fn lemma_declaration_end_extend(a: Seq<char>, r: Seq<char>, k: int)
    requires
        0 <= k,
        declaration_closes(a, k),
    ensures
        declaration_end(a + r, k) == declaration_end(a, k),
    decreases a.len() - k,
{
    let s = a + r;
    assert(s[k] == a[k]);
    if k + 2 < a.len() {
        assert(s[k + 1] == a[k + 1] && s[k + 2] == a[k + 2]);
    } else if k + 1 < a.len() {
        assert(s[k + 1] == a[k + 1]);
    }
    if !(a[k] == '>') {
        if k + 1 >= a.len() {
            assert(!declaration_closes(a, k + 1));
        }
        lemma_declaration_end_extend(a, r, k + 1);
    }
}

pub proof fn lemma_declaration_end_shift(a: Seq<char>, b: Seq<char>, k: int)
    requires
        0 <= k <= b.len(),
    ensures
        declaration_end(a + b, a.len() + k) == a.len() + declaration_end(b, k),
    decreases b.len() - k,
{
    let n = a.len() as int;
    if k < b.len() {
        assert((a + b)[n + k] == b[k]);
        if k + 1 < b.len() {
            assert((a + b)[n + k + 1] == b[k + 1]);
        }
        if k + 2 < b.len() {
            assert((a + b)[n + k + 2] == b[k + 2]);
        }
        if !(b[k] == '>') {
            lemma_declaration_end_shift(a, b, k + 1);
        }
    }
}

/// A tag whose text goes on at `k` is closed by `>` within `s`, its quoted
/// attribute values closed too.
pub open spec fn tag_closes(s: Seq<char>, k: int) -> bool
    decreases s.len() - k,
{
    if !(0 <= k < s.len()) {
        false
    } else if s[k] == '>' {
        true
    } else if s[k] == '"' || s[k] == '\'' {
        proof {
            lemma_quoted_end_bounds(s, k + 1, s[k]);
        }
        quoted_closes(s, k + 1, s[k]) && tag_closes(s, quoted_end(s, k + 1, s[k]))
    } else {
        tag_closes(s, k + 1)
    }
}

pub proof fn lemma_tag_end_extend(a: Seq<char>, r: Seq<char>, k: int)
    requires
        0 <= k,
        tag_closes(a, k),
    ensures
        tag_end(a + r, k) == tag_end(a, k),
    decreases a.len() - k,
{
    assert((a + r)[k] == a[k]);
    if a[k] != '>' {
        if a[k] == '"' || a[k] == '\'' {
            lemma_quoted_end_bounds(a, k + 1, a[k]);
            lemma_quoted_end_extend(a, r, k + 1, a[k]);
            lemma_tag_end_extend(a, r, quoted_end(a, k + 1, a[k]));
        } else {
            lemma_tag_end_extend(a, r, k + 1);
        }
    }
}

pub proof fn lemma_tag_end_shift(a: Seq<char>, b: Seq<char>, k: int)
    requires
        0 <= k <= b.len(),
    ensures
        tag_end(a + b, a.len() + k) == a.len() + tag_end(b, k),
    decreases b.len() - k,
{
    let n = a.len() as int;
    if k < b.len() {
        assert((a + b)[n + k] == b[k]);
        if b[k] != '>' {
            if b[k] == '"' || b[k] == '\'' {
                lemma_quoted_end_bounds(b, k + 1, b[k]);
                lemma_quoted_end_shift(a, b, k + 1, b[k]);
                lemma_tag_end_shift(a, b, quoted_end(b, k + 1, b[k]));
            } else {
                lemma_tag_end_shift(a, b, k + 1);
            }
        }
    }
}

/// The piece read at `i` in mode `m` is closed by its own terminator within `s`.
pub open spec fn xml_token_closes(s: Seq<char>, i: int, m: MarkupMode) -> bool {
    if comment_opens(s, i) {
        markup_comment_closes(s, i + 4)
    } else if cdata_opens(s, i) {
        cdata_closes(s, i + 9)
    } else if m == MarkupMode::Markup {
        if script_opens(s, i) || style_opens(s, i) || tag_opens(s, i) {
            tag_closes(s, i + 1)
        } else if s[i] == '<' && i + 1 < s.len() && s[i + 1] == '?' {
            instruction_closes(s, i + 2)
        } else if s[i] == '<' && i + 1 < s.len() && s[i + 1] == '!' {
            declaration_closes(s, i + 1)
        } else {
            true
        }
    } else if (m == MarkupMode::Script && script_closes(s, i)) || (m == MarkupMode::Style
        && style_closes(s, i)) {
        true
    } else if s[i] == '"' || s[i] == '\'' {
        quoted_closes(s, i + 1, s[i])
    } else {
        true
    }
}

/// Reading `s` from `i` in mode `m` ends between two pieces: every piece read is
/// closed by its own terminator, none is cut short by the end of the input.
pub open spec fn xml_settles_from(s: Seq<char>, i: int, m: MarkupMode) -> bool
    decreases s.len() - i,
{
    if 0 <= i < s.len() {
        proof {
            lemma_xml_token_bounds(s, i, m);
        }
        xml_token_closes(s, i, m) && xml_settles_from(s, xml_token(s, i, m).0, xml_token(s, i, m).2)
    } else {
        true
    }
}

/// Whether a piece opens at `i < a.len()` is the same in `a` and in `a + r`, when
/// `r` opens with `<`: each opener that runs past the end of `a` would need a char
/// other than `<` there.
pub proof fn lemma_xml_openers_extend(a: Seq<char>, r: Seq<char>, i: int)
    requires
        0 <= i < a.len(),
        r.len() > 0,
        r[0] == '<',
    ensures
        comment_opens(a + r, i) == comment_opens(a, i),
        cdata_opens(a + r, i) == cdata_opens(a, i),
        script_opens(a + r, i) == script_opens(a, i),
        style_opens(a + r, i) == style_opens(a, i),
        script_closes(a + r, i) == script_closes(a, i),
        style_closes(a + r, i) == style_closes(a, i),
{
    assert((a + r)[a.len() as int] == '<');
}

/// Whether a piece opens at `n + k` in `a + b` is the same as at `k` in `b`.
pub proof fn lemma_xml_openers_shift(a: Seq<char>, b: Seq<char>, k: int)
    requires
        0 <= k < b.len(),
    ensures
        comment_opens(a + b, a.len() + k) == comment_opens(b, k),
        cdata_opens(a + b, a.len() + k) == cdata_opens(b, k),
        script_opens(a + b, a.len() + k) == script_opens(b, k),
        style_opens(a + b, a.len() + k) == style_opens(b, k),
        script_closes(a + b, a.len() + k) == script_closes(b, k),
        style_closes(a + b, a.len() + k) == style_closes(b, k),
{
}

/// Reading `a + r` from `i` in mode `m` gives the output of reading `a` from `i`,
/// then what `a + r` gives from the end of `a` in the mode reached there, when `a`
/// settles, does not end with `<`, and `r` opens with `<`.
pub proof fn lemma_xml_strip_prefix(a: Seq<char>, r: Seq<char>, i: int, m: MarkupMode)
    requires
        0 <= i <= a.len(),
        xml_settles_from(a, i, m),
        !(a.len() > 0 && a.last() == '<'),
        r.len() > 0,
        r[0] == '<',
    ensures
        xml_strip_from(a + r, i, m) == xml_strip_from(a, i, m) + xml_strip_from(
            a + r,
            a.len() as int,
            xml_mode_at(a, i, m, a.len() as int),
        ),
    decreases a.len() - i,
{
    let s = a + r;
    let n = a.len() as int;
    if i < a.len() {
        lemma_xml_token_bounds(a, i, m);
        let (e, comment, next) = xml_token(a, i, m);
        lemma_xml_openers_extend(a, r, i);
        assert(s[i] == a[i]);
        if i + 1 < n {
            assert(s[i + 1] == a[i + 1]);
        } else {
            assert(a[i] == a.last());
        }
        if comment_opens(a, i) {
            lemma_markup_comment_end_extend(a, r, i + 4);
        } else if cdata_opens(a, i) {
            lemma_cdata_end_extend(a, r, i + 9);
        } else if m == MarkupMode::Markup {
            if script_opens(a, i) || style_opens(a, i) || tag_opens(a, i) {
                lemma_tag_end_extend(a, r, i + 1);
            } else if a[i] == '<' && i + 1 < n && a[i + 1] == '?' {
                lemma_instruction_end_extend(a, r, i + 2);
            } else if a[i] == '<' && i + 1 < n && a[i + 1] == '!' {
                lemma_declaration_end_extend(a, r, i + 1);
            }
        } else if (m == MarkupMode::Script && script_closes(a, i)) || (m == MarkupMode::Style
            && style_closes(a, i)) {
        } else if a[i] == '"' || a[i] == '\'' {
            lemma_quoted_end_extend(a, r, i + 1, a[i]);
        }
        assert(xml_token(s, i, m) == xml_token(a, i, m));
        lemma_xml_token_bounds(s, i, m);
        lemma_xml_strip_prefix(a, r, e, next);
        assert(s.subrange(i, e) =~= a.subrange(i, e));
        assert(token_output(s, i, e, comment) == token_output(a, i, e, comment));
        let rest = xml_strip_from(s, n, xml_mode_at(a, e, next, n));
        assert(token_output(a, i, e, comment) + (xml_strip_from(a, e, next) + rest) =~= (
        token_output(a, i, e, comment) + xml_strip_from(a, e, next)) + rest);
    } else {
        assert(Seq::<char>::empty() + xml_strip_from(s, n, m) =~= xml_strip_from(s, n, m));
    }
}

/// Reading `b` placed after `a`, from the end of `a` on in mode `m`, gives what
/// reading `b` alone in mode `m` gives.
pub proof fn lemma_xml_strip_shift(a: Seq<char>, b: Seq<char>, k: int, m: MarkupMode)
    requires
        0 <= k <= b.len(),
    ensures
        xml_strip_from(a + b, a.len() + k, m) == xml_strip_from(b, k, m),
    decreases b.len() - k,
{
    let s = a + b;
    let n = a.len() as int;
    if k < b.len() {
        lemma_xml_token_bounds(b, k, m);
        let (e, comment, next) = xml_token(b, k, m);
        lemma_xml_openers_shift(a, b, k);
        assert(s[n + k] == b[k]);
        if k + 1 < b.len() {
            assert(s[n + k + 1] == b[k + 1]);
        }
        if comment_opens(b, k) {
            lemma_markup_comment_end_shift(a, b, k + 4);
        } else if cdata_opens(b, k) {
            lemma_cdata_end_shift(a, b, k + 9);
        } else if m == MarkupMode::Markup {
            if script_opens(b, k) || style_opens(b, k) || tag_opens(b, k) {
                lemma_tag_end_shift(a, b, k + 1);
            } else if b[k] == '<' && k + 1 < b.len() && b[k + 1] == '?' {
                lemma_instruction_end_shift(a, b, k + 2);
            } else if b[k] == '<' && k + 1 < b.len() && b[k + 1] == '!' {
                lemma_declaration_end_shift(a, b, k + 1);
            }
        } else if (m == MarkupMode::Script && script_closes(b, k)) || (m == MarkupMode::Style
            && style_closes(b, k)) {
        } else if b[k] == '"' || b[k] == '\'' {
            lemma_quoted_end_shift(a, b, k + 1, b[k]);
        }
        assert(xml_token(s, n + k, m) == (n + e, comment, next));
        lemma_xml_token_bounds(s, n + k, m);
        lemma_xml_strip_shift(a, b, e, next);
        assert(s.subrange(n + k, n + e) =~= b.subrange(k, e));
    }
}

/// `x` holds no `]]>`.
pub open spec fn cdata_text(x: Seq<char>) -> bool {
    forall|j: int| 0 <= j && j + 2 < x.len() ==> !(#[trigger] x[j] == ']' && x[j + 1] == ']' && x[j + 2] == '>')
}

/// The CDATA section `<![CDATA[x]]>`.
pub open spec fn cdata_literal(x: Seq<char>) -> Seq<char> {
    seq!['<', '!', '[', 'C', 'D', 'A', 'T', 'A', '['] + x + seq![']', ']', '>']
}

/// A CDATA section whose text `x` holds no `]]>` ends just past the `]]>` after it.
pub proof fn lemma_cdata_end_of_text(s: Seq<char>, k: int, x: Seq<char>)
    requires
        0 <= k,
        k + x.len() + 3 <= s.len(),
        s.subrange(k, k + x.len()) == x,
        s[k + x.len()] == ']' && s[k + x.len() + 1] == ']' && s[k + x.len() + 2] == '>',
        cdata_text(x),
    ensures
        cdata_end(s, k) == k + x.len() + 3,
    decreases x.len(),
{
    if x.len() > 0 {
        assert(s[k] == x[0]);
        if x.len() >= 3 {
            assert(s[k + 1] == x[1] && s[k + 2] == x[2]);
        } else if x.len() == 2 {
            assert(s[k + 1] == x[1]);
        }
        assert(s.subrange(k + 1, k + x.len()) =~= x.skip(1));
        assert forall|j: int| 0 <= j && j + 2 < x.skip(1).len() implies !(#[trigger] x.skip(1)[j] == ']'
            && x.skip(1)[j + 1] == ']' && x.skip(1)[j + 2] == '>') by {
            assert(x.skip(1)[j] == x[j + 1] && x.skip(1)[j + 1] == x[j + 2] && x.skip(1)[j + 2]
                == x[j + 3]);
            assert(!(x[j + 1] == ']' && x[j + 2] == ']' && x[j + 3] == '>'));
        }
        lemma_cdata_end_of_text(s, k + 1, x.skip(1));
    }
}

/// Reading a CDATA section followed by any text, in markup, reads the section as
/// one piece, kept.
pub proof fn lemma_cdata_literal_token(x: Seq<char>, b: Seq<char>)
    requires
        cdata_text(x),
    ensures
        xml_token(cdata_literal(x) + b, 0, MarkupMode::Markup) == (
            cdata_literal(x).len() as int,
            false,
            MarkupMode::Markup,
        ),
{
    let r = cdata_literal(x) + b;
    assert(r.subrange(9, 9 + x.len() as int) =~= x);
    assert(r[9 + x.len() as int] == ']' && r[10 + x.len() as int] == ']' && r[11 + x.len() as int]
        == '>');
    lemma_cdata_end_of_text(r, 9, x);
    assert(cdata_opens(r, 0));
    assert(!comment_opens(r, 0));
}

/// A CDATA section put between two texts is copied whole and unchanged, whatever
/// `<!--` it holds, and each text is stripped as it would be alone: when reading
/// the first text alone ends in markup, between two pieces, and that text does
/// not end with `<`, the output is the first text's output, the section, then the
/// second text's output.
pub proof fn lemma_xml_cdata_between(a: Seq<char>, x: Seq<char>, b: Seq<char>)
    requires
        xml_settles_from(a, 0, MarkupMode::Markup),
        xml_mode_at(a, 0, MarkupMode::Markup, a.len() as int) == MarkupMode::Markup,
        !(a.len() > 0 && a.last() == '<'),
        cdata_text(x),
    ensures
        xml_strip(a + cdata_literal(x) + b) == xml_strip(a) + cdata_literal(x) + xml_strip(b),
{
    let m = MarkupMode::Markup;
    let lit = cdata_literal(x);
    let r = lit + b;
    let n = lit.len() as int;
    assert(a + lit + b =~= a + r);
    assert(r[0] == '<');
    lemma_xml_strip_prefix(a, r, 0, m);
    lemma_xml_strip_shift(a, r, 0, m);
    lemma_cdata_literal_token(x, b);
    assert(r.subrange(0, n) =~= lit);
    lemma_xml_strip_shift(lit, b, 0, m);
    assert(xml_strip_from(r, 0, m) == lit + xml_strip_from(r, n, m));
    assert(xml_strip(a) + (lit + xml_strip(b)) =~= xml_strip(a) + lit + xml_strip(b));
}

} // verus!
