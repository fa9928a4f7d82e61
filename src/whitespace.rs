//! Collapsing runs of blank lines: a post-processing pass over already
//! stripped text.
use vstd::prelude::*;
use crate::text::{
    chars_of, copy_range, find_line_end, is_whitespace, lemma_line_end_bounds, line_end,
    string_of, whitespace_char,
};

verus! {

/// `x` without one trailing `'\r'`.
pub open spec fn without_cr(x: Seq<char>) -> Seq<char> {
    if x.len() > 0 && x.last() == '\r' {
        x.drop_last()
    } else {
        x
    }
}

/// The lines of `s[k..]`, as `str::lines` gives them: split at each `'\n'`, one
/// `'\r'` just before a `'\n'` dropped, and no empty line after a final `'\n'`.
pub open spec fn lines_from(s: Seq<char>, k: int) -> Seq<Seq<char>>
    decreases s.len() - k,
{
    if !(0 <= k < s.len()) {
        Seq::empty()
    } else {
        proof {
            lemma_line_end_bounds(s, k);
        }
        let e = line_end(s, k);
        if e < s.len() {
            seq![without_cr(s.subrange(k, e))] + lines_from(s, e + 1)
        } else {
            seq![s.subrange(k, e)]
        }
    }
}

/// Every char of `x` is whitespace.
pub open spec fn is_blank(x: Seq<char>) -> bool {
    forall|k: int| 0 <= k < x.len() ==> whitespace_char(x[k])
}

/// The output for `lines`, after `run` blank lines in a row, when at most `max`
/// blank lines in a row are kept; `first` tells that no line was written yet.
/// Lines are joined with `'\n'`.
pub open spec fn collapse_lines(lines: Seq<Seq<char>>, first: bool, run: int, max: int) -> Seq<
    char,
>
    decreases lines.len(),
{
    if lines.len() == 0 {
        Seq::empty()
    } else {
        let line = lines[0];
        let sep = if first {
            Seq::empty()
        } else {
            seq!['\n']
        };
        if is_blank(line) {
            if run + 1 <= max {
                sep + line + collapse_lines(lines.drop_first(), false, run + 1, max)
            } else {
                collapse_lines(lines.drop_first(), false, run + 1, max)
            }
        } else {
            sep + line + collapse_lines(lines.drop_first(), false, 0, max)
        }
    }
}

/// `s` with each run of blank lines cut to at most `max` lines; a final `'\n'`
/// of `s` is kept.
pub open spec fn collapsed(s: Seq<char>, max: int) -> Seq<char> {
    let r = collapse_lines(lines_from(s, 0), true, 0, max);
    if s.len() > 0 && s.last() == '\n' && !(r.len() > 0 && r.last() == '\n') {
        r.push('\n')
    } else {
        r
    }
}

/// Whether every char of `s[from..to]` is whitespace.
fn blank_range(s: &Vec<char>, from: usize, to: usize) -> (r: bool)
    requires
        from <= to <= s@.len(),
    ensures
        r == is_blank(s@.subrange(from as int, to as int)),
{
    let mut k: usize = from;
    while k < to
        invariant
            from <= k <= to <= s@.len(),
            forall|x: int| from <= x < k ==> whitespace_char(s@[x]),
        decreases to - k,
    {
        if !is_whitespace(s[k]) {
            proof {
                assert(!whitespace_char(s@.subrange(from as int, to as int)[k - from]));
            }
            return false;
        }
        k += 1;
    }
    true
}

/// Cuts each run of blank lines (lines of whitespace only) in `input` to at most
/// `max_newlines` lines. Lines are read as `str::lines` reads them and joined with
/// `'\n'`; a final `'\n'` of the input is kept.
pub fn collapse_whitespace(input: &str, max_newlines: usize) -> (r: String)
    ensures
        r@ == collapsed(input@, max_newlines as int),
{
    let s = chars_of(input);
    let n = s.len();
    let mut out: Vec<char> = Vec::new();
    let mut k: usize = 0;
    let mut first = true;
    let mut run: usize = 0;
    let ghost all = lines_from(s@, 0);
    while k < n
        invariant
            n == s@.len(),
            k <= n,
            run <= k,
            all == lines_from(s@, 0),
            out@ + collapse_lines(lines_from(s@, k as int), first, run as int, max_newlines as int)
                == collapse_lines(all, true, 0, max_newlines as int),
        decreases n - k,
    {
        proof {
            lemma_line_end_bounds(s@, k as int);
        }
        let e = find_line_end(&s, k);
        let stop = if e < n && e > k && s[e - 1] == '\r' {
            e - 1
        } else {
            e
        };
        let ghost line = s@.subrange(k as int, e as int);
        proof {
            if e > k && s@[e - 1] == '\r' {
                assert(line.drop_last() =~= s@.subrange(k as int, e - 1));
            }
            let shown = if e < n {
                without_cr(line)
            } else {
                line
            };
            assert(shown == s@.subrange(k as int, stop as int));
            let rest = if e < n {
                lines_from(s@, e + 1)
            } else {
                Seq::empty()
            };
            assert(lines_from(s@, k as int) == seq![shown] + rest);
            assert((seq![shown] + rest).drop_first() =~= rest);
        }
        let ghost before = out@;
        let blank = blank_range(&s, k, stop);
        if !blank || run < max_newlines {
            if !first {
                out.push('\n');
            }
            copy_range(&s, &mut out, k, stop);
            proof {
                let sep = if first {
                    Seq::empty()
                } else {
                    seq!['\n']
                };
                assert(out@ =~= before + (sep + s@.subrange(k as int, stop as int)));
            }
        }
        run = if blank {
            run + 1
        } else {
            0
        };
        first = false;
        k = if e < n {
            e + 1
        } else {
            n
        };
    }
    proof {
        assert(lines_from(s@, k as int) =~= Seq::<Seq<char>>::empty());
    }
    if n > 0 && s[n - 1] == '\n' && !(out.len() > 0 && out[out.len() - 1] == '\n') {
        out.push('\n');
    }
    string_of(&out)
}

} // verus!
