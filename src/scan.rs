//! Splitting scraped text into lines and whitespace-separated tokens.
use vstd::prelude::*;

verus! {

/// Blank characters that separate tokens within a line.
pub open spec fn is_space(c: char) -> bool {
    c == ' ' || c == '\t' || c == '\r' || c == '\x0b' || c == '\x0c'
}

pub open spec fn is_newline(c: char) -> bool {
    c == '\n'
}

/// The first position at or after `i` whose character is a separator
/// (blank when `by_line` is false, newline when it is true), or the end.
pub open spec fn run_end(s: Seq<char>, i: int, by_line: bool) -> int
    decreases s.len() - i,
{
    if i < 0 || i >= s.len() {
        i
    } else if (if by_line {
        is_newline(s[i])
    } else {
        is_space(s[i])
    }) {
        i
    } else {
        run_end(s, i + 1, by_line)
    }
}

pub proof fn lemma_run_end_bounds(s: Seq<char>, i: int, by_line: bool)
    requires
        0 <= i <= s.len(),
    ensures
        i <= run_end(s, i, by_line) <= s.len(),
        run_end(s, i, by_line) < s.len() ==> (if by_line {
            is_newline(s[run_end(s, i, by_line)])
        } else {
            is_space(s[run_end(s, i, by_line)])
        }),
    decreases s.len() - i,
{
    if i < s.len() {
        lemma_run_end_bounds(s, i + 1, by_line);
    }
}

/// The whitespace-separated tokens of `s` from position `i` on.
pub open spec fn tokens_from(s: Seq<char>, i: int) -> Seq<Seq<char>>
    decreases s.len() - i,
    via tokens_from_decreases
{
    if i < 0 || i >= s.len() {
        seq![]
    } else if is_space(s[i]) {
        tokens_from(s, i + 1)
    } else {
        seq![s.subrange(i, run_end(s, i, false))] + tokens_from(s, run_end(s, i, false))
    }
}

#[via_fn]
proof fn tokens_from_decreases(s: Seq<char>, i: int) {
    if 0 <= i < s.len() && !is_space(s[i]) {
        lemma_run_end_bounds(s, i + 1, false);
    }
}

/// The whitespace-separated tokens of a line.
pub open spec fn tokens(s: Seq<char>) -> Seq<Seq<char>> {
    tokens_from(s, 0)
}

/// The text of each span `(start, end)` of `s`.
pub open spec fn span_texts(s: Seq<char>, spans: Seq<(usize, usize)>) -> Seq<Seq<char>> {
    spans.map_values(|p: (usize, usize)| s.subrange(p.0 as int, p.1 as int))
}

/// Every span is a non-empty range within `s`.
pub open spec fn spans_within(s: Seq<char>, spans: Seq<(usize, usize)>) -> bool {
    forall|k: int| 0 <= k < spans.len() ==> #[trigger] spans[k].0 < spans[k].1 <= s.len()
}

pub fn is_space_char(c: char) -> (r: bool)
    ensures
        r == is_space(c),
{
    c == ' ' || c == '\t' || c == '\r' || c == '\x0b' || c == '\x0c'
}

fn is_separator(c: char, by_line: bool) -> (r: bool)
    ensures
        r == if by_line {
            is_newline(c)
        } else {
            is_space(c)
        },
{
    if by_line {
        c == '\n'
    } else {
        is_space_char(c)
    }
}

/// The characters of `s`, in order.
pub fn chars_of(s: &str) -> (r: Vec<char>)
    ensures
        r@ == s@,
{
    broadcast use vstd::string::group_string_axioms;

    let mut out: Vec<char> = Vec::new();
    for c in it: s.chars()
        invariant
            out@ == it.seq().take(it.index()),
            it.seq() == s@,
    {
        out.push(c);
    }
    out
}

/// The position where the run of characters starting at `i` ends.
pub(crate) fn find_run_end(s: &Vec<char>, i: usize, by_line: bool) -> (r: usize)
    requires
        i <= s.len(),
    ensures
        r as int == run_end(s@, i as int, by_line),
{
    let mut j = i;
    while j < s.len() && !is_separator(s[j], by_line)
        invariant
            i <= j <= s.len(),
            run_end(s@, j as int, by_line) == run_end(s@, i as int, by_line),
        decreases s.len() - j,
    {
        j = j + 1;
    }
    j
}

/// The spans of the whitespace-separated tokens of `s`.
pub fn token_spans(s: &Vec<char>) -> (r: Vec<(usize, usize)>)
    ensures
        span_texts(s@, r@) == tokens(s@),
        spans_within(s@, r@),
{
    let mut out: Vec<(usize, usize)> = Vec::new();
    let mut i: usize = 0;
    while i < s.len()
        invariant
            i <= s.len(),
            span_texts(s@, out@) + tokens_from(s@, i as int) == tokens(s@),
            spans_within(s@, out@),
        decreases s.len() - i,
    {
        if is_space_char(s[i]) {
            i = i + 1;
        } else {
            let end = find_run_end(s, i, false);
            proof {
                lemma_run_end_bounds(s@, i as int, false);
                lemma_run_end_bounds(s@, i as int + 1, false);
            }
            let ghost before = out@;
            out.push((i, end));
            proof {
                assert(span_texts(s@, out@) =~= span_texts(s@, before) + seq![
                    s@.subrange(i as int, end as int),
                ]);
            }
            i = end;
        }
    }
    out
}

} // verus!
