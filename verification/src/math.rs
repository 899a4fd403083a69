//! LaTeX-style math detection.
//!
//! A body "has math" when it holds a matched pair of `$$` delimiters, a
//! matched `\[ ... \]` pair, or, on a single line, a pair of single `$`
//! delimiters with non-whitespace content between them (so a lone currency
//! amount is not math).  A dangling delimiter detects nothing.

use vstd::prelude::*;
use crate::text::{find_pair_at, find_pair, find_char, chars_of};
use crate::scan::{line_end, first_nonspace};

verus! {

/// A matched pair of `$$` delimiters somewhere in the body.
pub open spec fn has_block_math(s: Seq<char>) -> bool {
    match find_pair_at(s, 0, '$', '$') {
        Some(q) => find_pair_at(s, q + 2, '$', '$') is Some,
        None => false,
    }
}

/// A `\[` with a matching `\]` later in the body.
pub open spec fn has_display_math(s: Seq<char>) -> bool {
    match find_pair_at(s, 0, '\\', '[') {
        Some(q) => find_pair_at(s, q + 2, '\\', ']') is Some,
        None => false,
    }
}

/// The first index in `[i, hi)` holding `$`.
pub open spec fn find_dollar(s: Seq<char>, i: int, hi: int) -> Option<int>
    decreases hi - i,
{
    if i < 0 || i >= hi || i >= s.len() {
        None
    } else if s[i] == '$' {
        Some(i)
    } else {
        find_dollar(s, i + 1, hi)
    }
}

/// An inline math pair within `[i, j)`: two `$` with non-blank content
/// between them; a pair holding only whitespace does not count, and the
/// search then goes on from its closing `$`.
pub open spec fn inline_math_from(s: Seq<char>, i: int, j: int) -> bool
    decreases j - i,
    via inline_math_from_dec
{
    match find_dollar(s, i, j) {
        Some(p0) => match find_dollar(s, p0 + 1, j) {
            Some(p1) => if first_nonspace(s, p0 + 1, p1) is Some {
                true
            } else {
                inline_math_from(s, p1, j)
            },
            None => false,
        },
        None => false,
    }
}

pub proof fn lemma_find_dollar(s: Seq<char>, i: int, hi: int)
    ensures
        match find_dollar(s, i, hi) {
            Some(q) => i <= q < hi && q < s.len() && s[q] == '$',
            None => true,
        },
    decreases hi - i,
{
    if !(i < 0 || i >= hi || i >= s.len()) && s[i] != '$' {
        lemma_find_dollar(s, i + 1, hi);
    }
}

#[via_fn]
proof fn inline_math_from_dec(s: Seq<char>, i: int, j: int) {
    lemma_find_dollar(s, i, j);
    match find_dollar(s, i, j) {
        Some(p0) => {
            lemma_find_dollar(s, p0 + 1, j);
        },
        None => {},
    }
}

/// Some line of the body, from line start `i` on, holds an inline pair.
pub open spec fn inline_math_lines(s: Seq<char>, i: int) -> bool
    decreases s.len() - i,
    via inline_math_lines_dec
{
    if i < 0 || i >= s.len() {
        false
    } else {
        let j = line_end(s, i);
        inline_math_from(s, i, j) || (j < s.len() && inline_math_lines(s, j + 1))
    }
}

#[via_fn]
proof fn inline_math_lines_dec(s: Seq<char>, i: int) {
    if 0 <= i < s.len() {
        crate::text::lemma_find_at(s, i, '\n');
    }
}

/// Whether a body contains math, by any of the three delimiters.
pub open spec fn has_math(s: Seq<char>) -> bool {
    has_block_math(s) || has_display_math(s) || inline_math_lines(s, 0)
}

/// Executable search matching `find_dollar`.
fn find_dollar_exec(v: &Vec<char>, from: usize, hi: usize) -> (r: Option<usize>)
    requires
        hi <= v@.len(),
    ensures
        match r {
            Some(q) => from <= q && q < hi && Some(q as int) == find_dollar(
                v@,
                from as int,
                hi as int,
            ),
            None => find_dollar(v@, from as int, hi as int) is None,
        },
{
    let mut k: usize = from;
    loop
        invariant
            from <= k,
            hi <= v@.len(),
            find_dollar(v@, from as int, hi as int) == find_dollar(v@, k as int, hi as int),
        decreases hi - k,
    {
        if k >= hi {
            return None;
        }
        if v[k] == '$' {
            return Some(k);
        }
        k = k + 1;
    }
}

/// Executable test matching `first_nonspace(..) is Some`.
fn nonspace_in(v: &Vec<char>, from: usize, hi: usize) -> (r: bool)
    requires
        hi <= v@.len(),
    ensures
        r == (first_nonspace(v@, from as int, hi as int) is Some),
{
    let mut k: usize = from;
    loop
        invariant
            from <= k,
            hi <= v@.len(),
            first_nonspace(v@, from as int, hi as int) == first_nonspace(
                v@,
                k as int,
                hi as int,
            ),
        decreases hi - k,
    {
        if k >= hi {
            return false;
        }
        if !crate::text::space_char(v[k]) {
            return true;
        }
        k = k + 1;
    }
}

/// Executable inline-pair search matching `inline_math_from`.
fn inline_math_line(v: &Vec<char>, lo: usize, j: usize) -> (r: bool)
    requires
        lo <= j <= v@.len(),
    ensures
        r == inline_math_from(v@, lo as int, j as int),
{
    let mut p: usize = lo;
    loop
        invariant
            lo <= p,
            j <= v@.len(),
            inline_math_from(v@, lo as int, j as int) == inline_math_from(
                v@,
                p as int,
                j as int,
            ),
        decreases j - p,
    {
        match find_dollar_exec(v, p, j) {
            Some(p0) => {
                match find_dollar_exec(v, p0 + 1, j) {
                    Some(p1) => {
                        if nonspace_in(v, p0 + 1, p1) {
                            return true;
                        }
                        p = p1;
                    },
                    None => {
                        return false;
                    },
                }
            },
            None => {
                return false;
            },
        }
    }
}

/// Detect math delimiters in a body.
pub fn detect_math(markdown: &str) -> (r: bool)
    ensures
        r == has_math(markdown@),
{
    let v = chars_of(markdown);
    proof {
        assert(v@.len() <= usize::MAX) by {
            assert(v.len() == v@.len());
        }
    }
    let block = match find_pair(&v, 0, '$', '$') {
        Some(q) => find_pair(&v, q + 2, '$', '$').is_some(),
        None => false,
    };
    if block {
        return true;
    }
    let display = match find_pair(&v, 0, '\\', '[') {
        Some(q) => find_pair(&v, q + 2, '\\', ']').is_some(),
        None => false,
    };
    if display {
        return true;
    }
    let mut i: usize = 0;
    loop
        invariant
            !has_block_math(v@),
            !has_display_math(v@),
            has_math(markdown@) == inline_math_lines(v@, i as int),
            v@ == markdown@,
        decreases v@.len() - i,
    {
        if i >= v.len() {
            return false;
        }
        let j = match find_char(&v, i, '\n') {
            Some(q) => q,
            None => v.len(),
        };
        proof {
            assert(j as int == line_end(v@, i as int));
        }
        if inline_math_line(&v, i, j) {
            return true;
        }
        if j >= v.len() {
            return false;
        }
        i = j + 1;
    }
}

} // verus!
