//! Table-of-contents extraction: ATX headings (`#` through `######`) with
//! slugified anchors, unique within one note.
//!
//! A line qualifies when one to six `#` characters are followed by at least
//! one whitespace character; the heading text keeps its raw inline Markdown.
//! Anchors are the lowercased text with runs of non-alphanumerics collapsed
//! to single hyphens and edge hyphens stripped; a collision with an earlier
//! anchor takes the suffix `-2`, `-3`, … in order of occurrence.  Headings
//! inside fenced code blocks are not extracted.

use vstd::prelude::*;
use crate::text::{is_space, is_alnum, lower, trimmed, trim_chars, string_of, sub_chars,
    space_char, alnum_char, lower_char, find_char, chars_of, dec_rep, dec_digit, to_decimal};
use crate::scan::{line_end, fence_at, fence_line};

verus! {

/// A heading's depth: `#` is `H1`, `######` is `H6`.
#[derive(Debug, Clone, Copy, PartialEq, Eq, Structural)]
pub enum HeadingLevel {
    H1,
    H2,
    H3,
    H4,
    H5,
    H6,
}

/// The numeric depth of a level, in `[1, 6]`.
pub open spec fn level_num(l: HeadingLevel) -> int {
    match l {
        HeadingLevel::H1 => 1,
        HeadingLevel::H2 => 2,
        HeadingLevel::H3 => 3,
        HeadingLevel::H4 => 4,
        HeadingLevel::H5 => 5,
        HeadingLevel::H6 => 6,
    }
}

/// One table-of-contents entry.
#[derive(Debug)]
pub struct Heading {
    pub level: HeadingLevel,
    pub text: String,
    pub anchor: String,
}

/// The mathematical shape of a `Heading`.
pub struct HeadingModel {
    pub level: int,
    pub text: Seq<char>,
    pub anchor: Seq<char>,
}

pub open spec fn heading_model(h: Heading) -> HeadingModel {
    HeadingModel { level: level_num(h.level), text: h.text@, anchor: h.anchor@ }
}

/// The models of a vector of headings, in order.
pub open spec fn heading_models(hs: Seq<Heading>) -> Seq<HeadingModel>
    decreases hs.len(),
{
    if hs.len() == 0 {
        Seq::empty()
    } else {
        heading_models(hs.drop_last()).push(heading_model(hs.last()))
    }
}

/// How many consecutive `#` characters stand at `i`, within `[i, j)`.
pub open spec fn hash_run(s: Seq<char>, i: int, j: int) -> int
    decreases j - i,
{
    if i < 0 || i >= j || i >= s.len() || s[i] != '#' {
        0
    } else {
        1 + hash_run(s, i + 1, j)
    }
}

/// The line `[i, j)` is a heading: one to six `#`, then whitespace.
pub open spec fn heading_at(s: Seq<char>, i: int, j: int) -> bool {
    let n = hash_run(s, i, j);
    1 <= n <= 6 && i + n < j && is_space(s[i + n])
}

/// The anchor alphabet pass: alphanumerics lowercased, every maximal run of
/// anything else replaced by one hyphen.
pub open spec fn anchor_norm(t: Seq<char>) -> Seq<char>
    decreases t.len(),
{
    if t.len() == 0 {
        Seq::empty()
    } else {
        let rest = anchor_norm(t.drop_last());
        let c = t.last();
        if is_alnum(c) {
            rest.push(lower(c))
        } else if t.len() >= 2 && !is_alnum(t[t.len() - 2]) {
            rest
        } else {
            rest.push('-')
        }
    }
}

/// Leading hyphens removed.
pub open spec fn strip_hyphen_front(s: Seq<char>) -> Seq<char>
    decreases s.len(),
{
    if s.len() > 0 && s[0] == '-' {
        strip_hyphen_front(s.drop_first())
    } else {
        s
    }
}

/// Trailing hyphens removed.
pub open spec fn strip_hyphen_back(s: Seq<char>) -> Seq<char>
    decreases s.len(),
{
    if s.len() > 0 && s.last() == '-' {
        strip_hyphen_back(s.drop_last())
    } else {
        s
    }
}

/// The bare anchor of a heading text, before collision resolution.
pub open spec fn anchor_base(t: Seq<char>) -> Seq<char> {
    strip_hyphen_front(strip_hyphen_back(anchor_norm(t)))
}

/// The candidate anchor for attempt `n`: the base itself first, then
/// `base-2`, `base-3`, …
pub open spec fn anchor_candidate(base: Seq<char>, n: nat) -> Seq<char> {
    if n <= 1 {
        base
    } else {
        base + seq!['-'] + dec_rep(n)
    }
}

/// The first candidate from attempt `n` on that no earlier anchor uses.
/// The fuel bounds the search; one more attempt than there are used anchors
/// always suffices.
pub open spec fn fresh_from(base: Seq<char>, used: Seq<Seq<char>>, n: nat, fuel: nat) -> Seq<char>
    decreases fuel,
{
    let cand = anchor_candidate(base, n);
    if fuel == 0 || !used.contains(cand) {
        cand
    } else {
        fresh_from(base, used, n + 1, (fuel - 1) as nat)
    }
}

/// The anchor a heading gets, given the anchors already produced.
pub open spec fn fresh_anchor(base: Seq<char>, used: Seq<Seq<char>>) -> Seq<char> {
    fresh_from(base, used, 1, used.len() + 1)
}

/// The table of contents from line start `i` on, given the fence state and
/// the anchors already produced.
pub open spec fn toc_scan(s: Seq<char>, i: int, fence: bool, used: Seq<Seq<char>>) -> Seq<
    HeadingModel,
>
    decreases s.len() - i,
    via toc_scan_dec
{
    if i < 0 || i >= s.len() {
        Seq::empty()
    } else {
        let j = line_end(s, i);
        if fence_at(s, i, j) {
            if j >= s.len() {
                Seq::empty()
            } else {
                toc_scan(s, j + 1, !fence, used)
            }
        } else if fence || !heading_at(s, i, j) {
            if j >= s.len() {
                Seq::empty()
            } else {
                toc_scan(s, j + 1, fence, used)
            }
        } else {
            let n = hash_run(s, i, j);
            let text = trimmed(s.subrange(i + n, j));
            let a = fresh_anchor(anchor_base(text), used);
            seq![HeadingModel { level: n, text, anchor: a }] + (if j >= s.len() {
                Seq::<HeadingModel>::empty()
            } else {
                toc_scan(s, j + 1, fence, used.push(a))
            })
        }
    }
}

#[via_fn]
proof fn toc_scan_dec(s: Seq<char>, i: int, fence: bool, used: Seq<Seq<char>>) {
    if 0 <= i < s.len() {
        crate::text::lemma_find_at(s, i, '\n');
    }
}

/// The table of contents of a body.
pub open spec fn toc_of(body: Seq<char>) -> Seq<HeadingModel> {
    toc_scan(body, 0, false, Seq::empty())
}


/// Pairwise-distinct anchors.
pub open spec fn distinct_anchors(t: Seq<HeadingModel>) -> bool {
    forall|k1: int, k2: int| 0 <= k1 < k2 < t.len() ==> t[k1].anchor != t[k2].anchor
}

proof fn lemma_dec_rep_len(n: nat)
    ensures
        dec_rep(n).len() >= 1,
    decreases n,
{
    if n >= 10 {
        lemma_dec_rep_len(n / 10);
    }
}

proof fn lemma_dec_digit_inj(a: nat, b: nat)
    requires
        a < 10,
        b < 10,
        dec_digit(a) == dec_digit(b),
    ensures
        a == b,
{
    assert(dec_digit(a) as u32 == ('0' as u32) + a as u32);
    assert(dec_digit(b) as u32 == ('0' as u32) + b as u32);
}

proof fn lemma_dec_rep_inj(a: nat, b: nat)
    requires
        dec_rep(a) == dec_rep(b),
    ensures
        a == b,
    decreases a,
{
    assert(dec_rep(a).last() == dec_digit(a % 10));
    assert(dec_rep(b).last() == dec_digit(b % 10));
    lemma_dec_digit_inj(a % 10, b % 10);
    lemma_dec_rep_len(a);
    lemma_dec_rep_len(b);
    if a < 10 && b < 10 {
    } else if a < 10 {
        lemma_dec_rep_len(b / 10);
        assert(dec_rep(b).len() >= 2);
        assert(false);
    } else if b < 10 {
        lemma_dec_rep_len(a / 10);
        assert(false);
    } else {
        assert(dec_rep(a).drop_last() =~= dec_rep(a / 10));
        assert(dec_rep(b).drop_last() =~= dec_rep(b / 10));
        lemma_dec_rep_inj(a / 10, b / 10);
    }
}

proof fn lemma_candidate_inj(base: Seq<char>, n1: nat, n2: nat)
    requires
        1 <= n1,
        1 <= n2,
        n1 != n2,
    ensures
        anchor_candidate(base, n1) != anchor_candidate(base, n2),
{
    if anchor_candidate(base, n1) == anchor_candidate(base, n2) {
        if n1 <= 1 && n2 <= 1 {
        } else if n1 <= 1 {
            lemma_dec_rep_len(n2);
            assert(anchor_candidate(base, n2).len() >= base.len() + 2);
            assert(false);
        } else if n2 <= 1 {
            lemma_dec_rep_len(n1);
            assert(false);
        } else {
            let c1 = anchor_candidate(base, n1);
            let c2 = anchor_candidate(base, n2);
            lemma_dec_rep_len(n1);
            lemma_dec_rep_len(n2);
            assert(dec_rep(n1) =~= c1.subrange(base.len() as int + 1, c1.len() as int));
            assert(dec_rep(n2) =~= c2.subrange(base.len() as int + 1, c2.len() as int));
            lemma_dec_rep_inj(n1, n2);
            assert(false);
        }
    }
}

proof fn lemma_fresh_from_free(base: Seq<char>, used: Seq<Seq<char>>, n: nat, fuel: nat)
    requires
        exists|m: nat| n <= m < n + fuel && !used.contains(anchor_candidate(base, m)),
    ensures
        !used.contains(fresh_from(base, used, n, fuel)),
    decreases fuel,
{
    let m0 = choose|m: nat| n <= m < n + fuel && !used.contains(anchor_candidate(base, m));
    if fuel == 0 {
        assert(false);
    } else {
        let cand = anchor_candidate(base, n);
        if used.contains(cand) {
            assert(m0 != n);
            assert(n + 1 <= m0 < (n + 1) + (fuel - 1));
            lemma_fresh_from_free(base, used, n + 1, (fuel - 1) as nat);
        }
    }
}

/// The anchor chosen for a new heading never repeats an earlier one: among
/// one more candidate than there are used anchors, some candidate is free.
proof fn lemma_fresh_anchor_free(base: Seq<char>, used: Seq<Seq<char>>)
    ensures
        !used.contains(fresh_anchor(base, used)),
{
    broadcast use vstd::set::group_set_axioms;
    broadcast use vstd::seq_lib::seq_to_set_is_finite;

    let k = used.len() + 1;
    if exists|m: nat| 1 <= m < 1 + k && !used.contains(anchor_candidate(base, m)) {
        lemma_fresh_from_free(base, used, 1, k);
    } else {
        let cands = Seq::new(k, |i: int| anchor_candidate(base, (i + 1) as nat));
        assert forall|i: int, j: int|
            0 <= i < cands.len() && 0 <= j < cands.len() && i != j implies cands[i]
            != cands[j] by {
            lemma_candidate_inj(base, (i + 1) as nat, (j + 1) as nat);
        }
        assert(cands.no_duplicates());
        assert forall|x: Seq<char>| cands.to_set().contains(x) implies used.to_set().contains(
            x,
        ) by {
            let i = choose|i: int| 0 <= i < cands.len() && cands[i] == x;
            assert(1 <= ((i + 1) as nat) && ((i + 1) as nat) < 1 + k);
            assert(used.contains(anchor_candidate(base, (i + 1) as nat)));
            let w = choose|w: int| 0 <= w < used.len() && used[w] == x;
            assert(used.to_set().contains(x));
        }
        assert(cands.to_set().subset_of(used.to_set()));
        cands.unique_seq_to_set();
        used.lemma_cardinality_of_set();
        vstd::set_lib::lemma_len_subset(cands.to_set(), used.to_set());
        assert(false);
    }
}

proof fn lemma_toc_scan_distinct(s: Seq<char>, i: int, fence: bool, used: Seq<Seq<char>>)
    ensures
        distinct_anchors(toc_scan(s, i, fence, used)),
        forall|k: int|
            0 <= k < toc_scan(s, i, fence, used).len() ==> !used.contains(
                #[trigger] toc_scan(s, i, fence, used)[k].anchor,
            ),
    decreases s.len() - i,
{
    if 0 <= i < s.len() {
        let j = line_end(s, i);
        crate::text::lemma_find_at(s, i, '\n');
        if fence_at(s, i, j) {
            if j < s.len() {
                lemma_toc_scan_distinct(s, j + 1, !fence, used);
            }
        } else if fence || !heading_at(s, i, j) {
            if j < s.len() {
                lemma_toc_scan_distinct(s, j + 1, fence, used);
            }
        } else {
            let n = hash_run(s, i, j);
            let text = trimmed(s.subrange(i + n, j));
            let a = fresh_anchor(anchor_base(text), used);
            lemma_fresh_anchor_free(anchor_base(text), used);
            let t = toc_scan(s, i, fence, used);
            if j >= s.len() {
                assert(t.len() == 1);
            } else {
                lemma_toc_scan_distinct(s, j + 1, fence, used.push(a));
                let rest = toc_scan(s, j + 1, fence, used.push(a));
                assert forall|k: int| 0 <= k < t.len() implies !used.contains(
                    #[trigger] t[k].anchor,
                ) by {
                    if k == 0 {
                        assert(t[0].anchor == a);
                    } else {
                        assert(t[k] == rest[k - 1]);
                        assert(!used.push(a).contains(rest[k - 1].anchor));
                        if used.contains(rest[k - 1].anchor) {
                            let w = choose|w: int|
                                0 <= w < used.len() && used[w] == rest[k - 1].anchor;
                            assert(used.push(a)[w] == rest[k - 1].anchor);
                            assert(false);
                        }
                    }
                }
                assert forall|k1: int, k2: int| 0 <= k1 < k2 < t.len() implies t[k1].anchor
                    != t[k2].anchor by {
                    if k1 == 0 {
                        assert(t[0].anchor == a);
                        assert(t[k2] == rest[k2 - 1]);
                        assert(!used.push(a).contains(rest[k2 - 1].anchor));
                        assert(used.push(a)[used.len() as int] == a);
                        if rest[k2 - 1].anchor == a {
                            assert(used.push(a).contains(rest[k2 - 1].anchor));
                            assert(false);
                        }
                    } else {
                        assert(t[k1] == rest[k1 - 1]);
                        assert(t[k2] == rest[k2 - 1]);
                    }
                }
            }
        }
    }
}

/// Law: within one note's table of contents, anchors are pairwise distinct;
/// a collision with an earlier anchor always ends in a numbered suffix that
/// no earlier heading took.
pub proof fn lemma_toc_anchors_distinct(body: Seq<char>)
    ensures
        distinct_anchors(toc_of(body)),
{
    lemma_toc_scan_distinct(body, 0, false, Seq::empty());
}

/// Executable count matching `hash_run`.
fn hash_run_exec(v: &Vec<char>, i: usize, j: usize) -> (n: usize)
    requires
        i <= j <= v@.len(),
    ensures
        n as int == hash_run(v@, i as int, j as int),
        i + n <= j,
{
    let mut k: usize = i;
    while k < j && v[k] == '#'
        invariant
            i <= k <= j <= v@.len(),
            hash_run(v@, i as int, j as int) == k - i + hash_run(v@, k as int, j as int),
        decreases j - k,
    {
        k = k + 1;
    }
    k - i
}

/// Executable anchor alphabet pass matching `anchor_norm`.
fn anchor_norm_exec(t: &Vec<char>) -> (r: Vec<char>)
    ensures
        r@ == anchor_norm(t@),
{
    let mut r: Vec<char> = Vec::new();
    let mut i: usize = 0;
    proof {
        assert(t@.take(0) =~= Seq::<char>::empty());
    }
    while i < t.len()
        invariant
            i <= t@.len(),
            r@ == anchor_norm(t@.take(i as int)),
        decreases t@.len() - i,
    {
        proof {
            assert(t@.take(i as int + 1).drop_last() =~= t@.take(i as int));
            assert(t@.take(i as int + 1).last() == t@[i as int]);
        }
        let c = t[i];
        if alnum_char(c) {
            r.push(lower_char(c));
        } else if i >= 1 && !alnum_char(t[i - 1]) {
        } else {
            r.push('-');
        }
        i = i + 1;
    }
    proof {
        assert(t@.take(t@.len() as int) =~= t@);
    }
    r
}

/// Executable anchor base matching `anchor_base`.
fn anchor_base_exec(t: &Vec<char>) -> (r: Vec<char>)
    ensures
        r@ == anchor_base(t@),
{
    let norm = anchor_norm_exec(t);
    let mut hi: usize = norm.len();
    proof {
        assert(norm@.take(norm@.len() as int) =~= norm@);
    }
    while hi > 0 && norm[hi - 1] == '-'
        invariant
            hi <= norm@.len(),
            strip_hyphen_back(norm@) == strip_hyphen_back(norm@.take(hi as int)),
        decreases hi,
    {
        proof {
            assert(norm@.take(hi as int).drop_last() =~= norm@.take(hi as int - 1));
        }
        hi = hi - 1;
    }
    proof {
        assert(strip_hyphen_back(norm@) == norm@.take(hi as int));
        assert(norm@.take(hi as int) =~= norm@.subrange(0, hi as int));
    }
    let mut lo: usize = 0;
    while lo < hi && norm[lo] == '-'
        invariant
            lo <= hi <= norm@.len(),
            strip_hyphen_back(norm@) == norm@.take(hi as int),
            strip_hyphen_front(norm@.take(hi as int)) == strip_hyphen_front(
                norm@.subrange(lo as int, hi as int),
            ),
        decreases hi - lo,
    {
        proof {
            assert(norm@.subrange(lo as int, hi as int).drop_first() =~= norm@.subrange(
                lo as int + 1,
                hi as int,
            ));
        }
        lo = lo + 1;
    }
    sub_chars(&norm, lo, hi)
}

/// Executable membership test against the anchors already produced.
fn used_contains(used: &Vec<String>, cand: &Vec<char>) -> (r: bool)
    ensures
        r == used.deep_view().contains(cand@),
{
    let mut k: usize = 0;
    let cs = string_of(cand);
    while k < used.len()
        invariant
            k <= used@.len(),
            cs@ == cand@,
            forall|m: int| 0 <= m < k ==> used.deep_view()[m] != cand@,
        decreases used@.len() - k,
    {
        if used[k] == cs {
            proof {
                assert(used.deep_view()[k as int] == cand@);
            }
            return true;
        }
        k = k + 1;
    }
    proof {
        assert(!used.deep_view().contains(cand@)) by {
            assert(forall|m: int| 0 <= m < used.deep_view().len() ==> used.deep_view()[m]
                != cand@);
        }
    }
    false
}

/// Executable collision resolution matching `fresh_anchor`.
fn fresh_anchor_exec(base: &Vec<char>, used: &Vec<String>) -> (r: String)
    requires
        used@.len() + 2 <= u64::MAX,
    ensures
        r@ == fresh_anchor(base@, used.deep_view()),
{
    let mut tries: u64 = 0;
    loop
        invariant
            used@.len() + 2 <= u64::MAX,
            tries <= used@.len() + 1,
            fresh_anchor(base@, used.deep_view()) == fresh_from(
                base@,
                used.deep_view(),
                tries as nat + 1,
                (used@.len() + 1 - tries) as nat,
            ),
        decreases used@.len() + 1 - tries,
    {
        let cand: Vec<char> = if tries == 0 {
            sub_chars(base, 0, base.len())
        } else {
            let mut c = sub_chars(base, 0, base.len());
            c.push('-');
            let digits = to_decimal(tries + 1);
            let mut d: usize = 0;
            while d < digits.len()
                invariant
                    d <= digits@.len(),
                    c@ == base@ + seq!['-'] + digits@.take(d as int),
                decreases digits@.len() - d,
            {
                c.push(digits[d]);
                proof {
                    assert(digits@.take(d as int + 1) =~= digits@.take(d as int).push(
                        digits@[d as int],
                    ));
                    assert(c@ =~= base@ + seq!['-'] + digits@.take(d as int + 1));
                }
                d = d + 1;
            }
            proof {
                assert(digits@.take(digits@.len() as int) =~= digits@);
            }
            c
        };
        proof {
            assert(base@.subrange(0, base@.len() as int) =~= base@);
            assert(Seq::<char>::empty().push('-') =~= seq!['-']);
            assert(cand@ == anchor_candidate(base@, tries as nat + 1));
        }
        if tries > used.len() as u64 {
            return string_of(&cand);
        }
        if !used_contains(used, &cand) {
            return string_of(&cand);
        }
        tries = tries + 1;
    }
}

pub proof fn lemma_heading_models_index(hs: Seq<Heading>)
    ensures
        heading_models(hs).len() == hs.len(),
        forall|k: int| 0 <= k < hs.len() ==> heading_models(hs)[k] == heading_model(hs[k]),
    decreases hs.len(),
{
    if hs.len() > 0 {
        lemma_heading_models_index(hs.drop_last());
    }
}

/// Extract the table of contents of a body: every heading outside fenced
/// code blocks, in order, with pairwise-distinct anchors resolved by
/// numbered suffixes.
pub fn extract_toc(markdown: &str) -> (r: Vec<Heading>)
    ensures
        heading_models(r@) == toc_of(markdown@),
{
    let v = chars_of(markdown);
    let mut out: Vec<Heading> = Vec::new();
    let mut used: Vec<String> = Vec::new();
    let mut i: usize = 0;
    let mut fence = false;
    proof {
        assert(used.deep_view() =~= Seq::<Seq<char>>::empty());
    }
    while i < v.len()
        invariant
            i <= v@.len(),
            2 * used@.len() <= i + 2,
            toc_of(v@) == heading_models(out@) + toc_scan(v@, i as int, fence, used.deep_view()),
        decreases v@.len() - i,
    {
        let j = match find_char(&v, i, '\n') {
            Some(q) => q,
            None => v.len(),
        };
        proof {
            assert(j as int == line_end(v@, i as int));
        }
        let is_fence = fence_line(&v, i, j);
        if is_fence {
            if j >= v.len() {
                proof {
                    assert(toc_of(v@) =~= heading_models(out@));
                }
                i = v.len();
            } else {
                fence = !fence;
                i = j + 1;
            }
        } else {
            let n = hash_run_exec(&v, i, j);
            let heading_here = !fence && n >= 1 && n <= 6 && i + n < j && space_char(v[i + n]);
            if heading_here {
                let raw = sub_chars(&v, i + n, j);
                let tchars = trim_chars(&raw);
                let base = anchor_base_exec(&tchars);
                proof {
                    assert(v.len() == v@.len());
                    assert(used@.len() + 2 <= u64::MAX);
                }
                let a = fresh_anchor_exec(&base, &used);
                let text = string_of(&tchars);
                let level = if n == 1 {
                    HeadingLevel::H1
                } else if n == 2 {
                    HeadingLevel::H2
                } else if n == 3 {
                    HeadingLevel::H3
                } else if n == 4 {
                    HeadingLevel::H4
                } else if n == 5 {
                    HeadingLevel::H5
                } else {
                    HeadingLevel::H6
                };
                let ghost prev_out = out@;
                let ghost prev_used = used.deep_view();
                let h = Heading { level, text, anchor: a };
                let ghost hm = heading_model(h);
                let a2 = h.anchor.clone();
                out.push(h);
                used.push(a2);
                proof {
                    assert(out@.drop_last() =~= prev_out);
                    assert(heading_models(out@) =~= heading_models(prev_out).push(hm));
                    assert(used.deep_view() =~= prev_used.push(hm.anchor));
                    assert(hm.level == n as int);
                    assert(hm.text == trimmed(v@.subrange(i as int + n as int, j as int)));
                    assert(hm.anchor == fresh_anchor(anchor_base(hm.text), prev_used));
                    assert(toc_scan(v@, i as int, fence, prev_used) =~= seq![hm] + (if j as int
                        >= v@.len() {
                        Seq::<HeadingModel>::empty()
                    } else {
                        toc_scan(v@, j as int + 1, fence, prev_used.push(hm.anchor))
                    }));
                    assert(heading_models(prev_out) + (seq![hm] + (if j as int >= v@.len() {
                        Seq::<HeadingModel>::empty()
                    } else {
                        toc_scan(v@, j as int + 1, fence, used.deep_view())
                    })) =~= heading_models(out@) + (if j as int >= v@.len() {
                        Seq::<HeadingModel>::empty()
                    } else {
                        toc_scan(v@, j as int + 1, fence, used.deep_view())
                    }));
                }
                if j >= v.len() {
                    proof {
                        assert(toc_of(v@) =~= heading_models(out@));
                    }
                    i = v.len();
                } else {
                    i = j + 1;
                }
            } else {
                if j >= v.len() {
                    proof {
                        assert(toc_of(v@) =~= heading_models(out@));
                    }
                    i = v.len();
                } else {
                    i = j + 1;
                }
            }
        }
    }
    proof {
        assert(toc_of(v@) =~= heading_models(out@));
    }
    out
}

} // verus!
