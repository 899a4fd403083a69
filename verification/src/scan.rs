//! Scanning the note body for wikilink and embed spans.
//!
//! Recognized syntax: `[[target]]`, `[[target|alias]]` and the embed forms
//! `![[target]]`, `![[target|alias]]`.  The target is everything between
//! `[[` and the first `]` or `|`, trimmed.  The body is scanned line by
//! line, left to right; lines inside fenced code blocks are skipped.  An
//! unterminated bracket is literal text, never an error.

use vstd::prelude::*;
use crate::text::{find_at, lemma_find_at, is_space, trimmed, trim_chars, string_of, sub_chars,
    space_char, find_char, chars_of};

verus! {

/// One recognized wikilink or embed occurrence in the body.
pub struct Span {
    /// Index of the first character of the occurrence (the `!` for embeds).
    pub start: usize,
    /// Index one past the closing `]]`.
    pub end: usize,
    /// Whether the occurrence is an embed (`![[...]]`).
    pub embed: bool,
    /// The trimmed target text.
    pub target: String,
    /// The alias text, for the piped form.
    pub alias: Option<String>,
}

/// The mathematical shape of a `Span`.
pub struct SpanModel {
    pub start: int,
    pub end: int,
    pub embed: bool,
    pub target: Seq<char>,
    pub alias: Option<Seq<char>>,
}

pub open spec fn span_model(s: Span) -> SpanModel {
    SpanModel {
        start: s.start as int,
        end: s.end as int,
        embed: s.embed,
        target: s.target@,
        alias: match s.alias {
            Some(a) => Some(a@),
            None => None,
        },
    }
}

/// The models of a vector of spans, in order.
pub open spec fn span_models(ss: Seq<Span>) -> Seq<SpanModel>
    decreases ss.len(),
{
    if ss.len() == 0 {
        Seq::empty()
    } else {
        span_models(ss.drop_last()).push(span_model(ss.last()))
    }
}

/// Where the line beginning at `i` ends: the next newline, or the end.
pub open spec fn line_end(s: Seq<char>, i: int) -> int {
    match find_at(s, i, '\n') {
        Some(j) => j,
        None => s.len() as int,
    }
}

/// The first index in `[i, j)` holding a non-whitespace character.
pub open spec fn first_nonspace(s: Seq<char>, i: int, j: int) -> Option<int>
    decreases j - i,
{
    if i < 0 || i >= j || i >= s.len() {
        None
    } else if !is_space(s[i]) {
        Some(i)
    } else {
        first_nonspace(s, i + 1, j)
    }
}

/// The line `[i, j)` opens or closes a fenced code block: its first
/// non-blank character begins three backticks.
pub open spec fn fence_at(s: Seq<char>, i: int, j: int) -> bool {
    match first_nonspace(s, i, j) {
        Some(k) => k + 2 < j && s[k] == '`' && s[k + 1] == '`' && s[k + 2] == '`',
        None => false,
    }
}

/// The first index in `[i, hi)` holding `]` or `|`.
pub open spec fn find_break(s: Seq<char>, i: int, hi: int) -> Option<int>
    decreases hi - i,
{
    if i < 0 || i >= hi || i >= s.len() {
        None
    } else if s[i] == ']' || s[i] == '|' {
        Some(i)
    } else {
        find_break(s, i + 1, hi)
    }
}

/// The first index in `[i, hi)` holding `]`.
pub open spec fn find_bracket(s: Seq<char>, i: int, hi: int) -> Option<int>
    decreases hi - i,
{
    if i < 0 || i >= hi || i >= s.len() {
        None
    } else if s[i] == ']' {
        Some(i)
    } else {
        find_bracket(s, i + 1, hi)
    }
}

/// The span recognized at `p` (where `[[` stands), within the line
/// `[lo, hi)`, or `None` when the syntax does not close.  The target runs to
/// the first `]` or `|` and must be non-empty; the piped form needs a
/// non-empty alias; both forms must close with `]]` on the same line.
pub open spec fn wiki_at(s: Seq<char>, lo: int, hi: int, p: int) -> Option<SpanModel> {
    let embed = p - 1 >= lo && s[p - 1] == '!';
    let start = if embed {
        p - 1
    } else {
        p
    };
    match find_break(s, p + 2, hi) {
        Some(q) => if s[q] == ']' {
            if q >= p + 3 && q + 1 < hi && s[q + 1] == ']' {
                Some(
                    SpanModel {
                        start,
                        end: q + 2,
                        embed,
                        target: trimmed(s.subrange(p + 2, q)),
                        alias: None,
                    },
                )
            } else {
                None
            }
        } else {
            if q >= p + 3 {
                match find_bracket(s, q + 1, hi) {
                    Some(r) => if r >= q + 2 && r + 1 < hi && s[r + 1] == ']' {
                        Some(
                            SpanModel {
                                start,
                                end: r + 2,
                                embed,
                                target: trimmed(s.subrange(p + 2, q)),
                                alias: Some(s.subrange(q + 1, r)),
                            },
                        )
                    } else {
                        None
                    },
                    None => None,
                }
            } else {
                None
            }
        },
        None => None,
    }
}

/// The spans recognized in the line `[lo, hi)` scanning from `p`.
pub open spec fn line_spans(s: Seq<char>, lo: int, hi: int, p: int) -> Seq<SpanModel>
    decreases hi - p, 1int
        when lo <= p && hi <= s.len()
{
    if p + 1 >= hi {
        Seq::empty()
    } else if s[p] == '[' && s[p + 1] == '[' {
        match wiki_at(s, lo, hi, p) {
            Some(sp) => seq![sp] + line_spans_next(s, lo, hi, p, sp.end),
            None => line_spans(s, lo, hi, p + 1),
        }
    } else {
        line_spans(s, lo, hi, p + 1)
    }
}

/// Helper keeping the scan moving rightward even in the spec: continue from
/// the span's end, which the above lemma places after `p`.
pub open spec fn line_spans_next(s: Seq<char>, lo: int, hi: int, p: int, e: int) -> Seq<SpanModel>
    decreases hi - p, 0int
        when lo <= p && hi <= s.len()
{
    if p < e <= hi {
        line_spans(s, lo, hi, e)
    } else {
        Seq::empty()
    }
}

/// The spans of the whole body from line start `i` on, given the fence
/// state.  A fence line toggles the state and yields nothing; lines inside a
/// fence yield nothing.
pub open spec fn scan_spans(s: Seq<char>, i: int, fence: bool) -> Seq<SpanModel>
    decreases s.len() - i,
    via scan_spans_dec
{
    if i < 0 || i >= s.len() {
        Seq::empty()
    } else {
        let j = line_end(s, i);
        if fence_at(s, i, j) {
            if j >= s.len() {
                Seq::empty()
            } else {
                scan_spans(s, j + 1, !fence)
            }
        } else {
            let here = if fence {
                Seq::<SpanModel>::empty()
            } else {
                line_spans(s, i, j, i)
            };
            here + (if j >= s.len() {
                Seq::<SpanModel>::empty()
            } else {
                scan_spans(s, j + 1, fence)
            })
        }
    }
}

#[via_fn]
proof fn scan_spans_dec(s: Seq<char>, i: int, fence: bool) {
    if 0 <= i < s.len() {
        lemma_find_at(s, i, '\n');
    }
}

/// The wikilink (or embed) targets among the spans, in order.
pub open spec fn targets_of(spans: Seq<SpanModel>, embed: bool) -> Seq<Seq<char>>
    decreases spans.len(),
{
    if spans.len() == 0 {
        Seq::empty()
    } else {
        targets_of(spans.drop_last(), embed) + (if spans.last().embed == embed {
            seq![spans.last().target]
        } else {
            Seq::<Seq<char>>::empty()
        })
    }
}

/// The wikilink targets of a body, in order of first appearance.
pub open spec fn links_of(body: Seq<char>) -> Seq<Seq<char>> {
    targets_of(scan_spans(body, 0, false), false)
}

/// The embed targets of a body, in order of first appearance.
pub open spec fn embeds_of(body: Seq<char>) -> Seq<Seq<char>> {
    targets_of(scan_spans(body, 0, false), true)
}

/// Executable check matching `fence_at`.
pub(crate) fn fence_line(v: &Vec<char>, i: usize, j: usize) -> (r: bool)
    requires
        i <= j <= v@.len(),
    ensures
        r == fence_at(v@, i as int, j as int),
{
    let mut k: usize = i;
    loop
        invariant
            i <= k,
            j <= v@.len(),
            first_nonspace(v@, i as int, j as int) == first_nonspace(v@, k as int, j as int),
        decreases j - k,
    {
        if k >= j {
            return false;
        }
        if !space_char(v[k]) {
            return j - k > 2 && v[k] == '`' && v[k + 1] == '`' && v[k + 2] == '`';
        }
        k = k + 1;
    }
}

/// Executable search matching `find_break`.
fn find_break_exec(v: &Vec<char>, from: usize, hi: usize) -> (r: Option<usize>)
    requires
        hi <= v@.len(),
    ensures
        match r {
            Some(q) => from <= q && q < hi && Some(q as int) == find_break(
                v@,
                from as int,
                hi as int,
            ),
            None => find_break(v@, from as int, hi as int) is None,
        },
{
    let mut k: usize = from;
    loop
        invariant
            from <= k,
            hi <= v@.len(),
            find_break(v@, from as int, hi as int) == find_break(v@, k as int, hi as int),
        decreases hi - k,
    {
        if k >= hi {
            return None;
        }
        if v[k] == ']' || v[k] == '|' {
            return Some(k);
        }
        k = k + 1;
    }
}

/// Executable search matching `find_bracket`.
fn find_bracket_exec(v: &Vec<char>, from: usize, hi: usize) -> (r: Option<usize>)
    requires
        hi <= v@.len(),
    ensures
        match r {
            Some(q) => from <= q && q < hi && Some(q as int) == find_bracket(
                v@,
                from as int,
                hi as int,
            ),
            None => find_bracket(v@, from as int, hi as int) is None,
        },
{
    let mut k: usize = from;
    loop
        invariant
            from <= k,
            hi <= v@.len(),
            find_bracket(v@, from as int, hi as int) == find_bracket(v@, k as int, hi as int),
        decreases hi - k,
    {
        if k >= hi {
            return None;
        }
        if v[k] == ']' {
            return Some(k);
        }
        k = k + 1;
    }
}

/// Executable recognition matching `wiki_at`.
fn wiki_exec(v: &Vec<char>, lo: usize, hi: usize, p: usize) -> (r: Option<Span>)
    requires
        lo <= p,
        p + 2 <= hi,
        hi <= v@.len(),
    ensures
        match r {
            Some(sp) => wiki_at(v@, lo as int, hi as int, p as int) == Some(span_model(sp)) && lo
                <= sp.start && p + 2 < sp.end <= hi,
            None => wiki_at(v@, lo as int, hi as int, p as int) is None,
        },
{
    let embed = p > lo && v[p - 1] == '!';
    let start = if embed {
        p - 1
    } else {
        p
    };
    match find_break_exec(v, p + 2, hi) {
        Some(q) => {
            if v[q] == ']' {
                if q >= p + 3 && q + 1 < hi && v[q + 1] == ']' {
                    let raw = sub_chars(v, p + 2, q);
                    let t = trim_chars(&raw);
                    Some(Span { start, end: q + 2, embed, target: string_of(&t), alias: None })
                } else {
                    None
                }
            } else {
                if q >= p + 3 {
                    match find_bracket_exec(v, q + 1, hi) {
                        Some(r2) => {
                            if r2 >= q + 2 && r2 + 1 < hi && v[r2 + 1] == ']' {
                                let raw = sub_chars(v, p + 2, q);
                                let t = trim_chars(&raw);
                                let al = sub_chars(v, q + 1, r2);
                                Some(
                                    Span {
                                        start,
                                        end: r2 + 2,
                                        embed,
                                        target: string_of(&t),
                                        alias: Some(string_of(&al)),
                                    },
                                )
                            } else {
                                None
                            }
                        },
                        None => None,
                    }
                } else {
                    None
                }
            }
        },
        None => None,
    }
}

/// Scan the whole body for wikilink and embed spans.
pub fn scan_body(v: &Vec<char>) -> (r: Vec<Span>)
    ensures
        span_models(r@) == scan_spans(v@, 0, false),
{
    let mut out: Vec<Span> = Vec::new();
    let mut i: usize = 0;
    let mut fence = false;
    while i < v.len()
        invariant
            i <= v@.len(),
            scan_spans(v@, 0, false) == span_models(out@) + scan_spans(v@, i as int, fence),
        decreases v@.len() - i,
    {
        let lo = i;
        let j = match find_char(v, i, '\n') {
            Some(q) => q,
            None => v.len(),
        };
        proof {
            assert(j as int == line_end(v@, i as int));
        }
        if fence_line(v, lo, j) {
            if j >= v.len() {
                proof {
                    assert(scan_spans(v@, i as int, fence) =~= span_models(out@).take(0).add(
                        Seq::empty(),
                    ) + Seq::<SpanModel>::empty());
                    assert(scan_spans(v@, 0, false) =~= span_models(out@));
                }
                i = v.len();
            } else {
                fence = !fence;
                i = j + 1;
            }
        } else if fence {
            proof {
                assert(scan_spans(v@, i as int, fence) =~= Seq::<SpanModel>::empty() + (if j
                    as int >= v@.len() {
                    Seq::<SpanModel>::empty()
                } else {
                    scan_spans(v@, j as int + 1, fence)
                }));
            }
            if j >= v.len() {
                proof {
                    assert(scan_spans(v@, 0, false) =~= span_models(out@));
                }
                i = v.len();
            } else {
                i = j + 1;
            }
        } else {
            let ghost tail = if j as int >= v@.len() {
                Seq::<SpanModel>::empty()
            } else {
                scan_spans(v@, j as int + 1, fence)
            };
            proof {
                assert(scan_spans(v@, i as int, fence) == line_spans(v@, i as int, j as int, i as int)
                    + tail);
            }
            let mut p = i;
            while j - p > 1
                invariant
                    lo == i,
                    lo <= p <= j,
                    j <= v@.len(),
                    i < v@.len(),
                    fence == false,
                    tail == (if j as int >= v@.len() {
                        Seq::<SpanModel>::empty()
                    } else {
                        scan_spans(v@, j as int + 1, fence)
                    }),
                    scan_spans(v@, 0, false) == span_models(out@) + line_spans(
                        v@,
                        lo as int,
                        j as int,
                        p as int,
                    ) + tail,
                decreases j - p,
            {
                if v[p] == '[' && v[p + 1] == '[' {
                    match wiki_exec(v, lo, j, p) {
                        Some(sp) => {
                            let ghost prev_vec = out@;
                            let ghost prev = span_models(out@);
                            let ghost spm = span_model(sp);
                            let ghost e = sp.end as int;
                            let nextp = sp.end;
                            out.push(sp);
                            proof {
                                assert(out@.drop_last() =~= prev_vec);
                                assert(out@.last() == sp);
                                assert(span_models(out@) =~= prev.push(spm));
                                assert(line_spans(v@, lo as int, j as int, p as int) == seq![spm]
                                    + line_spans_next(v@, lo as int, j as int, p as int, e));
                                assert(line_spans_next(v@, lo as int, j as int, p as int, e)
                                    == line_spans(v@, lo as int, j as int, e));
                                assert(prev + (seq![spm] + line_spans(v@, lo as int, j as int, e))
                                    =~= prev.push(spm) + line_spans(v@, lo as int, j as int, e));
                            }
                            p = nextp;
                        },
                        None => {
                            p = p + 1;
                        },
                    }
                } else {
                    p = p + 1;
                }
            }
            proof {
                assert(line_spans(v@, lo as int, j as int, p as int) =~= Seq::<SpanModel>::empty());
                assert(span_models(out@) + Seq::<SpanModel>::empty() + tail =~= span_models(out@)
                    + tail);
            }
            if j >= v.len() {
                proof {
                    assert(scan_spans(v@, 0, false) =~= span_models(out@));
                }
                i = v.len();
            } else {
                i = j + 1;
            }
        }
    }
    proof {
        assert(scan_spans(v@, 0, false) =~= span_models(out@));
    }
    out
}

pub proof fn lemma_span_models_index(ss: Seq<Span>)
    ensures
        span_models(ss).len() == ss.len(),
        forall|k: int| 0 <= k < ss.len() ==> span_models(ss)[k] == span_model(ss[k]),
    decreases ss.len(),
{
    if ss.len() > 0 {
        lemma_span_models_index(ss.drop_last());
    }
}

/// Extract the wikilink and embed targets of a body, each in order of first
/// appearance, duplicates preserved.
pub fn extract_links(markdown: &str) -> (r: (Vec<String>, Vec<String>))
    ensures
        r.0.deep_view() == links_of(markdown@),
        r.1.deep_view() == embeds_of(markdown@),
{
    let v = chars_of(markdown);
    let spans = scan_body(&v);
    let ghost g = span_models(spans@);
    let mut links: Vec<String> = Vec::new();
    let mut embeds: Vec<String> = Vec::new();
    let mut t: usize = 0;
    proof {
        lemma_span_models_index(spans@);
    }
    while t < spans.len()
        invariant
            t <= spans@.len(),
            g == span_models(spans@),
            g.len() == spans@.len(),
            forall|k: int| 0 <= k < spans@.len() ==> g[k] == span_model(spans@[k]),
            links.deep_view() == targets_of(g.take(t as int), false),
            embeds.deep_view() == targets_of(g.take(t as int), true),
        decreases spans@.len() - t,
    {
        proof {
            assert(g.take(t as int + 1).drop_last() =~= g.take(t as int));
            assert(g.take(t as int + 1).last() == g[t as int]);
        }
        let sp = &spans[t];
        if sp.embed {
            let ghost prev = embeds.deep_view();
            embeds.push(sp.target.clone());
            proof {
                assert(embeds.deep_view() =~= prev.push(sp.target@));
                assert(embeds.deep_view() =~= targets_of(g.take(t as int + 1), true));
                assert(links.deep_view() =~= targets_of(g.take(t as int + 1), false));
            }
        } else {
            let ghost prev = links.deep_view();
            links.push(sp.target.clone());
            proof {
                assert(links.deep_view() =~= prev.push(sp.target@));
                assert(links.deep_view() =~= targets_of(g.take(t as int + 1), false));
                assert(embeds.deep_view() =~= targets_of(g.take(t as int + 1), true));
            }
        }
        t = t + 1;
    }
    proof {
        assert(g.take(g.len() as int) =~= g);
    }
    (links, embeds)
}

} // verus!
