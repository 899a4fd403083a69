//! Markdown-to-HTML rendering in two verified passes around a standard
//! Markdown engine.
//!
//! Wikilink and embed syntax is not Markdown, so each recognized span is
//! first replaced by a placeholder built from private-use characters, which
//! the engine passes through as plain text; the engine renders the rest; the
//! placeholders in its output are then expanded into an anchor element (for
//! a link) or an embed placeholder element (for an embed).

use vstd::prelude::*;
use crate::text::{string_of, sub_chars, chars_of};
use crate::scan::{Span, SpanModel, span_model, span_models, scan_spans, scan_body,
    lemma_span_models_index};

verus! {

/// The placeholder for span number `k`: an opening mark, `k` counting marks,
/// a closing mark.  All three are private-use characters, inert to the
/// Markdown engine and absent from ordinary text.
pub open spec fn marks(k: nat) -> Seq<char>
    decreases k,
{
    if k == 0 {
        Seq::empty()
    } else {
        marks((k - 1) as nat).push('\u{e002}')
    }
}

pub open spec fn placeholder(k: nat) -> Seq<char> {
    seq!['\u{e000}'] + marks(k) + seq!['\u{e001}']
}

/// The body with each span replaced by its placeholder.  A span that does
/// not lie beyond the cursor and within the text is passed over (the scanner
/// never produces one, but the function is total).
pub open spec fn pre_text(s: Seq<char>, spans: Seq<SpanModel>, c: int, k: nat) -> Seq<char>
    decreases spans.len(),
{
    if spans.len() == 0 {
        if 0 <= c <= s.len() {
            s.subrange(c, s.len() as int)
        } else {
            Seq::empty()
        }
    } else {
        let sp = spans[0];
        if 0 <= c <= sp.start && sp.start < sp.end && sp.end <= s.len() {
            s.subrange(c, sp.start) + placeholder(k) + pre_text(s, spans.drop_first(), sp.end, k + 1)
        } else {
            pre_text(s, spans.drop_first(), c, k + 1)
        }
    }
}

/// The preprocessed body: spans replaced by placeholders, in order.
pub open spec fn preprocessed(s: Seq<char>, spans: Seq<SpanModel>) -> Seq<char> {
    pre_text(s, spans, 0, 0)
}

/// What the Markdown engine renders for the given text.  Rendering is a
/// function of the text alone.
pub uninterp spec fn markdown_html_of(s: Seq<char>) -> Seq<char>;

/// Relies on pulldown_cmark::Parser::new and pulldown_cmark::html::push_html:
/// the rendered HTML is determined by the input text.
#[verifier::external_body]
fn markdown_to_html(s: &str) -> (r: String)
    ensures
        r@ == markdown_html_of(s@),
{
    let parser = pulldown_cmark::Parser::new(s);
    let mut out = String::new();
    pulldown_cmark::html::push_html(&mut out, parser);
    out
}

/// How many consecutive counting marks stand at `i`.
pub open spec fn mark_run(h: Seq<char>, i: int) -> int
    decreases h.len() - i,
{
    if i < 0 || i >= h.len() || h[i] != '\u{e002}' {
        0
    } else {
        1 + mark_run(h, i + 1)
    }
}

/// The expansion of one span: an anchor element for a link, showing the
/// alias where one was given, and an embed placeholder element for an embed,
/// both referencing the target.
pub open spec fn expansion(sp: SpanModel) -> Seq<char> {
    if sp.embed {
        "<span class=\"embed\" data-target=\""@ + sp.target + "\"></span>"@
    } else {
        "<a href=\""@ + sp.target + "\">"@ + (match sp.alias {
            Some(a) => a,
            None => sp.target,
        }) + "</a>"@
    }
}

/// The rendered HTML with each placeholder expanded.  A placeholder whose
/// number names no span stays as it stands.
pub open spec fn post_text(h: Seq<char>, spans: Seq<SpanModel>, p: int) -> Seq<char>
    decreases h.len() - p, 1int
{
    if p < 0 || p >= h.len() {
        Seq::empty()
    } else if h[p] == '\u{e000}' {
        let d = mark_run(h, p + 1);
        if p + 1 + d < h.len() && h[p + 1 + d] == '\u{e001}' && d < spans.len() {
            expansion(spans[d]) + post_text_next(h, spans, p, p + 2 + d)
        } else {
            seq![h[p]] + post_text(h, spans, p + 1)
        }
    } else {
        seq![h[p]] + post_text(h, spans, p + 1)
    }
}

/// Helper keeping the scan moving rightward: continue after the placeholder.
pub open spec fn post_text_next(h: Seq<char>, spans: Seq<SpanModel>, p: int, e: int) -> Seq<char>
    decreases h.len() - p, 0int
{
    if p < e <= h.len() {
        post_text(h, spans, e)
    } else {
        Seq::empty()
    }
}

/// The fully rendered HTML of a body with the given spans.
pub open spec fn rendered(body: Seq<char>, spans: Seq<SpanModel>) -> Seq<char> {
    post_text(markdown_html_of(preprocessed(body, spans)), spans, 0)
}

/// Append the characters of `src` to `out`.
fn append_chars(out: &mut Vec<char>, src: &Vec<char>)
    ensures
        final(out)@ == old(out)@ + src@,
{
    let mut k: usize = 0;
    proof {
        assert(out@ =~= old(out)@ + src@.take(0));
    }
    while k < src.len()
        invariant
            k <= src@.len(),
            out@ == old(out)@ + src@.take(k as int),
        decreases src@.len() - k,
    {
        out.push(src[k]);
        proof {
            assert(src@.take(k as int + 1) =~= src@.take(k as int).push(src@[k as int]));
            assert(old(out)@ + src@.take(k as int).push(src@[k as int]) =~= (old(out)@
                + src@.take(k as int)).push(src@[k as int]));
        }
        k = k + 1;
    }
    proof {
        assert(src@.take(src@.len() as int) =~= src@);
    }
}

/// Append the characters of a string slice to `out`.
fn append_str(out: &mut Vec<char>, src: &str)
    ensures
        final(out)@ == old(out)@ + src@,
{
    let cs = chars_of(src);
    append_chars(out, &cs);
}

/// Replace each span with its placeholder, matching `preprocessed`.
fn preprocess(v: &Vec<char>, spans: &Vec<Span>) -> (r: Vec<char>)
    ensures
        r@ == preprocessed(v@, span_models(spans@)),
{
    let ghost g = span_models(spans@);
    let mut out: Vec<char> = Vec::new();
    let mut c: usize = 0;
    let mut t: usize = 0;
    proof {
        lemma_span_models_index(spans@);
        assert(g.skip(0) =~= g);
    }
    while t < spans.len()
        invariant
            t <= spans@.len(),
            c <= v@.len(),
            g == span_models(spans@),
            g.len() == spans@.len(),
            forall|m: int| 0 <= m < spans@.len() ==> g[m] == span_model(spans@[m]),
            preprocessed(v@, g) == out@ + pre_text(v@, g.skip(t as int), c as int, t as nat),
        decreases spans@.len() - t,
    {
        proof {
            assert(g.skip(t as int)[0] == g[t as int]);
            assert(g.skip(t as int).drop_first() =~= g.skip(t as int + 1));
        }
        let sp = &spans[t];
        if c <= sp.start && sp.start < sp.end && sp.end <= v.len() {
            let ghost before = out@;
            let gap = sub_chars(v, c, sp.start);
            append_chars(&mut out, &gap);
            out.push('\u{e000}');
            let mut m: usize = 0;
            proof {
                assert(before + v@.subrange(c as int, sp.start as int) + seq!['\u{e000}']
                    + marks(0) =~= out@);
            }
            while m < t
                invariant
                    m <= t,
                    out@ == before + v@.subrange(c as int, span_model(spans@[t as int]).start)
                        + seq!['\u{e000}'] + marks(m as nat),
                decreases t - m,
            {
                out.push('\u{e002}');
                proof {
                    assert(marks(m as nat + 1) == marks(m as nat).push('\u{e002}'));
                    assert(out@ =~= before + v@.subrange(
                        c as int,
                        span_model(spans@[t as int]).start,
                    ) + seq!['\u{e000}'] + marks(m as nat + 1));
                }
                m = m + 1;
            }
            out.push('\u{e001}');
            proof {
                assert(out@ =~= before + (v@.subrange(
                    c as int,
                    span_model(spans@[t as int]).start,
                ) + placeholder(t as nat)));
                assert(pre_text(v@, g.skip(t as int), c as int, t as nat) == v@.subrange(
                    c as int,
                    g[t as int].start,
                ) + placeholder(t as nat) + pre_text(
                    v@,
                    g.skip(t as int + 1),
                    g[t as int].end,
                    t as nat + 1,
                ));
                assert(preprocessed(v@, g) =~= out@ + pre_text(
                    v@,
                    g.skip(t as int + 1),
                    g[t as int].end,
                    t as nat + 1,
                ));
            }
            c = sp.end;
        } else {
            proof {
                assert(pre_text(v@, g.skip(t as int), c as int, t as nat) == pre_text(
                    v@,
                    g.skip(t as int + 1),
                    c as int,
                    t as nat + 1,
                ));
            }
        }
        t = t + 1;
    }
    proof {
        assert(g.skip(g.len() as int) =~= Seq::<SpanModel>::empty());
    }
    let tail = sub_chars(v, c, v.len());
    append_chars(&mut out, &tail);
    proof {
        assert(out@ =~= preprocessed(v@, g));
    }
    out
}

/// Expand each placeholder in the rendered HTML, matching `post_text`.
fn postprocess(h: &Vec<char>, spans: &Vec<Span>) -> (r: Vec<char>)
    ensures
        r@ == post_text(h@, span_models(spans@), 0),
{
    let ghost g = span_models(spans@);
    let mut out: Vec<char> = Vec::new();
    let mut p: usize = 0;
    proof {
        lemma_span_models_index(spans@);
        assert(out@ + post_text(h@, g, 0) =~= post_text(h@, g, 0));
    }
    while p < h.len()
        invariant
            p <= h@.len(),
            g == span_models(spans@),
            g.len() == spans@.len(),
            forall|m: int| 0 <= m < spans@.len() ==> g[m] == span_model(spans@[m]),
            post_text(h@, g, 0) == out@ + post_text(h@, g, p as int),
        decreases h@.len() - p,
    {
        let ghost before = out@;
        if h[p] == '\u{e000}' {
            let mut k: usize = p + 1;
            while k < h.len() && h[k] == '\u{e002}'
                invariant
                    p + 1 <= k <= h@.len(),
                    mark_run(h@, p as int + 1) == k - p - 1 + mark_run(h@, k as int),
                decreases h@.len() - k,
            {
                k = k + 1;
            }
            let d = k - (p + 1);
            proof {
                assert(mark_run(h@, k as int) == 0);
                assert(d as int == mark_run(h@, p as int + 1));
            }
            if k < h.len() && h[k] == '\u{e001}' && d < spans.len() {
                let sp = &spans[d];
                if sp.embed {
                    append_str(&mut out, "<span class=\"embed\" data-target=\"");
                    append_str(&mut out, sp.target.as_str());
                    append_str(&mut out, "\"></span>");
                } else {
                    append_str(&mut out, "<a href=\"");
                    append_str(&mut out, sp.target.as_str());
                    append_str(&mut out, "\">");
                    match &sp.alias {
                        Some(a) => append_str(&mut out, a.as_str()),
                        None => append_str(&mut out, sp.target.as_str()),
                    }
                    append_str(&mut out, "</a>");
                }
                proof {
                    assert(out@ =~= before + expansion(g[d as int]));
                    assert(post_text_next(h@, g, p as int, p as int + 2 + d as int) == post_text(
                        h@,
                        g,
                        p as int + 2 + d as int,
                    ));
                    assert(post_text(h@, g, p as int) == expansion(g[d as int]) + post_text(
                        h@,
                        g,
                        p as int + 2 + d as int,
                    ));
                    assert(post_text(h@, g, 0) =~= out@ + post_text(
                        h@,
                        g,
                        p as int + 2 + d as int,
                    ));
                }
                p = k + 1;
            } else {
                out.push(h[p]);
                proof {
                    assert(out@ =~= before + seq![h@[p as int]]);
                    assert(post_text(h@, g, p as int) == seq![h@[p as int]] + post_text(
                        h@,
                        g,
                        p as int + 1,
                    ));
                    assert(post_text(h@, g, 0) =~= out@ + post_text(h@, g, p as int + 1));
                }
                p = p + 1;
            }
        } else {
            out.push(h[p]);
            proof {
                assert(out@ =~= before + seq![h@[p as int]]);
                assert(post_text(h@, g, p as int) == seq![h@[p as int]] + post_text(
                    h@,
                    g,
                    p as int + 1,
                ));
                assert(post_text(h@, g, 0) =~= out@ + post_text(h@, g, p as int + 1));
            }
            p = p + 1;
        }
    }
    proof {
        assert(post_text(h@, g, h@.len() as int) =~= Seq::<char>::empty());
        assert(out@ =~= post_text(h@, g, 0));
    }
    out
}

/// Render a body to HTML: neutralize the recognized spans, render through
/// the Markdown engine, and expand the placeholders in its output.
pub fn render_html(markdown: &str) -> (r: String)
    ensures
        r@ == rendered(markdown@, scan_spans(markdown@, 0, false)),
{
    let v = chars_of(markdown);
    let spans = scan_body(&v);
    let pre = preprocess(&v, &spans);
    let pre_s = string_of(&pre);
    let html = markdown_to_html(pre_s.as_str());
    let hv = chars_of(html.as_str());
    let post = postprocess(&hv, &spans);
    string_of(&post)
}

} // verus!
