//! Note assembly: slug derivation, title resolution, and the immutable
//! record that one parse produces.
//!
//! The slug is a pure function of the file path: the base name without its
//! extension, lowercased, whitespace runs replaced by hyphens, and every
//! character outside `[a-z0-9-]` dropped.  The title is the frontmatter
//! `title` when present and non-empty, else the first level-one heading's
//! text, else the slug with hyphens as spaces and each word capitalized.

use vstd::prelude::*;
use crate::text::{is_space, lower, upper, space_char, lower_char, upper_char, chars_of, string_of,
    sub_chars};
use crate::frontmatter::{MetaValue, MetaModel, meta_model, entry_models_of, is_empty_dict,
    yaml_meta_of, decode_meta, spec_title, spec_description, spec_tags, dict_lookup,
    split_spec, split_formatter, extract_title, extract_description, extract_tags};
use crate::scan::{scan_spans, links_of, embeds_of, extract_links};
use crate::toc::{Heading, HeadingModel, heading_model, heading_models, lemma_heading_models_index,
    toc_of, extract_toc};
use crate::math::{has_math, detect_math};
use crate::render::{rendered, render_html};

verus! {

/// A path separator.
pub open spec fn is_sep(c: char) -> bool {
    c == '/' || c == '\\'
}

/// Where the path's base name starts: one past the last separator.
pub open spec fn base_start(p: Seq<char>) -> int
    decreases p.len(),
{
    if p.len() == 0 {
        0
    } else if is_sep(p.last()) {
        p.len() as int
    } else {
        base_start(p.drop_last())
    }
}

/// The path's base name.
pub open spec fn basename(p: Seq<char>) -> Seq<char> {
    p.subrange(base_start(p), p.len() as int)
}

/// The index of the last `.` standing after the first character, or -1.
/// A name that only opens with a dot has no extension.
pub open spec fn last_dot_after(b: Seq<char>) -> int
    decreases b.len(),
{
    if b.len() <= 1 {
        -1
    } else if b.last() == '.' {
        b.len() - 1
    } else {
        last_dot_after(b.drop_last())
    }
}

/// The base name without its extension.
pub open spec fn stem(b: Seq<char>) -> Seq<char> {
    if last_dot_after(b) >= 1 {
        b.subrange(0, last_dot_after(b))
    } else {
        b
    }
}

/// A character a slug may hold.
pub open spec fn is_slug_char(c: char) -> bool {
    ('a' <= c && c <= 'z') || ('0' <= c && c <= '9') || c == '-'
}

/// The slug alphabet pass: whitespace runs become one hyphen, everything
/// else is lowercased and kept only when inside `[a-z0-9-]`.
pub open spec fn slug_norm(t: Seq<char>) -> Seq<char>
    decreases t.len(),
{
    if t.len() == 0 {
        Seq::empty()
    } else {
        let rest = slug_norm(t.drop_last());
        let c = t.last();
        if is_space(c) {
            if t.len() >= 2 && is_space(t[t.len() - 2]) {
                rest
            } else {
                rest.push('-')
            }
        } else {
            if is_slug_char(lower(c)) {
                rest.push(lower(c))
            } else {
                rest
            }
        }
    }
}

/// The slug of a file path.
pub open spec fn slug_of(p: Seq<char>) -> Seq<char> {
    slug_norm(stem(basename(p)))
}

/// The slug depends on the base name alone: two paths with the same base
/// name get the same slug, whatever their directories.
pub proof fn lemma_slug_ignores_directory(p1: Seq<char>, p2: Seq<char>)
    requires
        basename(p1) == basename(p2),
    ensures
        slug_of(p1) == slug_of(p2),
{
}

/// One character of the human-readable fallback title: hyphens become
/// spaces, and the first character of each word is uppercased.
pub open spec fn title_char(s: Seq<char>, i: int) -> char {
    if s[i] == '-' {
        ' '
    } else if i == 0 || s[i - 1] == '-' {
        upper(s[i])
    } else {
        s[i]
    }
}

/// The fallback title derived from a slug.
pub open spec fn fallback_title(s: Seq<char>) -> Seq<char> {
    Seq::new(s.len(), |i: int| title_char(s, i))
}

/// The text of the first level-one heading, if any.
pub open spec fn first_h1_text(toc: Seq<HeadingModel>) -> Option<Seq<char>>
    decreases toc.len(),
{
    if toc.len() == 0 {
        None
    } else if toc[0].level == 1 {
        Some(toc[0].text)
    } else {
        first_h1_text(toc.drop_first())
    }
}

/// The resolved display title: frontmatter first, then the first level-one
/// heading, then the fallback derived from the slug.
pub open spec fn resolved_title(
    fm_title: Option<Seq<char>>,
    toc: Seq<HeadingModel>,
    slug: Seq<char>,
) -> Seq<char> {
    match fm_title {
        Some(t) => if t.len() > 0 {
            t
        } else {
            resolved_title_rest(toc, slug)
        },
        None => resolved_title_rest(toc, slug),
    }
}

pub open spec fn resolved_title_rest(toc: Seq<HeadingModel>, slug: Seq<char>) -> Seq<char> {
    match first_h1_text(toc) {
        Some(t) => t,
        None => fallback_title(slug),
    }
}

/// The `title` field of a decoded metadata block, as a function of the
/// block's text alone.
pub open spec fn title_of_block(block: Seq<char>) -> Option<Seq<char>> {
    if block.len() == 0 {
        None
    } else {
        match yaml_meta_of(block) {
            Some(v) => spec_title(v),
            None => None,
        }
    }
}

/// The `description` field of a decoded block.
pub open spec fn description_of_block(block: Seq<char>) -> Option<Seq<char>> {
    if block.len() == 0 {
        None
    } else {
        match yaml_meta_of(block) {
            Some(v) => spec_description(v),
            None => None,
        }
    }
}

/// The `tags` of a decoded block.
pub open spec fn tags_of_block(block: Seq<char>) -> Seq<Seq<char>> {
    if block.len() == 0 {
        Seq::empty()
    } else {
        match yaml_meta_of(block) {
            Some(v) => spec_tags(v),
            None => Seq::empty(),
        }
    }
}

/// The model of the decoded block: the decoded value's model, or the empty
/// mapping where the block is empty or malformed.
pub open spec fn meta_model_of_block(block: Seq<char>) -> MetaModel {
    if block.len() == 0 {
        MetaModel::Dict(Seq::empty())
    } else {
        match yaml_meta_of(block) {
            Some(v) => meta_model(v),
            None => MetaModel::Dict(Seq::empty()),
        }
    }
}

/// The view of an optional string.
pub open spec fn opt_text(o: Option<String>) -> Option<Seq<char>> {
    match o {
        Some(s) => Some(s@),
        None => None,
    }
}

/// The fully parsed, immutable record of one note.
#[derive(Debug)]
pub struct ParsedNote {
    /// Stable identifier derived from the source path.
    pub slug: String,
    /// Resolved display title.
    pub title: String,
    /// The frontmatter `description`, when it is a string.
    pub description: Option<String>,
    /// The Markdown body with frontmatter removed, trimmed.
    pub raw_md: String,
    /// Rendered HTML of the body.
    pub html: String,
    /// Wikilink targets, in order of first appearance, duplicates kept.
    pub links: Vec<String>,
    /// Embed targets, same ordering rule.
    pub embeds: Vec<String>,
    /// The frontmatter tags, in declaration order.
    pub tags: Vec<String>,
    /// The table of contents, with pairwise-distinct anchors.
    pub toc: Vec<Heading>,
    /// Whether the body holds math delimiters.
    pub has_latex: bool,
    /// The whole decoded metadata block.
    pub frontmatter: MetaValue,
}

/// Every field of the record, pinned as a function of the path and the raw
/// text: what one parse owes.
pub open spec fn is_parse_of(r: ParsedNote, path: Seq<char>, text: Seq<char>) -> bool {
    let block = split_spec(text).0;
    let body = split_spec(text).1;
    &&& r.slug@ == slug_of(path)
    &&& r.title@ == resolved_title(title_of_block(block), toc_of(body), slug_of(path))
    &&& opt_text(r.description) == description_of_block(block)
    &&& r.raw_md@ == body
    &&& r.html@ == rendered(body, scan_spans(body, 0, false))
    &&& r.links.deep_view() == links_of(body)
    &&& r.embeds.deep_view() == embeds_of(body)
    &&& r.tags.deep_view() == tags_of_block(block)
    &&& heading_models(r.toc@) == toc_of(body)
    &&& r.has_latex == has_math(body)
    &&& meta_model(r.frontmatter) == meta_model_of_block(block)
}

/// Parsing is deterministic: two records parsed from the same path and the
/// same bytes agree in every observable field.
pub proof fn lemma_parse_deterministic(r1: ParsedNote, r2: ParsedNote, path: Seq<char>, text: Seq<char>)
    requires
        is_parse_of(r1, path, text),
        is_parse_of(r2, path, text),
    ensures
        r1.slug@ == r2.slug@,
        r1.title@ == r2.title@,
        opt_text(r1.description) == opt_text(r2.description),
        r1.raw_md@ == r2.raw_md@,
        r1.html@ == r2.html@,
        r1.links.deep_view() == r2.links.deep_view(),
        r1.embeds.deep_view() == r2.embeds.deep_view(),
        r1.tags.deep_view() == r2.tags.deep_view(),
        heading_models(r1.toc@) == heading_models(r2.toc@),
        r1.has_latex == r2.has_latex,
        meta_model(r1.frontmatter) == meta_model(r2.frontmatter),
{
}

/// A note without a complete frontmatter fence keeps everything: where the
/// opening delimiter line is missing, or no closing delimiter line follows,
/// the metadata is the empty mapping and the raw body is the whole text,
/// trimmed.
pub proof fn lemma_missing_delimiters(r: ParsedNote, path: Seq<char>, text: Seq<char>)
    requires
        is_parse_of(r, path, text),
        !crate::frontmatter::fm_open(text) || crate::frontmatter::find_close(text, 4) is None,
    ensures
        meta_model(r.frontmatter) == MetaModel::Dict(Seq::<(Seq<char>, MetaModel)>::empty()),
        r.tags.deep_view() == Seq::<Seq<char>>::empty(),
        opt_text(r.description) == Option::<Seq<char>>::None,
        r.raw_md@ == crate::text::trimmed(text),
{
    assert(split_spec(text).0 == Seq::<char>::empty());
    assert(split_spec(text).1 == crate::text::trimmed(text));
}

/// Derive the slug of a file path.
pub fn derive_slug(path: &str) -> (r: String)
    ensures
        r@ == slug_of(path@),
{
    let v = chars_of(path);
    let mut k: usize = v.len();
    proof {
        assert(v@.take(v@.len() as int) =~= v@);
    }
    while k > 0 && v[k - 1] != '/' && v[k - 1] != '\\'
        invariant
            k <= v@.len(),
            base_start(v@) == base_start(v@.take(k as int)),
        decreases k,
    {
        proof {
            assert(v@.take(k as int).drop_last() =~= v@.take(k as int - 1));
        }
        k = k - 1;
    }
    proof {
        assert(base_start(v@) == k as int);
    }
    let b = sub_chars(&v, k, v.len());
    proof {
        assert(b@ == basename(v@));
    }
    let mut d: usize = b.len();
    let mut dot: Option<usize> = None;
    proof {
        assert(b@.take(b@.len() as int) =~= b@);
    }
    while d > 1 && b[d - 1] != '.'
        invariant
            d <= b@.len(),
            last_dot_after(b@) == last_dot_after(b@.take(d as int)),
        decreases d,
    {
        proof {
            assert(b@.take(d as int).drop_last() =~= b@.take(d as int - 1));
        }
        d = d - 1;
    }
    let st: Vec<char> = if d > 1 {
        proof {
            assert(last_dot_after(b@) == d as int - 1);
        }
        sub_chars(&b, 0, d - 1)
    } else {
        proof {
            assert(last_dot_after(b@) <= 0);
        }
        sub_chars(&b, 0, b.len())
    };
    proof {
        assert(b@.subrange(0, b@.len() as int) =~= b@);
        assert(st@ == stem(b@));
    }
    let mut out: Vec<char> = Vec::new();
    let mut i: usize = 0;
    proof {
        assert(st@.take(0) =~= Seq::<char>::empty());
    }
    while i < st.len()
        invariant
            i <= st@.len(),
            out@ == slug_norm(st@.take(i as int)),
        decreases st@.len() - i,
    {
        proof {
            assert(st@.take(i as int + 1).drop_last() =~= st@.take(i as int));
            assert(st@.take(i as int + 1).last() == st@[i as int]);
        }
        let c = st[i];
        if space_char(c) {
            if i >= 1 && space_char(st[i - 1]) {
            } else {
                out.push('-');
            }
        } else {
            let lc = lower_char(c);
            if ('a' <= lc && lc <= 'z') || ('0' <= lc && lc <= '9') || lc == '-' {
                out.push(lc);
            }
        }
        i = i + 1;
    }
    proof {
        assert(st@.take(st@.len() as int) =~= st@);
    }
    string_of(&out)
}

/// The human-readable fallback title of a slug.
fn fallback_title_exec(slug: &Vec<char>) -> (r: String)
    ensures
        r@ == fallback_title(slug@),
{
    let mut out: Vec<char> = Vec::new();
    let mut i: usize = 0;
    while i < slug.len()
        invariant
            i <= slug@.len(),
            out@.len() == i,
            forall|m: int| 0 <= m < i ==> out@[m] == title_char(slug@, m),
        decreases slug@.len() - i,
    {
        let c = slug[i];
        if c == '-' {
            out.push(' ');
        } else if i == 0 || slug[i - 1] == '-' {
            out.push(upper_char(c));
        } else {
            out.push(c);
        }
        i = i + 1;
    }
    proof {
        assert(out@ =~= fallback_title(slug@));
    }
    string_of(&out)
}

/// Resolve the display title.
fn resolve_title(fm_title: &Option<String>, toc: &Vec<Heading>, slug: &String) -> (r: String)
    ensures
        r@ == resolved_title(
            match fm_title {
                Some(t) => Some(t@),
                None => None,
            },
            heading_models(toc@),
            slug@,
        ),
{
    match fm_title {
        Some(t) => {
            if !t.as_str().is_empty() {
                return t.clone();
            }
        },
        None => {},
    }
    let ghost g = heading_models(toc@);
    proof {
        lemma_heading_models_index(toc@);
        assert(g.skip(0) =~= g);
    }
    let mut i: usize = 0;
    loop
        invariant
            fm_title matches Some(t) ==> t@.len() == 0,
            i <= toc@.len(),
            g == heading_models(toc@),
            g.len() == toc@.len(),
            forall|m: int| 0 <= m < toc@.len() ==> g[m] == heading_model(toc@[m]),
            first_h1_text(g) == first_h1_text(g.skip(i as int)),
        decreases toc@.len() - i,
    {
        if i >= toc.len() {
            let sv = chars_of(slug.as_str());
            return fallback_title_exec(&sv);
        }
        proof {
            assert(g.skip(i as int)[0] == g[i as int]);
            assert(g.skip(i as int).drop_first() =~= g.skip(i as int + 1));
        }
        match toc[i].level {
            crate::toc::HeadingLevel::H1 => {
                return toc[i].text.clone();
            },
            _ => {},
        }
        i = i + 1;
    }
}

/// Parse a note's raw text into its record: split off the frontmatter,
/// decode it, extract links, embeds, table of contents and the math flag
/// from the body, render the body to HTML, and derive slug and title.
/// Malformed parts degrade to empty fields; this function never fails.
pub fn parse_note_text(path: &str, raw: &str) -> (r: ParsedNote)
    ensures
        is_parse_of(r, path@, raw@),
{
    let (block, body) = split_formatter(raw);
    let fm = decode_meta(block.as_str());
    proof {
        if block@.len() == 0 || yaml_meta_of(block@) is None {
            assert(is_empty_dict(fm));
            match &fm {
                MetaValue::Dict(es) => {
                    assert(entry_models_of(es@) =~= Seq::<(Seq<char>, MetaModel)>::empty());
                    assert(meta_model(fm) == MetaModel::Dict(Seq::empty()));
                    assert(dict_lookup(es@, "title"@) is None);
                    assert(dict_lookup(es@, "description"@) is None);
                    assert(dict_lookup(es@, "tags"@) is None);
                },
                _ => {
                    assert(false);
                },
            }
        }
    }
    let title_fm = extract_title(&fm);
    let description = extract_description(&fm);
    let tags = extract_tags(&fm);
    let (links, embeds) = extract_links(body.as_str());
    let toc = extract_toc(body.as_str());
    let has_latex = detect_math(body.as_str());
    let html = render_html(body.as_str());
    let slug = derive_slug(path);
    let title = resolve_title(&title_fm, &toc, &slug);
    ParsedNote {
        slug,
        title,
        description,
        raw_md: body,
        html,
        links,
        embeds,
        tags,
        toc,
        has_latex,
        frontmatter: fm,
    }
}

} // verus!
