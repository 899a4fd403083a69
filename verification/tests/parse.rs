use indexer::frontmatter::{split_formatter, decode_meta, extract_tags, extract_title,
    extract_description, MetaValue};
use indexer::scan::extract_links;
use indexer::toc::{extract_toc, HeadingLevel};
use indexer::math::detect_math;
use indexer::render::render_html;
use indexer::note::{derive_slug, parse_note_text};

#[test]
fn split_with_frontmatter() {
    let (block, body) = split_formatter("---\ntitle: Hello\n---\nBody text\n");
    assert_eq!(block, "title: Hello");
    assert_eq!(body, "Body text");
}

#[test]
fn split_without_opening_delimiter() {
    let (block, body) = split_formatter("Just a note\nwith two lines\n");
    assert_eq!(block, "");
    assert_eq!(body, "Just a note\nwith two lines");
}

#[test]
fn split_without_closing_delimiter() {
    let (block, body) = split_formatter("---\ntitle: Broken\nno end\n");
    assert_eq!(block, "");
    assert_eq!(body, "---\ntitle: Broken\nno end");
}

#[test]
fn split_requires_exact_delimiter_lines() {
    let (block, body) = split_formatter("--- not a fence\ntext\n");
    assert_eq!(block, "");
    assert_eq!(body, "--- not a fence\ntext");
}

#[test]
fn missing_frontmatter_is_empty_mapping() {
    let note = parse_note_text("/tmp/a.md", "no metadata here");
    assert_eq!(note.frontmatter, MetaValue::Dict(vec![]));
    assert_eq!(note.raw_md, "no metadata here");
    assert!(note.tags.is_empty());
    assert!(note.description.is_none());
}

#[test]
fn malformed_frontmatter_is_empty_mapping() {
    let note = parse_note_text("/tmp/a.md", "---\n: : : [\n---\nbody");
    assert_eq!(note.frontmatter, MetaValue::Dict(vec![]));
    assert_eq!(note.raw_md, "body");
}

#[test]
fn links_and_embeds() {
    let (links, embeds) = extract_links("[[Foo]] and ![[Bar|alt]]");
    assert_eq!(links, vec!["Foo".to_string()]);
    assert_eq!(embeds, vec!["Bar".to_string()]);
}

#[test]
fn link_targets_are_trimmed_and_duplicates_kept() {
    let (links, embeds) = extract_links("[[ A ]] then [[A]] and [[B|shown]]");
    assert_eq!(links, vec!["A".to_string(), "A".to_string(), "B".to_string()]);
    assert!(embeds.is_empty());
}

#[test]
fn unterminated_bracket_is_literal() {
    let (links, embeds) = extract_links("a [[never closed
and more text");
    assert!(links.is_empty());
    assert!(embeds.is_empty());
}

#[test]
fn target_runs_to_first_closing_bracket() {
    let (links, embeds) = extract_links("[[nested [[inner]] after");
    assert_eq!(links, vec!["nested [[inner".to_string()]);
    assert!(embeds.is_empty());
}

#[test]
fn links_inside_fences_are_ignored() {
    let (links, _) = extract_links("```\n[[NotALink]]\n```\n[[Yes]]\n");
    assert_eq!(links, vec!["Yes".to_string()]);
}

#[test]
fn toc_anchor_collisions_take_suffixes() {
    let toc = extract_toc("# Title\n\nwords\n\n# Title\n");
    assert_eq!(toc.len(), 2);
    assert_eq!(toc[0].anchor, "title");
    assert_eq!(toc[1].anchor, "title-2");
}

#[test]
fn toc_levels_and_text() {
    let toc = extract_toc("## Two Words!\n### deeper\n");
    assert_eq!(toc.len(), 2);
    assert_eq!(toc[0].level, HeadingLevel::H2);
    assert_eq!(toc[0].text, "Two Words!");
    assert_eq!(toc[0].anchor, "two-words");
    assert_eq!(toc[1].level, HeadingLevel::H3);
}

#[test]
fn headings_need_whitespace_and_at_most_six_hashes() {
    let toc = extract_toc("#NoSpace\n####### seven\n###### six ok\n");
    assert_eq!(toc.len(), 1);
    assert_eq!(toc[0].level, HeadingLevel::H6);
    assert_eq!(toc[0].text, "six ok");
}

#[test]
fn headings_inside_fences_are_ignored() {
    let toc = extract_toc("```\n# not a heading\n```\n# real\n");
    assert_eq!(toc.len(), 1);
    assert_eq!(toc[0].text, "real");
}

#[test]
fn tags_list_form() {
    let note = parse_note_text("/tmp/a.md", "---\ntags: [a, b]\n---\nbody");
    assert_eq!(note.tags, vec!["a".to_string(), "b".to_string()]);
}

#[test]
fn tags_scalar_form() {
    let note = parse_note_text("/tmp/a.md", "---\ntags: a\n---\nbody");
    assert_eq!(note.tags, vec!["a".to_string()]);
}

#[test]
fn tags_drop_non_string_entries() {
    let note = parse_note_text("/tmp/a.md", "---\ntags: [a, 5, b]\n---\nbody");
    assert_eq!(note.tags, vec!["a".to_string(), "b".to_string()]);
}

#[test]
fn tags_other_shapes_are_empty() {
    let note = parse_note_text("/tmp/a.md", "---\ntags: 7\n---\nbody");
    assert!(note.tags.is_empty());
}

#[test]
fn block_math_detected() {
    assert!(detect_math("some $$ x^2 $$ here"));
}

#[test]
fn currency_is_not_math() {
    assert!(!detect_math("Price: $5"));
}

#[test]
fn inline_math_detected() {
    assert!(detect_math("an $x+y$ formula"));
}

#[test]
fn display_math_detected() {
    assert!(detect_math("opens \\[ x \\] closes"));
}

#[test]
fn dangling_delimiters_are_not_math() {
    assert!(!detect_math("one $$ alone and a stray \\[ here"));
}

#[test]
fn slug_from_path() {
    assert_eq!(derive_slug("/vault/notes/My Note.md"), "my-note");
}

#[test]
fn slug_ignores_parent_directory() {
    assert_eq!(derive_slug("/a/My Note.md"), derive_slug("/b/c/My Note.md"));
}

#[test]
fn slug_strips_odd_characters() {
    assert_eq!(derive_slug("dir/What?! A (note).md"), "what-a-note");
}

#[test]
fn title_prefers_frontmatter() {
    let note = parse_note_text("/x/n.md", "---\ntitle: From Meta\n---\n# From Heading\n");
    assert_eq!(note.title, "From Meta");
}

#[test]
fn title_falls_back_to_first_h1() {
    let note = parse_note_text("/x/n.md", "intro\n\n## sub\n# The Title\n");
    assert_eq!(note.title, "The Title");
}

#[test]
fn title_falls_back_to_slug() {
    let note = parse_note_text("/x/my note.md", "plain body");
    assert_eq!(note.title, "My Note");
}

#[test]
fn description_extracted_when_string() {
    let note = parse_note_text("/x/n.md", "---\ndescription: short text\n---\nbody");
    assert_eq!(note.description.as_deref(), Some("short text"));
}

#[test]
fn frontmatter_keys_pass_through() {
    let m = decode_meta("title: T\nextra: 5");
    match &m {
        MetaValue::Dict(entries) => {
            assert_eq!(entries.len(), 2);
            assert!(entries.contains(&("title".to_string(), MetaValue::Text("T".to_string()))));
            assert!(entries.contains(&("extra".to_string(), MetaValue::Num("5".to_string()))));
        },
        other => panic!("expected a mapping, got {:?}", other),
    }
    assert_eq!(extract_title(&m).as_deref(), Some("T"));
    assert!(extract_description(&m).is_none());
    assert!(extract_tags(&m).is_empty());
}

#[test]
fn render_expands_wikilinks() {
    let html = render_html("see [[Foo]] now");
    assert!(html.contains("<a href=\"Foo\">Foo</a>"), "html was: {}", html);
}

#[test]
fn render_shows_alias_text() {
    let html = render_html("see [[Foo|the foo page]]");
    assert!(html.contains("<a href=\"Foo\">the foo page</a>"), "html was: {}", html);
}

#[test]
fn render_marks_embeds() {
    let html = render_html("![[Image|alt]]");
    assert!(
        html.contains("<span class=\"embed\" data-target=\"Image\"></span>"),
        "html was: {}",
        html,
    );
}

#[test]
fn render_uses_markdown_engine() {
    let html = render_html("# Hello\n\nsome *emphasis*");
    assert!(html.contains("<h1>"), "html was: {}", html);
    assert!(html.contains("<em>emphasis</em>"), "html was: {}", html);
}

#[test]
fn render_leaves_fenced_brackets_alone() {
    let html = render_html("```\n[[NotALink]]\n```\n");
    assert!(!html.contains("<a href=\"NotALink\""), "html was: {}", html);
    assert!(html.contains("[[NotALink]]"), "html was: {}", html);
}

#[test]
fn reparsing_gives_identical_record() {
    let path = "/vault/Thing.md";
    let text = "---\ntitle: T\ntags: [x]\n---\n# H\n[[L]] $m$\n";
    let a = parse_note_text(path, text);
    let b = parse_note_text(path, text);
    assert_eq!(a.slug, b.slug);
    assert_eq!(a.title, b.title);
    assert_eq!(a.description, b.description);
    assert_eq!(a.raw_md, b.raw_md);
    assert_eq!(a.html, b.html);
    assert_eq!(a.links, b.links);
    assert_eq!(a.embeds, b.embeds);
    assert_eq!(a.tags, b.tags);
    assert_eq!(a.has_latex, b.has_latex);
    assert_eq!(a.frontmatter, b.frontmatter);
    assert_eq!(a.toc.len(), b.toc.len());
    for (x, y) in a.toc.iter().zip(b.toc.iter()) {
        assert_eq!(x.level, y.level);
        assert_eq!(x.text, y.text);
        assert_eq!(x.anchor, y.anchor);
    }
}

#[test]
fn full_record_assembly() {
    let text = "---\ntitle: A Note\ntags: [t1, t2]\ndescription: d\n---\n\
# One\ncontent [[Target]] and ![[Pic]]\n## One\n$$ e=mc^2 $$\n";
    let note = parse_note_text("/v/A Note.md", text);
    assert_eq!(note.slug, "a-note");
    assert_eq!(note.title, "A Note");
    assert_eq!(note.description.as_deref(), Some("d"));
    assert_eq!(note.tags, vec!["t1".to_string(), "t2".to_string()]);
    assert_eq!(note.links, vec!["Target".to_string()]);
    assert_eq!(note.embeds, vec!["Pic".to_string()]);
    assert!(note.has_latex);
    assert_eq!(note.toc.len(), 2);
    assert_eq!(note.toc[0].anchor, "one");
    assert_eq!(note.toc[1].anchor, "one-2");
    assert!(note.raw_md.starts_with("# One"));
    assert!(note.html.contains("<a href=\"Target\">Target</a>"));
}
