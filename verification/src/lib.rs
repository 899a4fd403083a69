//! Parser for personal-knowledge-base notes: Markdown with optional YAML
//! frontmatter and wikilink/embed syntax.  A note's text is split into a
//! metadata block and a body; the body yields links, embeds, a table of
//! contents with unique anchors, a math flag and rendered HTML; the whole is
//! assembled into one immutable record keyed by a slug derived from the path.

pub mod text;
pub mod frontmatter;
pub mod scan;
pub mod toc;
pub mod math;
pub mod render;
pub mod note;
