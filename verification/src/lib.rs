//! A canonicalizing serializer for Markdown documents.
//!
//! The crate consumes an already-parsed document tree and re-emits it in a
//! single deterministic style: setext headings for levels one and two,
//! wrapped paragraphs, normalized table columns, normalized blockquote and
//! alert indentation, and footnote definitions deferred to section
//! boundaries.  Embedded directives can switch the canonical formatting off
//! for one block, one section, the rest of the file, or until re-enabled.

pub mod block;
pub mod directive;
pub mod dispatch;
pub mod document;
pub mod table;
pub mod footnote;
pub mod laws;
pub mod node;
pub mod state;
pub mod text;
pub mod wrap;
