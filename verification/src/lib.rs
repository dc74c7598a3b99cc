//! A personal-knowledge-base content engine: markdown pages with YAML-style
//! frontmatter are pushed through an ordered transformer chain (frontmatter
//! extraction, markdown rendering with callout/emoji/mermaid rewriting, and
//! optional client-decryptable encryption), gated by metadata filters, and
//! cached on disk with a freshness oracle over source and dependency mtimes.
//!
//! All I/O stays outside this crate: the engine works over explicit snapshots
//! of the content tree and cache state, and callers persist the results.

pub mod bundler;
pub mod cache;
pub mod callouts;
pub mod config;
pub mod content_index;
pub mod digest;
pub mod emojicode;
pub mod encryption;
pub mod errors;
pub mod fm;
pub mod layout;
pub mod markdown_stage;
pub mod mermaid;
pub mod nav;
pub mod plugins;
pub mod renderer;
pub mod styles;
pub mod text;
pub mod types;
pub mod wikilinks;
