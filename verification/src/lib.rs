//! Tasks kept as Markdown files in a `.cubil/` directory: the parsing,
//! rendering and decision logic of the `cubil` tool.
pub mod commands;
pub mod error;
pub mod frontmatter;
pub mod roadmap;
pub mod root;
pub mod slug;
pub mod slug_map;
pub mod text;
pub mod updater;
