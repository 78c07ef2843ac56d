//! A content build pipeline: Markdown sources, templates and assets in, a tree of
//! rendered HTML out.
//!
//! The library holds the decisions of a build, each with its contract: how a
//! document converts (`markdown`), what templates are rendered with (`types`,
//! `json`, `registry`), how pages, entities and collection indexes render
//! (`render`, `collection`), what happens to the input and output trees (`plan`)
//! and what the watch loop does next (`watch`). Reading and writing files, the
//! console and the development server are left to the program around it.

pub mod collection;
pub mod dates;
pub mod errors;
pub mod json;
pub mod markdown;
pub mod partials;
pub mod plan;
pub mod registry;
pub mod render;
pub mod templates;
pub mod text;
pub mod types;
pub mod watch;
