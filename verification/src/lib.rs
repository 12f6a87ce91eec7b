//! A static site generator's core, verified: the shortcode engine that expands
//! templates, the content model with its ordering of pages, the walk over the
//! content tree, and what is written for each index and page.
//!
//! The library does no input or output. A caller lists directories, reads and
//! writes files, and decodes frontmatter; the library decides what is read,
//! what is written where, and what the output holds.

pub mod assets;
pub mod config;
pub mod content;
pub mod date;
pub mod error;
pub mod export;
pub mod loader;
pub mod nav;
pub mod paths;
pub mod sort;
pub mod template;
pub mod text;
