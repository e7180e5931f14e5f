//! A recursive n-ary tree of labelled nodes and a configurable renderer that
//! draws it as indented, branch-connected lines of text.
pub mod config;
pub mod laws;
pub mod render;
pub mod tree;

pub use config::{DefaultTreeConfig, GlyphConfig, Glyphs, TreeConfig};
pub use tree::{Tree, TreeLabel};
