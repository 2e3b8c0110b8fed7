//! A neutral syntax-tree model for grammar testing: a tagged tree of
//! terminals and non-terminals, a decoder from hand-authored S-expression
//! nodes, an adapter from arbitrary parser output, a test-case assembler,
//! and a pretty-printer with optional coloring.

pub mod model;
pub mod node;
pub mod render;
pub mod testcase;
pub mod text;
