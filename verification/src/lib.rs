//! Style resolution and block layout for a miniature page-rendering engine.
//!
//! The pipeline turns a document tree and a stylesheet into a positioned box
//! tree: selector matching and the cascade attach a property mapping to every
//! node, the box-tree builder classifies nodes as block or inline and inserts
//! anonymous wrappers, and the block-layout solver computes each box's
//! dimensions against its containing block.

pub mod css;
pub mod dict;
pub mod dom;
pub mod html;
pub mod layout;
pub mod style;
mod util;

pub use util::str_eq;
