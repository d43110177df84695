//! Rendering of grep matches as highlighted, bordered, line-numbered snippets.

pub mod assembler;
pub mod bridge;
pub mod canvas;
pub mod chunk;
pub mod drawer;
pub mod frame;
pub mod grep;
pub mod highlighter;
pub mod laws;
pub mod pen;
pub mod printer;
pub mod reflow;
pub mod region;
pub mod rows;
pub mod style;
pub mod syntect_printer;
pub mod text;
