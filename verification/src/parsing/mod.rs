//! What parsing a source file yields: symbols, the edges between them and the
//! text chunks that are embedded.

pub mod chunker;
pub mod relations;
pub mod symbols;
