pub mod ast;
pub mod chunker;
pub mod languages;

pub use ast::{AstParser, SymbolInfo, SymbolKind};
pub use chunker::{Chunker, CodeChunk};
pub use languages::Language;
