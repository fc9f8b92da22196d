pub mod engine;
pub mod file_tracker;
pub mod symbol_store;
pub mod tantivy_store;
pub mod vector_store;

pub use engine::IndexStats;
pub use file_tracker::{FileChanges, FileTracker, TrackedFileInfo};
pub use symbol_store::{SymbolRecord, SymbolStore};
pub use vector_store::{VectorDocument, VectorStore};
