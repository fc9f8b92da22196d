pub mod context_packer;
pub mod fusion;
pub mod hybrid;
pub mod repo_map;

pub use context_packer::{ContextPacker, PackedContext, PackedContextBlock};
pub use fusion::{RankedListCandidate, ScoredChunk};
