pub mod server;
pub mod tools;

pub use server::{route_request, RequestRoute};
pub use tools::{ToolKind, ToolSpec};
