pub mod cli;
pub mod config;
pub mod embeddings;
pub mod index;
pub mod mcp;
pub mod parser;
pub mod retrieval;
pub mod text;
