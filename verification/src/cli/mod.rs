use vstd::prelude::*;

verus! {

/// The command line: the project root, whether to serve MCP over stdio, and
/// the command to run.
#[derive(Debug, Clone)]
pub struct Cli {
    pub project: Option<String>,
    pub mcp: bool,
    pub command: Option<Commands>,
}

/// The commands of the command line.
#[derive(Debug, Clone)]
pub enum Commands {
    /// Index the workspace (the given path, else the project root).
    Index { path: Option<String> },
    /// Hybrid search with a number of results.
    Search { query: String, top_k: usize },
    /// Search symbol definitions, up to a limit.
    Symbols { symbol: String, limit: usize },
    /// Print the repository map within a token budget.
    RepoMap { tokens: usize },
    /// Print the index statistics.
    Status,
    /// Serve MCP (over stdio where asked).
    Serve { stdio: bool },
}

impl Cli {
    /// Whether the program serves MCP over stdio instead of running a
    /// command: when asked to, or when no command is given.
    pub fn serves_mcp(&self) -> (b: bool)
        ensures
            b == (self.mcp || self.command is None),
    {
        self.mcp || self.command.is_none()
    }
}

} // verus!
