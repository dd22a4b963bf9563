//! The arguments of the server's tools.
use vstd::prelude::*;

verus! {

/// Arguments of the parse tool.
pub struct ParseFileInput {
    /// Absolute path to the file to parse.
    pub file_path: String,
    /// Project root directory (absolute path).
    pub project: String,
}

/// Arguments of the tools that act on a whole project.
pub struct ProjectInput {
    /// Project root directory (absolute path).
    pub project: String,
}

/// Arguments of the graph query tool.
pub struct QueryInput {
    /// Project root directory (absolute path).
    pub project: String,
    /// File paths or search terms to start the graph walk from.
    pub entry_points: Vec<String>,
    /// Maximum hops to traverse (default 2).
    pub max_depth: Option<i64>,
    /// Maximum files to return (default 20).
    pub max_results: Option<i64>,
}

/// Arguments of the search tool.
pub struct SearchInput {
    /// Project root directory (absolute path).
    pub project: String,
    /// Matched against file paths and symbol names.
    pub query: String,
    /// Maximum results to return (default 10).
    pub limit: Option<i64>,
}

/// Arguments of the file information tool.
pub struct FileInfoInput {
    /// Absolute path to the file.
    pub file_path: String,
    /// Project root directory (absolute path).
    pub project: String,
}

/// Arguments of a tool that takes none.
pub struct EmptyInput {}

/// Default number of results of a search.
pub const DEFAULT_SEARCH_LIMIT: i64 = 10;

/// Number of search results an entry point that is not an absolute path stands for.
pub const ENTRY_SEARCH_LIMIT: i64 = 5;

/// The limit a search runs with: the one given, else 10.
pub fn search_limit(input: &SearchInput) -> (r: i64)
    ensures
        r == match input.limit {
            Some(l) => l,
            None => 10,
        },
{
    match input.limit {
        Some(l) => l,
        None => DEFAULT_SEARCH_LIMIT,
    }
}

} // verus!
