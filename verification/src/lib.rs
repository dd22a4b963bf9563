pub mod constants;
pub mod disk;
pub mod elixir_syntax;
pub mod extract;
pub mod graph;
pub mod hooks;
pub mod indexer;
pub mod mentions;
pub mod order;
pub mod parser;
pub mod paths;
pub mod resolver;
pub mod ruby_syntax;
pub mod rust_syntax;
pub mod server_types;
pub mod snippets;
pub mod syntax;
pub mod text;
pub mod treesitter;
pub mod ts_js;
pub mod types;
