[package]
name = "cartographer"
version = "0.1.0"
edition = "2021"
publish = false

[dependencies]
tree-sitter = "=0.27.1"
tree-sitter-typescript = "=0.23.2"
tree-sitter-javascript = "=0.25.0"
tree-sitter-rust = "=0.24.2"
tree-sitter-ruby = "=0.23.1"
tree-sitter-elixir = "=0.3.5"
md-5 = "=0.11.0"
rusqlite = { version = "=0.41.1", features = ["bundled"] }
serde = { version = "=1.0.229", features = ["derive"] }
sonic-rs = "=0.5.10"
rmcp = { version = "=3.8.0", features = ["server", "macros", "transport-io"] }
tokio = { version = "=1.54.1", features = ["full"] }
tracing = "=0.1.44"
tracing-subscriber = { version = "=0.3.23", features = ["env-filter"] }

[dev-dependencies]
tempfile = "=3.27.0"
