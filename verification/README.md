# Cartographer

Cartographer maps the structure of a codebase: it parses source files with
Tree-sitter, records each file's symbols and the files it imports, and answers
questions about the resulting import graph (what surrounds a file, what depends on
it, where imports go round in circles). It runs as an MCP server and as a set of
hooks for coding-agent sessions.

Supported languages: TypeScript, TSX, JavaScript, Rust, Ruby and Elixir.

## Layout

- `src/` is the library, verified with Verus. Every public function carries a
  contract over a mathematical model of its inputs and result.
  - `parser`, `treesitter`, `syntax`: choosing a file's language, parsing it with
    Tree-sitter and holding the syntax tree as plain values; the MD5 content hash.
  - `ts_js`, `rust_syntax`, `ruby_syntax`, `elixir_syntax`, `snippets`, `extract`:
    reading imports and symbols (with signatures and doc comments) from a syntax
    tree, and turning found imports into graph edges.
  - `resolver`, `paths`, `disk`: resolving import specifiers to files, the path
    arithmetic they rest on, and the file system's answers (each tied to the path it
    is about).
  - `graph`: the breadth-first walk of the import graph and cycle detection.
  - `indexer`: git status parsing and diffing, and the project walk's decisions.
  - `hooks`, `mentions`: the texts the hooks inject, and the file paths mentioned
    in a prompt.
  - `text`, `order`, `constants`, `types`, `server_types`: shared pieces.
- `app/` is the program around the library: the SQLite store, git and file-system
  access, JSON on standard input and output, and the MCP server.
- `tests/` exercises the library on concrete inputs.

Laws that relate several functions are stated and proved as public proof
functions whose names start with `law_`.
