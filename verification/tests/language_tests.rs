use cartographer::elixir_syntax::extract_elixir;
use cartographer::parser::parse_source_file;
use cartographer::ruby_syntax::extract_ruby;
use cartographer::syntax::SyntaxTree;
use cartographer::treesitter::parse_syntax;
use cartographer::types::{SymbolKind, Visibility};
use std::io::Write;
use std::path::{Path, PathBuf};
use tempfile::TempDir;

/// Creates the directory `parent/name` (kept until the enclosing temporary directory goes).
fn make_dir(parent: &Path, name: &str) -> PathBuf {
    tempfile::Builder::new()
        .prefix(name)
        .rand_bytes(0)
        .keep(true)
        .tempdir_in(parent)
        .unwrap()
        .path()
        .to_path_buf()
}

/// Creates the file `parent/name` with the given contents.
fn write_file(parent: &Path, name: &str, contents: &str) -> PathBuf {
    let mut f = tempfile::Builder::new()
        .prefix(name)
        .rand_bytes(0)
        .keep(true)
        .tempfile_in(parent)
        .unwrap();
    f.write_all(contents.as_bytes()).unwrap();
    f.path().to_path_buf()
}

fn parse_ruby(source: &str) -> SyntaxTree {
    match parse_syntax("ruby", source) {
        Ok(t) => t,
        Err(_) => panic!("ruby source did not parse"),
    }
}

fn parse_elixir(source: &str) -> SyntaxTree {
    match parse_syntax("elixir", source) {
        Ok(t) => t,
        Err(_) => panic!("elixir source did not parse"),
    }
}

#[test]
fn test_ruby_class_extraction() {
    let source = r#"
# A greeter class
class Greeter
  def greet(name)
    "Hello, #{name}"
  end
end
"#;
    let tree = parse_ruby(source);
    let (_, symbols) = extract_ruby("/test.rb", source, &tree);

    assert!(symbols.iter().any(|s| s.name == "Greeter" && s.kind == SymbolKind::Class));
    assert!(symbols.iter().any(|s| s.name == "greet" && s.kind == SymbolKind::Function));
}

#[test]
fn test_ruby_module_extraction() {
    let source = r#"
module Utils
  def self.helper
    true
  end
end
"#;
    let tree = parse_ruby(source);
    let (_, symbols) = extract_ruby("/test.rb", source, &tree);

    assert!(symbols.iter().any(|s| s.name == "Utils" && s.kind == SymbolKind::Module));
    assert!(symbols.iter().any(|s| s.name == "self.helper" && s.kind == SymbolKind::Function));
}

#[test]
fn test_ruby_constant_extraction() {
    let source = "MAX_SIZE = 1024\n";
    let tree = parse_ruby(source);
    let (_, symbols) = extract_ruby("/test.rb", source, &tree);

    assert!(symbols.iter().any(|s| s.name == "MAX_SIZE" && s.kind == SymbolKind::Const));
}

#[test]
fn test_ruby_require_relative() {
    let dir = TempDir::new().unwrap();
    let lib = make_dir(dir.path(), "lib");
    write_file(&lib, "helper.rb", "module Helper; end");
    let from_file = lib.join("main.rb").to_str().unwrap().to_string();

    let source = "require_relative 'helper'\n";
    let tree = parse_ruby(source);
    let (imports, _) = extract_ruby(&from_file, source, &tree);

    assert_eq!(imports.len(), 1);
    assert!(imports[0].target.ends_with("helper.rb"));
    assert_eq!(imports[0].specifier, "helper");
    assert_eq!(imports[0].symbols, vec!["*".to_string()]);
}

#[test]
fn test_ruby_doc_comment() {
    let source = r#"
# Calculate the sum of two numbers.
# Returns an integer.
def add(a, b)
  a + b
end
"#;
    let tree = parse_ruby(source);
    let (_, symbols) = extract_ruby("/test.rb", source, &tree);

    let sym = symbols.iter().find(|s| s.name == "add").unwrap();
    assert!(sym.doc_comment.is_some());
    let doc = sym.doc_comment.as_ref().unwrap();
    assert!(doc.contains("Calculate the sum"));
    assert_eq!(sym.doc_comment, Some("Calculate the sum of two numbers.\nReturns an integer.".to_string()));
    assert_eq!(sym.line, 4);
    assert_eq!(sym.signature, "def add(a, b)");
}

#[test]
fn ruby_plain_require_names_a_gem() {
    let source = "require 'json'\n";
    let tree = parse_ruby(source);
    let (imports, _) = extract_ruby("/p/main.rb", source, &tree);
    assert!(imports.is_empty());
}

#[test]
fn ruby_mixins_and_attributes() {
    let source = "class User\n  include Comparable\n  attr_reader :name, :email\nend\n";
    let tree = parse_ruby(source);
    let (_, symbols) = extract_ruby("/p/user.rb", source, &tree);
    let names: Vec<&str> = symbols.iter().map(|s| s.name.as_str()).collect();
    assert_eq!(names, vec!["User", "include Comparable", "name", "email"]);
    assert_eq!(symbols[1].kind, SymbolKind::Unknown);
    assert_eq!(symbols[1].visibility, Visibility::Private);
    assert_eq!(symbols[1].signature, "include Comparable");
    assert_eq!(symbols[2].kind, SymbolKind::Function);
    assert_eq!(symbols[2].signature, "attr_reader :name");
    assert_eq!(symbols[3].line, 3);
}

#[test]
fn test_elixir_module_extraction() {
    let source = r#"
defmodule MyApp.Greeter do
  def greet(name) do
    "Hello, #{name}"
  end

  defp internal_helper do
    :ok
  end
end
"#;
    let tree = parse_elixir(source);
    let (_, symbols) = extract_elixir("/test.ex", source, &tree);

    assert!(symbols.iter().any(|s| s.name == "MyApp.Greeter" && s.kind == SymbolKind::Module));
    assert!(symbols
        .iter()
        .any(|s| s.name == "greet" && s.kind == SymbolKind::Function && s.visibility == Visibility::Public));
    assert!(symbols
        .iter()
        .any(|s| s.name == "internal_helper" && s.kind == SymbolKind::Function && s.visibility == Visibility::Private));
}

#[test]
fn test_elixir_macro_extraction() {
    let source = r#"
defmodule MyApp.DSL do
  defmacro my_macro(arg) do
    quote do: unquote(arg)
  end
end
"#;
    let tree = parse_elixir(source);
    let (_, symbols) = extract_elixir("/test.ex", source, &tree);

    assert!(symbols.iter().any(|s| s.name == "my_macro" && s.kind == SymbolKind::Macro));
}

#[test]
fn test_elixir_doc_comment() {
    let source = r#"
@doc """
Greets a person by name.
Returns a greeting string.
"""
def greet(name) do
  "Hello, #{name}"
end
"#;
    let tree = parse_elixir(source);
    let (_, symbols) = extract_elixir("/test.ex", source, &tree);

    let sym = symbols.iter().find(|s| s.name == "greet").unwrap();
    assert!(sym.doc_comment.is_some());
    let doc = sym.doc_comment.as_ref().unwrap();
    assert!(doc.contains("Greets a person by name"));
    assert_eq!(sym.doc_comment, Some("Greets a person by name.\nReturns a greeting string.".to_string()));
}

#[test]
fn test_elixir_defstruct() {
    let source = r#"
defmodule MyApp.User do
  defstruct [:name, :email]
end
"#;
    let tree = parse_elixir(source);
    let (_, symbols) = extract_elixir("/test.ex", source, &tree);

    assert!(symbols.iter().any(|s| s.kind == SymbolKind::Struct));
}

#[test]
fn elixir_one_line_doc_and_module_signature() {
    let source = "defmodule Shop do\n  @moduledoc false\n  @doc \"Adds one.\"\n  def inc(x), do: x + 1\nend\n";
    let tree = parse_elixir(source);
    let (_, symbols) = extract_elixir("/p/shop.ex", source, &tree);
    assert_eq!(symbols.len(), 2);
    assert_eq!(symbols[0].name, "Shop");
    assert_eq!(symbols[0].signature, "defmodule Shop");
    assert_eq!(symbols[0].doc_comment, None);
    assert_eq!(symbols[1].name, "inc");
    assert_eq!(symbols[1].doc_comment, Some("Adds one.".to_string()));
    assert_eq!(symbols[1].line, 4);
}

#[test]
fn elixir_alias_resolves_below_the_mix_project() {
    let dir = TempDir::new().unwrap();
    write_file(dir.path(), "mix.exs", "");
    let lib = make_dir(dir.path(), "lib");
    let app = make_dir(&lib, "my_app");
    write_file(&app, "helper.ex", "defmodule MyApp.Helper do\nend\n");
    let from_file = app.join("main.ex").to_str().unwrap().to_string();

    let source = "defmodule MyApp.Main do\n  alias MyApp.Helper\n  import Missing.Thing\nend\n";
    let tree = parse_elixir(source);
    let (imports, _) = extract_elixir(&from_file, source, &tree);
    assert_eq!(imports.len(), 1);
    assert!(imports[0].target.ends_with("lib/my_app/helper.ex"));
    assert_eq!(imports[0].specifier, "MyApp.Helper");
}

#[test]
fn ruby_and_elixir_files_are_parsed() {
    let r = parse_source_file("/nowhere/a.rb", "X = 1\n", None).unwrap();
    assert_eq!(r.language, "ruby");
    assert_eq!(r.symbols.len(), 1);
    assert_eq!(r.symbols[0].name, "X");

    let r = parse_source_file("/nowhere/a.exs", "defmodule A do\nend\n", None).unwrap();
    assert_eq!(r.language, "elixir");
    assert_eq!(r.symbols.len(), 1);
    assert_eq!(r.symbols[0].kind, SymbolKind::Module);
}

#[test]
fn node_texts_follow_multibyte_characters() {
    let source = "# Grüße 👋\nclass Café\n  MAXIMUM = \"é\"\nend\n";
    let tree = parse_ruby(source);
    let (_, symbols) = extract_ruby("/p/cafe.rb", source, &tree);
    let names: Vec<&str> = symbols.iter().map(|s| s.name.as_str()).collect();
    assert_eq!(names, vec!["Café", "MAXIMUM"]);
    assert_eq!(symbols[0].doc_comment, Some("Grüße 👋".to_string()));
    assert_eq!(symbols[1].signature, "MAXIMUM = \"é\"");
}
