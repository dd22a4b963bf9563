use cartographer::rust_syntax::extract_rust;
use cartographer::syntax::SyntaxTree;
use cartographer::treesitter::{parse_syntax, ParseError};
use cartographer::ts_js::extract_ts_js;
use cartographer::types::{SymbolKind, Visibility};
use std::io::Write;
use std::path::{Path, PathBuf};
use tempfile::TempDir;

/// Creates the directory `parent/name` (kept until the enclosing temporary directory goes).
fn make_dir(parent: &Path, name: &str) -> PathBuf {
    tempfile::Builder::new()
        .prefix(name)
        .rand_bytes(0)
        .keep(true)
        .tempdir_in(parent)
        .unwrap()
        .path()
        .to_path_buf()
}

/// Creates the file `parent/name` with the given contents.
fn write_file(parent: &Path, name: &str, contents: &str) -> PathBuf {
    let mut f = tempfile::Builder::new()
        .prefix(name)
        .rand_bytes(0)
        .keep(true)
        .tempfile_in(parent)
        .unwrap();
    f.write_all(contents.as_bytes()).unwrap();
    f.path().to_path_buf()
}

fn parse_ts(source: &str) -> SyntaxTree {
    match parse_syntax("typescript", source) {
        Ok(t) => t,
        Err(_) => panic!("typescript source did not parse"),
    }
}

fn parse_rust_code(source: &str) -> SyntaxTree {
    match parse_syntax("rust", source) {
        Ok(t) => t,
        Err(_) => panic!("rust source did not parse"),
    }
}

#[test]
fn extractor_test_extract_ts_symbols() {
    let source = r#"
export function greet(name: string): string {
    return `Hello, ${name}`;
}

const x = 42;

export class Foo {
    bar() {}
}
"#;
    let tree = parse_ts(source);
    let (_, symbols) = extract_ts_js("/test.ts", source, &tree, "typescript");

    assert!(symbols.iter().any(|s| s.name == "greet" && s.kind == SymbolKind::Function));
    assert!(symbols.iter().any(|s| s.name == "x" && s.kind == SymbolKind::Const));
    assert!(symbols.iter().any(|s| s.name == "Foo" && s.kind == SymbolKind::Class));
}

#[test]
fn extractor_test_extract_rust_symbols() {
    let source = r#"
/// A greeter function
pub fn greet(name: &str) -> String {
    format!("Hello, {}", name)
}

struct Config {
    debug: bool,
}

impl Config {
    fn new() -> Self {
        Config { debug: false }
    }
}
"#;
    let tree = parse_rust_code(source);
    let (_, symbols) = extract_rust("/test.rs", source, &tree, "/");

    assert!(symbols.iter().any(|s| s.name == "greet" && s.kind == SymbolKind::Function));
    assert!(symbols.iter().any(|s| s.name == "Config" && s.kind == SymbolKind::Struct));
    assert!(symbols.iter().any(|s| s.name == "Config" && s.kind == SymbolKind::Impl));
}

#[test]
fn extractor_test_doc_comment_extraction() {
    let source = r#"
/// This is a doc comment
/// with multiple lines
pub fn documented() {}
"#;
    let tree = parse_rust_code(source);
    let (_, symbols) = extract_rust("/test.rs", source, &tree, "/");

    let sym = symbols.iter().find(|s| s.name == "documented").unwrap();
    assert!(sym.doc_comment.is_some());
    let doc = sym.doc_comment.as_ref().unwrap();
    assert!(doc.contains("This is a doc comment"));
    assert!(doc.contains("with multiple lines"));
}

#[test]
fn extractor_test_rust_visibility() {
    let source = r#"
pub fn public_fn() {}
pub(crate) fn crate_fn() {}
fn private_fn() {}
"#;
    let tree = parse_rust_code(source);
    let (_, symbols) = extract_rust("/test.rs", source, &tree, "/");

    let pub_fn = symbols.iter().find(|s| s.name == "public_fn").unwrap();
    assert_eq!(pub_fn.visibility, Visibility::Public);

    let crate_fn = symbols.iter().find(|s| s.name == "crate_fn").unwrap();
    assert_eq!(crate_fn.visibility, Visibility::PubCrate);

    let private_fn = symbols.iter().find(|s| s.name == "private_fn").unwrap();
    assert_eq!(private_fn.visibility, Visibility::Private);
}

#[test]
fn extractor_test_ts_named_imports() {
    let dir = TempDir::new().unwrap();
    let src = make_dir(dir.path(), "src");
    write_file(&src, "utils.ts", "export const a = 1; export const b = 2;");
    let from_file = src.join("index.ts").to_str().unwrap().to_string();

    let source = r#"import { a, b } from "./utils";"#;
    let tree = parse_ts(source);
    let (imports, _) = extract_ts_js(&from_file, source, &tree, "typescript");

    assert_eq!(imports.len(), 1);
    assert!(imports[0].target.ends_with("utils.ts"));
    assert_eq!(imports[0].specifier, "./utils");
    assert!(imports[0].symbols.contains(&"a".to_string()));
    assert!(imports[0].symbols.contains(&"b".to_string()));
}

#[test]
fn extractor_test_ts_default_import() {
    let dir = TempDir::new().unwrap();
    let src = make_dir(dir.path(), "src");
    write_file(&src, "config.ts", "export default {};");
    let from_file = src.join("index.ts").to_str().unwrap().to_string();

    let source = r#"import config from "./config";"#;
    let tree = parse_ts(source);
    let (imports, _) = extract_ts_js(&from_file, source, &tree, "typescript");

    assert_eq!(imports.len(), 1);
    assert!(imports[0].symbols.contains(&"default".to_string()));
}

#[test]
fn extractor_test_ts_namespace_import() {
    let dir = TempDir::new().unwrap();
    let src = make_dir(dir.path(), "src");
    write_file(&src, "utils.ts", "");
    let from_file = src.join("index.ts").to_str().unwrap().to_string();

    let source = r#"import * as utils from "./utils";"#;
    let tree = parse_ts(source);
    let (imports, _) = extract_ts_js(&from_file, source, &tree, "typescript");

    assert_eq!(imports.len(), 1);
    assert!(imports[0].symbols.contains(&"*".to_string()));
}

#[test]
fn extractor_test_ts_bare_import_skipped() {
    let source = r#"import express from "express";"#;
    let tree = parse_ts(source);
    let (imports, _) = extract_ts_js("/test.ts", source, &tree, "typescript");
    assert!(imports.is_empty());
}

#[test]
fn extractor_test_ts_re_export() {
    let dir = TempDir::new().unwrap();
    let src = make_dir(dir.path(), "src");
    write_file(&src, "types.ts", "export type Foo = {};");
    let from_file = src.join("index.ts").to_str().unwrap().to_string();

    let source = r#"export { Foo } from "./types";"#;
    let tree = parse_ts(source);
    let (imports, _) = extract_ts_js(&from_file, source, &tree, "typescript");

    assert_eq!(imports.len(), 1);
    assert!(imports[0].target.ends_with("types.ts"));
    assert!(imports[0].symbols.contains(&"*".to_string()));
}

#[test]
fn extractor_test_ts_interface_extraction() {
    let source = r#"
export interface Config {
    debug: boolean;
    port: number;
}
"#;
    let tree = parse_ts(source);
    let (_, symbols) = extract_ts_js("/test.ts", source, &tree, "typescript");

    let config = symbols.iter().find(|s| s.name == "Config").unwrap();
    assert_eq!(config.kind, SymbolKind::Interface);
    assert_eq!(config.visibility, Visibility::Exported);
}

#[test]
fn extractor_test_ts_type_alias_extraction() {
    let source = r#"
export type Result<T> = { ok: true; value: T } | { ok: false; error: Error };
"#;
    let tree = parse_ts(source);
    let (_, symbols) = extract_ts_js("/test.ts", source, &tree, "typescript");

    let result = symbols.iter().find(|s| s.name == "Result").unwrap();
    assert_eq!(result.kind, SymbolKind::Type);
    assert_eq!(result.visibility, Visibility::Exported);
}

#[test]
fn extractor_test_ts_enum_extraction() {
    let source = r#"
export enum Direction {
    Up,
    Down,
    Left,
    Right,
}
"#;
    let tree = parse_ts(source);
    let (_, symbols) = extract_ts_js("/test.ts", source, &tree, "typescript");

    let dir = symbols.iter().find(|s| s.name == "Direction").unwrap();
    assert_eq!(dir.kind, SymbolKind::Enum);
}

#[test]
fn extractor_test_ts_export_clause() {
    let source = r#"
const foo = 1;
const bar = 2;
export { foo, bar };
"#;
    let tree = parse_ts(source);
    let (_, symbols) = extract_ts_js("/test.ts", source, &tree, "typescript");

    // Should have private foo/bar + exported foo/bar from the export clause
    let exported: Vec<_> = symbols
        .iter()
        .filter(|s| s.visibility == Visibility::Exported)
        .collect();
    assert!(exported.iter().any(|s| s.name == "foo"));
    assert!(exported.iter().any(|s| s.name == "bar"));
}

#[test]
fn extractor_test_ts_export_default() {
    let source = r#"
export default function main() {
    return 42;
}
"#;
    let tree = parse_ts(source);
    let (_, symbols) = extract_ts_js("/test.ts", source, &tree, "typescript");

    let def = symbols.iter().find(|s| s.visibility == Visibility::DefaultExport);
    assert!(def.is_some());
}

#[test]
fn extractor_test_ts_multiple_variable_declarators() {
    let source = r#"
export const WIDTH = 800, HEIGHT = 600;
"#;
    let tree = parse_ts(source);
    let (_, symbols) = extract_ts_js("/test.ts", source, &tree, "typescript");

    assert!(symbols.iter().any(|s| s.name == "WIDTH" && s.kind == SymbolKind::Const));
    assert!(symbols.iter().any(|s| s.name == "HEIGHT" && s.kind == SymbolKind::Const));
}

#[test]
fn extractor_test_ts_let_declaration() {
    let source = r#"
let counter = 0;
"#;
    let tree = parse_ts(source);
    let (_, symbols) = extract_ts_js("/test.ts", source, &tree, "typescript");

    let counter = symbols.iter().find(|s| s.name == "counter").unwrap();
    assert_eq!(counter.kind, SymbolKind::Let);
    assert_eq!(counter.visibility, Visibility::Private);
}

#[test]
fn extractor_test_ts_var_declaration() {
    let source = r#"
var legacy = "old";
"#;
    let tree = parse_ts(source);
    let (_, symbols) = extract_ts_js("/test.ts", source, &tree, "typescript");

    let legacy = symbols.iter().find(|s| s.name == "legacy").unwrap();
    assert_eq!(legacy.kind, SymbolKind::Var);
    assert_eq!(legacy.visibility, Visibility::Private);
}

#[test]
fn extractor_test_ts_jsdoc_comment() {
    let source = r#"
/**
 * Validate the given token.
 * @param token - JWT string
 * @returns true if valid
 */
export function validateToken(token: string): boolean {
    return true;
}
"#;
    let tree = parse_ts(source);
    let (_, symbols) = extract_ts_js("/test.ts", source, &tree, "typescript");

    let sym = symbols.iter().find(|s| s.name == "validateToken").unwrap();
    assert!(sym.doc_comment.is_some());
    let doc = sym.doc_comment.as_ref().unwrap();
    assert!(doc.contains("Validate the given token"));
}

#[test]
fn extractor_test_ts_signature_stops_at_brace() {
    let source = r#"
export function greet(name: string): string {
    return name;
}
"#;
    let tree = parse_ts(source);
    let (_, symbols) = extract_ts_js("/test.ts", source, &tree, "typescript");

    let sym = symbols.iter().find(|s| s.name == "greet").unwrap();
    assert!(sym.signature.contains("greet"));
    assert!(!sym.signature.contains("return"));
}

#[test]
fn extractor_test_rust_enum_extraction() {
    let source = r#"
pub enum Color {
    Red,
    Green,
    Blue,
}
"#;
    let tree = parse_rust_code(source);
    let (_, symbols) = extract_rust("/test.rs", source, &tree, "/");

    let color = symbols.iter().find(|s| s.name == "Color").unwrap();
    assert_eq!(color.kind, SymbolKind::Enum);
    assert_eq!(color.visibility, Visibility::Public);
}

#[test]
fn extractor_test_rust_trait_extraction() {
    let source = r#"
pub trait Drawable {
    fn draw(&self);
}
"#;
    let tree = parse_rust_code(source);
    let (_, symbols) = extract_rust("/test.rs", source, &tree, "/");

    let t = symbols.iter().find(|s| s.name == "Drawable").unwrap();
    assert_eq!(t.kind, SymbolKind::Trait);
}

#[test]
fn extractor_test_rust_const_extraction() {
    let source = r#"
pub const MAX_SIZE: usize = 1024;
"#;
    let tree = parse_rust_code(source);
    let (_, symbols) = extract_rust("/test.rs", source, &tree, "/");

    let c = symbols.iter().find(|s| s.name == "MAX_SIZE").unwrap();
    assert_eq!(c.kind, SymbolKind::Const);
}

#[test]
fn extractor_test_rust_type_alias() {
    let source = r#"
pub type Result<T> = std::result::Result<T, Box<dyn std::error::Error>>;
"#;
    let tree = parse_rust_code(source);
    let (_, symbols) = extract_rust("/test.rs", source, &tree, "/");

    let t = symbols.iter().find(|s| s.name == "Result").unwrap();
    assert_eq!(t.kind, SymbolKind::Type);
}

#[test]
fn extractor_test_rust_macro_extraction() {
    let source = r#"
macro_rules! say_hello {
    () => { println!("Hello!"); };
}
"#;
    let tree = parse_rust_code(source);
    let (_, symbols) = extract_rust("/test.rs", source, &tree, "/");

    let m = symbols.iter().find(|s| s.name == "say_hello").unwrap();
    assert_eq!(m.kind, SymbolKind::Macro);
}

#[test]
fn extractor_test_rust_impl_trait_name() {
    let source = r#"
struct Foo;

impl std::fmt::Display for Foo {
    fn fmt(&self, f: &mut std::fmt::Formatter) -> std::fmt::Result {
        write!(f, "Foo")
    }
}
"#;
    let tree = parse_rust_code(source);
    let (_, symbols) = extract_rust("/test.rs", source, &tree, "/");

    let impl_sym = symbols.iter().find(|s| s.kind == SymbolKind::Impl).unwrap();
    assert_eq!(impl_sym.name, "Foo");
}

#[test]
fn extractor_test_rust_pub_super_visibility() {
    let source = r#"
pub(super) fn parent_visible() {}
"#;
    let tree = parse_rust_code(source);
    let (_, symbols) = extract_rust("/test.rs", source, &tree, "/");

    let sym = symbols.iter().find(|s| s.name == "parent_visible").unwrap();
    assert_eq!(sym.visibility, Visibility::PubSuper);
}

#[test]
fn extractor_test_rust_inline_mod_not_import() {
    let source = r#"
mod tests {
    fn test_something() {}
}
"#;
    let tree = parse_rust_code(source);
    let (imports, symbols) = extract_rust("/test.rs", source, &tree, "/");

    // Inline mod should produce a module symbol but no import edge
    assert!(imports.is_empty());
    let mod_sym = symbols.iter().find(|s| s.name == "tests").unwrap();
    assert_eq!(mod_sym.kind, SymbolKind::Module);
}

#[test]
fn extractor_test_rust_line_numbers() {
    let source = "pub fn first() {}\n\npub fn third() {}\n";
    let tree = parse_rust_code(source);
    let (_, symbols) = extract_rust("/test.rs", source, &tree, "/");

    let first = symbols.iter().find(|s| s.name == "first").unwrap();
    assert_eq!(first.line, 1);

    let third = symbols.iter().find(|s| s.name == "third").unwrap();
    assert_eq!(third.line, 3);
}

#[test]
fn ts_js_tests_test_extract_ts_symbols() {
    let source = r#"
export function greet(name: string): string {
    return `Hello, ${name}`;
}

const x = 42;

export class Foo {
    bar() {}
}
"#;
    let tree = parse_ts(source);
    let (_, symbols) = extract_ts_js("/test.ts", source, &tree, "typescript");

    assert!(symbols
    .iter()
    .any(|s| s.name == "greet" && s.kind == SymbolKind::Function));
    assert!(symbols
    .iter()
    .any(|s| s.name == "x" && s.kind == SymbolKind::Const));
    assert!(symbols
    .iter()
    .any(|s| s.name == "Foo" && s.kind == SymbolKind::Class));
}

#[test]
fn ts_js_tests_test_ts_named_imports() {
    let dir = TempDir::new().unwrap();
    let src = make_dir(dir.path(), "src");
    write_file(&src, "utils.ts", "export const a = 1; export const b = 2;");
    let from_file = src.join("index.ts").to_str().unwrap().to_string();

    let source = r#"import { a, b } from "./utils";"#;
    let tree = parse_ts(source);
    let (imports, _) = extract_ts_js(&from_file, source, &tree, "typescript");

    assert_eq!(imports.len(), 1);
    assert!(imports[0].target.ends_with("utils.ts"));
    assert_eq!(imports[0].specifier, "./utils");
    assert!(imports[0].symbols.contains(&"a".to_string()));
    assert!(imports[0].symbols.contains(&"b".to_string()));
}

#[test]
fn ts_js_tests_test_ts_default_import() {
    let dir = TempDir::new().unwrap();
    let src = make_dir(dir.path(), "src");
    write_file(&src, "config.ts", "export default {};");
    let from_file = src.join("index.ts").to_str().unwrap().to_string();

    let source = r#"import config from "./config";"#;
    let tree = parse_ts(source);
    let (imports, _) = extract_ts_js(&from_file, source, &tree, "typescript");

    assert_eq!(imports.len(), 1);
    assert!(imports[0].symbols.contains(&"default".to_string()));
}

#[test]
fn ts_js_tests_test_ts_namespace_import() {
    let dir = TempDir::new().unwrap();
    let src = make_dir(dir.path(), "src");
    write_file(&src, "utils.ts", "");
    let from_file = src.join("index.ts").to_str().unwrap().to_string();

    let source = r#"import * as utils from "./utils";"#;
    let tree = parse_ts(source);
    let (imports, _) = extract_ts_js(&from_file, source, &tree, "typescript");

    assert_eq!(imports.len(), 1);
    assert!(imports[0].symbols.contains(&"*".to_string()));
}

#[test]
fn ts_js_tests_test_ts_bare_import_skipped() {
    let source = r#"import express from "express";"#;
    let tree = parse_ts(source);
    let (imports, _) = extract_ts_js("/test.ts", source, &tree, "typescript");
    assert!(imports.is_empty());
}

#[test]
fn ts_js_tests_test_ts_re_export() {
    let dir = TempDir::new().unwrap();
    let src = make_dir(dir.path(), "src");
    write_file(&src, "types.ts", "export type Foo = {};");
    let from_file = src.join("index.ts").to_str().unwrap().to_string();

    let source = r#"export { Foo } from "./types";"#;
    let tree = parse_ts(source);
    let (imports, _) = extract_ts_js(&from_file, source, &tree, "typescript");

    assert_eq!(imports.len(), 1);
    assert!(imports[0].target.ends_with("types.ts"));
    assert!(imports[0].symbols.contains(&"*".to_string()));
}

#[test]
fn ts_js_tests_test_ts_interface_extraction() {
    let source = r#"
export interface Config {
    debug: boolean;
    port: number;
}
"#;
    let tree = parse_ts(source);
    let (_, symbols) = extract_ts_js("/test.ts", source, &tree, "typescript");

    let config = symbols.iter().find(|s| s.name == "Config").unwrap();
    assert_eq!(config.kind, SymbolKind::Interface);
    assert_eq!(config.visibility, Visibility::Exported);
}

#[test]
fn ts_js_tests_test_ts_type_alias_extraction() {
    let source = r#"
export type Result<T> = { ok: true; value: T } | { ok: false; error: Error };
"#;
    let tree = parse_ts(source);
    let (_, symbols) = extract_ts_js("/test.ts", source, &tree, "typescript");

    let result = symbols.iter().find(|s| s.name == "Result").unwrap();
    assert_eq!(result.kind, SymbolKind::Type);
    assert_eq!(result.visibility, Visibility::Exported);
}

#[test]
fn ts_js_tests_test_ts_enum_extraction() {
    let source = r#"
export enum Direction {
    Up,
    Down,
    Left,
    Right,
}
"#;
    let tree = parse_ts(source);
    let (_, symbols) = extract_ts_js("/test.ts", source, &tree, "typescript");

    let dir = symbols.iter().find(|s| s.name == "Direction").unwrap();
    assert_eq!(dir.kind, SymbolKind::Enum);
}

#[test]
fn ts_js_tests_test_ts_export_clause() {
    let source = r#"
const foo = 1;
const bar = 2;
export { foo, bar };
"#;
    let tree = parse_ts(source);
    let (_, symbols) = extract_ts_js("/test.ts", source, &tree, "typescript");

    let exported: Vec<_> = symbols
    .iter()
    .filter(|s| s.visibility == Visibility::Exported)
    .collect();
    assert!(exported.iter().any(|s| s.name == "foo"));
    assert!(exported.iter().any(|s| s.name == "bar"));
}

#[test]
fn ts_js_tests_test_ts_export_default() {
    let source = r#"
export default function main() {
    return 42;
}
"#;
    let tree = parse_ts(source);
    let (_, symbols) = extract_ts_js("/test.ts", source, &tree, "typescript");

    let def = symbols
    .iter()
    .find(|s| s.visibility == Visibility::DefaultExport);
    assert!(def.is_some());
}

#[test]
fn ts_js_tests_test_ts_multiple_variable_declarators() {
    let source = r#"
export const WIDTH = 800, HEIGHT = 600;
"#;
    let tree = parse_ts(source);
    let (_, symbols) = extract_ts_js("/test.ts", source, &tree, "typescript");

    assert!(symbols
    .iter()
    .any(|s| s.name == "WIDTH" && s.kind == SymbolKind::Const));
    assert!(symbols
    .iter()
    .any(|s| s.name == "HEIGHT" && s.kind == SymbolKind::Const));
}

#[test]
fn ts_js_tests_test_ts_let_declaration() {
    let source = "let counter = 0;\n";
    let tree = parse_ts(source);
    let (_, symbols) = extract_ts_js("/test.ts", source, &tree, "typescript");

    let counter = symbols.iter().find(|s| s.name == "counter").unwrap();
    assert_eq!(counter.kind, SymbolKind::Let);
    assert_eq!(counter.visibility, Visibility::Private);
}

#[test]
fn ts_js_tests_test_ts_var_declaration() {
    let source = "var legacy = \"old\";\n";
    let tree = parse_ts(source);
    let (_, symbols) = extract_ts_js("/test.ts", source, &tree, "typescript");

    let legacy = symbols.iter().find(|s| s.name == "legacy").unwrap();
    assert_eq!(legacy.kind, SymbolKind::Var);
    assert_eq!(legacy.visibility, Visibility::Private);
}

#[test]
fn ts_js_tests_test_ts_jsdoc_comment() {
    let source = r#"
/**
 * Validate the given token.
 * @param token - JWT string
 * @returns true if valid
 */
export function validateToken(token: string): boolean {
    return true;
}
"#;
    let tree = parse_ts(source);
    let (_, symbols) = extract_ts_js("/test.ts", source, &tree, "typescript");

    let sym = symbols.iter().find(|s| s.name == "validateToken").unwrap();
    assert!(sym.doc_comment.is_some());
    let doc = sym.doc_comment.as_ref().unwrap();
    assert!(doc.contains("Validate the given token"));
}

#[test]
fn ts_js_tests_test_ts_signature_stops_at_brace() {
    let source = r#"
export function greet(name: string): string {
    return name;
}
"#;
    let tree = parse_ts(source);
    let (_, symbols) = extract_ts_js("/test.ts", source, &tree, "typescript");

    let sym = symbols.iter().find(|s| s.name == "greet").unwrap();
    assert!(sym.signature.contains("greet"));
    assert!(!sym.signature.contains("return"));
}

#[test]
fn rust_ext_test_extract_rust_symbols() {
    let source = r#"
/// A greeter function
pub fn greet(name: &str) -> String {
    format!("Hello, {}", name)
}

struct Config {
    debug: bool,
}

impl Config {
    fn new() -> Self {
        Config { debug: false }
    }
}
"#;
    let tree = parse_rust_code(source);
    let (_, symbols) = extract_rust("/test.rs", source, &tree, "/");

    assert!(symbols
        .iter()
        .any(|s| s.name == "greet" && s.kind == SymbolKind::Function));
    assert!(symbols
        .iter()
        .any(|s| s.name == "Config" && s.kind == SymbolKind::Struct));
    assert!(symbols
        .iter()
        .any(|s| s.name == "Config" && s.kind == SymbolKind::Impl));
}

#[test]
fn rust_ext_test_doc_comment_extraction() {
    let source = r#"
/// This is a doc comment
/// with multiple lines
pub fn documented() {}
"#;
    let tree = parse_rust_code(source);
    let (_, symbols) = extract_rust("/test.rs", source, &tree, "/");

    let sym = symbols.iter().find(|s| s.name == "documented").unwrap();
    assert!(sym.doc_comment.is_some());
    let doc = sym.doc_comment.as_ref().unwrap();
    assert!(doc.contains("This is a doc comment"));
    assert!(doc.contains("with multiple lines"));
}

#[test]
fn rust_ext_test_rust_visibility() {
    let source = r#"
pub fn public_fn() {}
pub(crate) fn crate_fn() {}
fn private_fn() {}
"#;
    let tree = parse_rust_code(source);
    let (_, symbols) = extract_rust("/test.rs", source, &tree, "/");

    let pub_fn = symbols.iter().find(|s| s.name == "public_fn").unwrap();
    assert_eq!(pub_fn.visibility, Visibility::Public);

    let crate_fn = symbols.iter().find(|s| s.name == "crate_fn").unwrap();
    assert_eq!(crate_fn.visibility, Visibility::PubCrate);

    let private_fn = symbols.iter().find(|s| s.name == "private_fn").unwrap();
    assert_eq!(private_fn.visibility, Visibility::Private);
}

#[test]
fn rust_ext_test_rust_enum_extraction() {
    let source = r#"
pub enum Color {
    Red,
    Green,
    Blue,
}
"#;
    let tree = parse_rust_code(source);
    let (_, symbols) = extract_rust("/test.rs", source, &tree, "/");

    let color = symbols.iter().find(|s| s.name == "Color").unwrap();
    assert_eq!(color.kind, SymbolKind::Enum);
    assert_eq!(color.visibility, Visibility::Public);
}

#[test]
fn rust_ext_test_rust_trait_extraction() {
    let source = r#"
pub trait Drawable {
    fn draw(&self);
}
"#;
    let tree = parse_rust_code(source);
    let (_, symbols) = extract_rust("/test.rs", source, &tree, "/");

    let t = symbols.iter().find(|s| s.name == "Drawable").unwrap();
    assert_eq!(t.kind, SymbolKind::Trait);
}

#[test]
fn rust_ext_test_rust_const_extraction() {
    let source = "pub const MAX_SIZE: usize = 1024;\n";
    let tree = parse_rust_code(source);
    let (_, symbols) = extract_rust("/test.rs", source, &tree, "/");

    let c = symbols.iter().find(|s| s.name == "MAX_SIZE").unwrap();
    assert_eq!(c.kind, SymbolKind::Const);
}

#[test]
fn rust_ext_test_rust_type_alias() {
    let source = "pub type Result<T> = std::result::Result<T, Box<dyn std::error::Error>>;\n";
    let tree = parse_rust_code(source);
    let (_, symbols) = extract_rust("/test.rs", source, &tree, "/");

    let t = symbols.iter().find(|s| s.name == "Result").unwrap();
    assert_eq!(t.kind, SymbolKind::Type);
}

#[test]
fn rust_ext_test_rust_macro_extraction() {
    let source = r#"
macro_rules! say_hello {
    () => { println!("Hello!"); };
}
"#;
    let tree = parse_rust_code(source);
    let (_, symbols) = extract_rust("/test.rs", source, &tree, "/");

    let m = symbols.iter().find(|s| s.name == "say_hello").unwrap();
    assert_eq!(m.kind, SymbolKind::Macro);
}

#[test]
fn rust_ext_test_rust_impl_trait_name() {
    let source = r#"
struct Foo;

impl std::fmt::Display for Foo {
    fn fmt(&self, f: &mut std::fmt::Formatter) -> std::fmt::Result {
        write!(f, "Foo")
    }
}
"#;
    let tree = parse_rust_code(source);
    let (_, symbols) = extract_rust("/test.rs", source, &tree, "/");

    let impl_sym = symbols.iter().find(|s| s.kind == SymbolKind::Impl).unwrap();
    assert_eq!(impl_sym.name, "Foo");
}

#[test]
fn rust_ext_test_rust_pub_super_visibility() {
    let source = "pub(super) fn parent_visible() {}\n";
    let tree = parse_rust_code(source);
    let (_, symbols) = extract_rust("/test.rs", source, &tree, "/");

    let sym = symbols.iter().find(|s| s.name == "parent_visible").unwrap();
    assert_eq!(sym.visibility, Visibility::PubSuper);
}

#[test]
fn rust_ext_test_rust_inline_mod_not_import() {
    let source = r#"
mod tests {
    fn test_something() {}
}
"#;
    let tree = parse_rust_code(source);
    let (imports, symbols) = extract_rust("/test.rs", source, &tree, "/");

    assert!(imports.is_empty());
    let mod_sym = symbols.iter().find(|s| s.name == "tests").unwrap();
    assert_eq!(mod_sym.kind, SymbolKind::Module);
}

#[test]
fn rust_ext_test_rust_line_numbers() {
    let source = "pub fn first() {}\n\npub fn third() {}\n";
    let tree = parse_rust_code(source);
    let (_, symbols) = extract_rust("/test.rs", source, &tree, "/");

    let first = symbols.iter().find(|s| s.name == "first").unwrap();
    assert_eq!(first.line, 1);

    let third = symbols.iter().find(|s| s.name == "third").unwrap();
    assert_eq!(third.line, 3);
}

#[test]
fn parsed_tree_copies_tree_sitter_nodes() {
    let t = parse_rust_code("fn main() {}\n\nstruct S;\n");
    let root = &t.nodes[0];
    assert_eq!(root.kind, "source_file");
    assert_eq!(root.row, 0);
    assert!(root.field.is_none());
    assert_eq!(root.children.len(), 2);
    let f = &t.nodes[root.children[0]];
    assert_eq!(f.kind, "function_item");
    assert_eq!(f.text.as_deref(), Some("fn main() {}"));
    let name = f
        .children
        .iter()
        .map(|&c| &t.nodes[c])
        .find(|n| n.field.as_deref() == Some("name"))
        .unwrap();
    assert_eq!(name.kind, "identifier");
    assert_eq!(name.text.as_deref(), Some("main"));
    let s = &t.nodes[root.children[1]];
    assert_eq!(s.kind, "struct_item");
    assert_eq!(s.row, 2);
    assert_eq!(s.text.as_deref(), Some("struct S;"));
}

#[test]
fn parse_without_grammar_is_refused() {
    assert!(matches!(parse_syntax("cobol", "x"), Err(ParseError::UnknownLanguage)));
}
