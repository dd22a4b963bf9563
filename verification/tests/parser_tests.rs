use cartographer::parser::{hash_content, parse_source_file};
use cartographer::types::SymbolKind;

#[test]
fn content_hashes_are_md5_hex() {
    assert_eq!(hash_content(""), "d41d8cd98f00b204e9800998ecf8427e");
    assert_eq!(hash_content("abc"), "900150983cd24fb0d6963f7d28e17f72");
}

#[test]
fn refused_files() {
    assert_eq!(parse_source_file("/p/Makefile", "", None).err(), Some("No extension: /p/Makefile".to_string()));
    assert_eq!(parse_source_file("/p/a.py", "", None).err(), Some("Unsupported file extension: .py".to_string()));
}

#[test]
fn parses_typescript_and_rust() {
    let r = parse_source_file("/nowhere/a.tsx", "export const A = 1;\nfunction f() {}\n", None).unwrap();
    assert_eq!(r.language, "tsx");
    assert!(r.imports.is_empty());
    assert_eq!(r.symbols.len(), 2);
    assert_eq!(r.symbols[0].name, "A");
    assert_eq!(r.symbols[0].kind, SymbolKind::Const);
    assert_eq!(r.symbols[1].line, 2);

    let r = parse_source_file("/nowhere/lib.rs", "use crate::x::Y;\n/// Doc\npub struct S;\n", Some("/nowhere")).unwrap();
    assert_eq!(r.language, "rust");
    assert!(r.imports.is_empty());
    assert_eq!(r.symbols.len(), 1);
    assert_eq!(r.symbols[0].doc_comment, Some("Doc".to_string()));
    assert_eq!(r.symbols[0].signature, "pub struct S;");
}
