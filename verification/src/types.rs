//! The records the index is made of: import edges, symbols, and what a parse or a
//! graph walk gives back.
use vstd::prelude::*;

verus! {

/// An import of `target` by `source`, written `specifier` in the source file and naming
/// `symbols`.
#[derive(Clone, Debug)]
pub struct ImportEdge {
    pub source: String,
    pub target: String,
    pub specifier: String,
    pub symbols: Vec<String>,
}

/// What kind of declaration a symbol is.
#[derive(Clone, Copy, Debug, PartialEq, Eq, Structural)]
pub enum SymbolKind {
    Function,
    Class,
    Interface,
    Type,
    Enum,
    Const,
    Let,
    Var,
    Struct,
    Trait,
    Impl,
    Macro,
    Module,
    Unknown,
}

/// How far a symbol is visible outside its file.
#[derive(Clone, Copy, Debug, PartialEq, Eq, Structural)]
pub enum Visibility {
    Exported,
    DefaultExport,
    Public,
    PubCrate,
    PubSuper,
    Private,
}

/// A declaration found in a source file.
#[derive(Clone, Debug)]
pub struct Symbol {
    pub name: String,
    pub kind: SymbolKind,
    pub signature: String,
    pub doc_comment: Option<String>,
    pub visibility: Visibility,
    pub line: usize,
}

/// The result of parsing one file.
#[derive(Clone, Debug)]
pub struct FileParseResult {
    pub imports: Vec<ImportEdge>,
    pub symbols: Vec<Symbol>,
    pub language: String,
}

/// A file reached by a walk of the import graph, as it is reported.
#[derive(Clone, Debug)]
pub struct RelevantFile {
    pub file_path: String,
    pub relative_path: String,
    pub reason: String,
    pub depth: i64,
    pub symbols: Vec<Symbol>,
}

/// A symbol's visibility counts as public: exported, the default export, `pub` or
/// `pub(crate)`.
pub open spec fn is_public(v: Visibility) -> bool {
    v == Visibility::Exported || v == Visibility::DefaultExport || v == Visibility::Public
        || v == Visibility::PubCrate
}

/// Whether a visibility counts as public.
pub fn is_public_visibility(v: Visibility) -> (r: bool)
    ensures
        r == is_public(v),
{
    match v {
        Visibility::Exported | Visibility::DefaultExport | Visibility::Public | Visibility::PubCrate => true,
        Visibility::PubSuper | Visibility::Private => false,
    }
}

} // verus!
