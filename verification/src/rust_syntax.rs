//! Reading the imports and symbols of a Rust file from its syntax tree.
use vstd::prelude::*;
use vstd::string::*;
use crate::extract::{
    edges_from, pending_view, pending_views, resolutions_ok, resolve_imports, symbol_view, symbol_views,
    ImportKind, PendingImport, PendingView, SymbolView,
};
use crate::resolver::split_path_sep;
use crate::syntax::{
    child, child_by_field, children, field_child, fits_source, kind, kind_is, text, text_at, text_of_opt,
    text_or_empty, text_or_empty_at, well_formed, SyntaxTree,
};
use crate::text::{chars_of, contains_seq, contains_text, string_views};
use crate::ts_js::{declared, declared_symbol, source_ok, source_text, SourceText};
use crate::types::{ImportEdge, Symbol, SymbolKind, Visibility};

verus! {

/// The symbol kind a Rust item declares, by node kind.
pub open spec fn rust_kind_of(k: Seq<char>) -> Option<SymbolKind> {
    if k == "function_item"@ {
        Some(SymbolKind::Function)
    } else if k == "struct_item"@ {
        Some(SymbolKind::Struct)
    } else if k == "enum_item"@ {
        Some(SymbolKind::Enum)
    } else if k == "trait_item"@ {
        Some(SymbolKind::Trait)
    } else if k == "impl_item"@ {
        Some(SymbolKind::Impl)
    } else if k == "type_item"@ {
        Some(SymbolKind::Type)
    } else if k == "const_item"@ || k == "static_item"@ {
        Some(SymbolKind::Const)
    } else if k == "macro_definition"@ {
        Some(SymbolKind::Macro)
    } else if k == "mod_item"@ {
        Some(SymbolKind::Module)
    } else {
        None
    }
}

/// The symbol kind a Rust item declares, by node kind.
pub fn rust_kind_from_type(node_type: &str) -> (r: Option<SymbolKind>)
    ensures
        r == rust_kind_of(node_type@),
{
    let same = |k: &str| -> (b: bool)
        ensures
            b == (node_type@ == k@),
        { crate::syntax::same_text(node_type, k) };
    if same("function_item") {
        Some(SymbolKind::Function)
    } else if same("struct_item") {
        Some(SymbolKind::Struct)
    } else if same("enum_item") {
        Some(SymbolKind::Enum)
    } else if same("trait_item") {
        Some(SymbolKind::Trait)
    } else if same("impl_item") {
        Some(SymbolKind::Impl)
    } else if same("type_item") {
        Some(SymbolKind::Type)
    } else if same("const_item") || same("static_item") {
        Some(SymbolKind::Const)
    } else if same("macro_definition") {
        Some(SymbolKind::Macro)
    } else if same("mod_item") {
        Some(SymbolKind::Module)
    } else {
        None
    }
}

/// An item's visibility, read from a leading visibility modifier: `pub`, `pub(crate)`,
/// `pub(super)`; any other modifier counts as public, no modifier as private.
pub open spec fn rust_visibility(t: SyntaxTree, n: int) -> Visibility {
    match child(t, n, 0) {
        None => Visibility::Private,
        Some(c) => if kind(t, c) != "visibility_modifier"@ {
            Visibility::Private
        } else {
            let tx = text_or_empty(t, c);
            if tx == "pub"@ {
                Visibility::Public
            } else if contains_seq(tx, "crate"@) {
                Visibility::PubCrate
            } else if contains_seq(tx, "super"@) {
                Visibility::PubSuper
            } else {
                Visibility::Public
            }
        },
    }
}

fn rust_visibility_at(t: &SyntaxTree, n: usize) -> (r: Visibility)
    requires
        well_formed(*t),
        n < t.nodes@.len(),
    ensures
        r == rust_visibility(*t, n as int),
{
    if t.nodes[n].children.len() == 0 {
        return Visibility::Private;
    }
    let c = t.nodes[n].children[0];
    assert(n < t.nodes@[n as int].children@[0] < t.nodes@.len());
    assert(child(*t, n as int, 0) == Some(c as int));
    if !kind_is(t, c, "visibility_modifier") {
        return Visibility::Private;
    }
    let tx = text_or_empty_at(t, c);
    let w = chars_of(tx.as_str());
    let crate_word = chars_of("crate");
    let super_word = chars_of("super");
    if crate::syntax::same_text(tx.as_str(), "pub") {
        Visibility::Public
    } else if contains_text(&w, &crate_word) {
        Visibility::PubCrate
    } else if contains_text(&w, &super_word) {
        Visibility::PubSuper
    } else {
        Visibility::Public
    }
}

/// The text of the first `type_identifier` among `cs`, when it has one.
pub open spec fn first_type_ident(t: SyntaxTree, cs: Seq<usize>) -> Option<Seq<char>>
    decreases cs.len(),
{
    if cs.len() == 0 {
        None
    } else if kind(t, cs[0] as int) == "type_identifier"@ {
        text(t, cs[0] as int)
    } else {
        first_type_ident(t, cs.drop_first())
    }
}

/// The name of an impl block: the text of its `type` field, else of its first type
/// identifier.
pub open spec fn impl_name(t: SyntaxTree, n: int) -> Option<Seq<char>> {
    match field_child(t, n, "type"@) {
        Some(c) => text(t, c),
        None => first_type_ident(t, children(t, n)),
    }
}

fn impl_name_at(t: &SyntaxTree, n: usize) -> (r: Option<String>)
    requires
        well_formed(*t),
        n < t.nodes@.len(),
    ensures
        match impl_name(*t, n as int) {
            Some(s) => r is Some && r->0@ == s,
            None => r is None,
        },
{
    match child_by_field(t, n, "type") {
        Some(c) => {
            assert(impl_name(*t, n as int) == text(*t, c as int));
            return text_at(t, c);
        },
        None => {
            assert(impl_name(*t, n as int) == first_type_ident(*t, children(*t, n as int)));
        },
    }
    let cs = &t.nodes[n].children;
    let mut i: usize = 0;
    assert(cs@.skip(0) =~= cs@);
    while i < cs.len()
        invariant
            well_formed(*t),
            n < t.nodes@.len(),
            cs@ == children(*t, n as int),
            i <= cs@.len(),
            first_type_ident(*t, cs@) == first_type_ident(*t, cs@.skip(i as int)),
            impl_name(*t, n as int) == first_type_ident(*t, cs@),
        decreases cs.len() - i,
    {
        let c = cs[i];
        assert(n < t.nodes@[n as int].children@[i as int] < t.nodes@.len());
        assert(cs@.skip(i as int)[0] == c);
        assert(cs@.skip(i as int).drop_first() =~= cs@.skip(i + 1));
        if kind_is(t, c, "type_identifier") {
            return text_at(t, c);
        }
        i += 1;
    }
    assert(cs@.skip(i as int) =~= Seq::<usize>::empty());
    None
}

/// The name a Rust item declares: its `name` field's text, or for an impl block its
/// type's name.
pub open spec fn item_name(t: SyntaxTree, n: int, k: SymbolKind) -> Option<Seq<char>> {
    match field_child(t, n, "name"@) {
        Some(c) => text(t, c),
        None => if k == SymbolKind::Impl {
            impl_name(t, n)
        } else {
            None
        },
    }
}

/// The symbol a top-level Rust item `n` declares, if it declares one.
pub open spec fn rust_symbol(source: Seq<char>, t: SyntaxTree, n: int) -> Seq<SymbolView> {
    match rust_kind_of(kind(t, n)) {
        None => seq![],
        Some(k) => match item_name(t, n, k) {
            Some(name) => seq![declared(source, t, n, name, k, rust_visibility(t, n))],
            None => seq![],
        },
    }
}

fn rust_symbol_at(src: &SourceText, t: &SyntaxTree, n: usize, out: &mut Vec<Symbol>)
    requires
        source_ok(src),
        well_formed(*t),
        fits_source(*t, src.text@),
        n < t.nodes@.len(),
    ensures
        symbol_views(final(out)@) == symbol_views(old(out)@) + rust_symbol(src.text@, *t, n as int),
{
    let ghost before = symbol_views(out@);
    match rust_kind_from_type(t.nodes[n].kind.as_str()) {
        None => {
            assert(symbol_views(out@) =~= before + Seq::<SymbolView>::empty());
        },
        Some(k) => {
            let name = match child_by_field(t, n, "name") {
                Some(c) => text_at(t, c),
                None => match k {
                    SymbolKind::Impl => impl_name_at(t, n),
                    _ => None,
                },
            };
            match name {
                Some(nm) => {
                    let vis = rust_visibility_at(t, n);
                    let s = declared_symbol(src, t, n, nm, k, vis);
                    out.push(s);
                    assert(symbol_views(out@) =~= before + seq![symbol_view(s)]);
                },
                None => {
                    assert(symbol_views(out@) =~= before + Seq::<SymbolView>::empty());
                },
            }
        },
    }
}

/// A node kind that holds the path of a `use` declaration.
pub open spec fn is_use_path_kind(k: Seq<char>) -> bool {
    k == "scoped_identifier"@ || k == "scoped_use_list"@ || k == "use_wildcard"@ || k == "identifier"@
        || k == "use_as_clause"@
}

/// The path of a `use` declaration: the text of its first child that holds one.
pub open spec fn use_path(t: SyntaxTree, cs: Seq<usize>) -> Option<Seq<char>>
    decreases cs.len(),
{
    if cs.len() == 0 {
        None
    } else if is_use_path_kind(kind(t, cs[0] as int)) {
        text(t, cs[0] as int)
    } else {
        use_path(t, cs.drop_first())
    }
}

/// The last `::`-separated segment of a path.
pub open spec fn last_segment(p: Seq<char>) -> Seq<char> {
    split_path_sep(p, seq![]).last()
}

/// The import a `use` declaration `n` makes: its path, naming the path's last segment.
pub open spec fn use_import(t: SyntaxTree, n: int) -> Seq<PendingView> {
    match use_path(t, children(t, n)) {
        Some(p) => seq![PendingView { kind: ImportKind::UsePath, module: p, specifier: p, symbols: seq![last_segment(p)] }],
        None => seq![],
    }
}

/// Some child of `n` is a declaration list (an inline module body).
pub open spec fn has_body(t: SyntaxTree, n: int) -> bool {
    exists|j: int| 0 <= j < children(t, n).len() && #[trigger] kind(t, children(t, n)[j] as int) == "declaration_list"@
}

/// The import a `mod` item `n` makes: none for an inline module, else the module file
/// named by the item.
pub open spec fn mod_import(t: SyntaxTree, n: int) -> Seq<PendingView> {
    if has_body(t, n) {
        seq![]
    } else {
        match text_of_opt(t, field_child(t, n, "name"@)) {
            Some(name) => seq![PendingView { kind: ImportKind::ModDecl, module: name, specifier: "mod "@ + name, symbols: seq![name] }],
            None => seq![],
        }
    }
}

/// The import a top-level Rust item `n` makes, if it makes one.
pub open spec fn rust_item_imports(t: SyntaxTree, n: int) -> Seq<PendingView> {
    if kind(t, n) == "use_declaration"@ {
        use_import(t, n)
    } else if kind(t, n) == "mod_item"@ {
        mod_import(t, n)
    } else {
        seq![]
    }
}

fn use_path_at(t: &SyntaxTree, n: usize) -> (r: Option<String>)
    requires
        well_formed(*t),
        n < t.nodes@.len(),
    ensures
        match use_path(*t, children(*t, n as int)) {
            Some(s) => r is Some && r->0@ == s,
            None => r is None,
        },
{
    let cs = &t.nodes[n].children;
    let mut i: usize = 0;
    assert(cs@.skip(0) =~= cs@);
    while i < cs.len()
        invariant
            well_formed(*t),
            n < t.nodes@.len(),
            cs@ == children(*t, n as int),
            i <= cs@.len(),
            use_path(*t, cs@) == use_path(*t, cs@.skip(i as int)),
        decreases cs.len() - i,
    {
        let c = cs[i];
        assert(n < t.nodes@[n as int].children@[i as int] < t.nodes@.len());
        assert(cs@.skip(i as int)[0] == c);
        assert(cs@.skip(i as int).drop_first() =~= cs@.skip(i + 1));
        if kind_is(t, c, "scoped_identifier") || kind_is(t, c, "scoped_use_list") || kind_is(t, c, "use_wildcard")
            || kind_is(t, c, "identifier") || kind_is(t, c, "use_as_clause") {
            return text_at(t, c);
        }
        i += 1;
    }
    assert(cs@.skip(i as int) =~= Seq::<usize>::empty());
    None
}

fn has_body_at(t: &SyntaxTree, n: usize) -> (r: bool)
    requires
        well_formed(*t),
        n < t.nodes@.len(),
    ensures
        r == has_body(*t, n as int),
{
    let cs = &t.nodes[n].children;
    let mut i: usize = 0;
    while i < cs.len()
        invariant
            well_formed(*t),
            n < t.nodes@.len(),
            cs@ == children(*t, n as int),
            i <= cs@.len(),
            forall|j: int| 0 <= j < i ==> #[trigger] kind(*t, cs@[j] as int) != "declaration_list"@,
        decreases cs.len() - i,
    {
        let c = cs[i];
        assert(n < t.nodes@[n as int].children@[i as int] < t.nodes@.len());
        if kind_is(t, c, "declaration_list") {
            return true;
        }
        i += 1;
    }
    false
}

fn rust_import_at(t: &SyntaxTree, n: usize, out: &mut Vec<PendingImport>)
    requires
        well_formed(*t),
        n < t.nodes@.len(),
    ensures
        pending_views(final(out)@) == pending_views(old(out)@) + rust_item_imports(*t, n as int),
{
    let ghost before = pending_views(out@);
    if kind_is(t, n, "use_declaration") {
        match use_path_at(t, n) {
            Some(p) => {
                let pc = chars_of(p.as_str());
                let segs = crate::resolver::split_on_path_sep(&pc);
                proof {
                    assert(segs@.len() > 0) by {
                        lemma_split_nonempty(p@, seq![]);
                    }
                }
                let last = crate::text::string_of(&segs[segs.len() - 1]);
                assert(last@ == last_segment(p@));
                let mut syms: Vec<String> = Vec::new();
                syms.push(last);
                let pi = PendingImport { kind: ImportKind::UsePath, module: p.clone(), specifier: p, symbols: syms };
                out.push(pi);
                assert(string_views(pi.symbols@) =~= seq![last_segment(p@)]);
                assert(pending_views(out@) =~= before + seq![pending_view(pi)]);
            },
            None => {
                assert(pending_views(out@) =~= before + Seq::<PendingView>::empty());
            },
        }
    } else if kind_is(t, n, "mod_item") {
        if has_body_at(t, n) {
            assert(pending_views(out@) =~= before + Seq::<PendingView>::empty());
        } else {
            let name = match child_by_field(t, n, "name") {
                Some(c) => text_at(t, c),
                None => None,
            };
            match name {
                Some(nm) => {
                    let mut spec = String::from_str("mod ");
                    spec.append(nm.as_str());
                    let mut syms: Vec<String> = Vec::new();
                    syms.push(nm.clone());
                    let pi = PendingImport { kind: ImportKind::ModDecl, module: nm, specifier: spec, symbols: syms };
                    out.push(pi);
                    assert(string_views(pi.symbols@) =~= seq![pi.module@]);
                    assert(pending_views(out@) =~= before + seq![pending_view(pi)]);
                },
                None => {
                    assert(pending_views(out@) =~= before + Seq::<PendingView>::empty());
                },
            }
        }
    } else {
        assert(pending_views(out@) =~= before + Seq::<PendingView>::empty());
    }
}

proof fn lemma_split_nonempty(s: Seq<char>, cur: Seq<char>)
    ensures
        split_path_sep(s, cur).len() > 0,
    decreases s.len(),
{
    if s.len() == 0 {
    } else if s.len() >= 2 && s[0] == ':' && s[1] == ':' {
        lemma_split_nonempty(s.skip(2), seq![]);
    } else {
        lemma_split_nonempty(s.drop_first(), cur.push(s[0]));
    }
}

pub open spec fn rust_top_imports(t: SyntaxTree, cs: Seq<usize>) -> Seq<PendingView>
    decreases cs.len(),
{
    if cs.len() == 0 {
        seq![]
    } else {
        rust_top_imports(t, cs.drop_last()) + rust_item_imports(t, cs.last() as int)
    }
}

pub open spec fn rust_top_symbols(source: Seq<char>, t: SyntaxTree, cs: Seq<usize>) -> Seq<SymbolView>
    decreases cs.len(),
{
    if cs.len() == 0 {
        seq![]
    } else {
        rust_top_symbols(source, t, cs.drop_last()) + rust_symbol(source, t, cs.last() as int)
    }
}

/// The imports of a Rust file: its `use` declarations and `mod` declarations of module
/// files, in order.
pub open spec fn rust_imports(t: SyntaxTree) -> Seq<PendingView> {
    rust_top_imports(t, children(t, 0))
}

/// The symbols of a Rust file: one per named top-level item, in order.
pub open spec fn rust_symbols(source: Seq<char>, t: SyntaxTree) -> Seq<SymbolView> {
    rust_top_symbols(source, t, children(t, 0))
}

/// The imports found in a Rust file, before their targets are looked for, and its symbols.
pub fn rust_outline(source: &str, tree: &SyntaxTree) -> (r: (Vec<PendingImport>, Vec<Symbol>))
    requires
        well_formed(*tree),
        fits_source(*tree, source@),
    ensures
        pending_views(r.0@) == rust_imports(*tree),
        symbol_views(r.1@) == rust_symbols(source@, *tree),
{
    let src = source_text(source);
    let t = tree;
    let mut imports: Vec<PendingImport> = Vec::new();
    let mut symbols: Vec<Symbol> = Vec::new();
    let cs = &t.nodes[0].children;
    let mut i: usize = 0;
    while i < cs.len()
        invariant
            source_ok(&src),
            src.text@ == source@,
            well_formed(*t),
            fits_source(*t, source@),
            cs@ == children(*t, 0),
            i <= cs@.len(),
            pending_views(imports@) == rust_top_imports(*t, cs@.take(i as int)),
            symbol_views(symbols@) == rust_top_symbols(source@, *t, cs@.take(i as int)),
        decreases cs.len() - i,
    {
        let n = cs[i];
        assert(0 < t.nodes@[0].children@[i as int] < t.nodes@.len());
        assert(cs@.take(i + 1).drop_last() =~= cs@.take(i as int));
        assert(cs@.take(i + 1).last() == n);
        rust_import_at(t, n, &mut imports);
        rust_symbol_at(&src, t, n, &mut symbols);
        i += 1;
    }
    assert(cs@.take(cs.len() as int) =~= cs@);
    (imports, symbols)
}

/// Reads the import edges and symbols of a Rust file from its syntax tree. `use` paths
/// are looked for from `crate_root` or the file's directory, `mod` declarations next to
/// the file; those found become edges, in order.
pub fn extract_rust(file_path: &str, source: &str, tree: &SyntaxTree, crate_root: &str) -> (r: (Vec<ImportEdge>, Vec<Symbol>))
    requires
        well_formed(*tree),
        fits_source(*tree, source@),
    ensures
        symbol_views(r.1@) == rust_symbols(source@, *tree),
        exists|targets: Seq<Option<Seq<char>>>| #![auto]
            resolutions_ok(file_path@, crate_root@, rust_imports(*tree), targets)
                && crate::extract::edge_views(r.0@) == edges_from(file_path@, rust_imports(*tree), targets),
{
    let (found, symbols) = rust_outline(source, tree);
    let (edges, _) = resolve_imports(file_path, crate_root, &found);
    (edges, symbols)
}

} // verus!
