//! Reading the imports and symbols of a TypeScript or JavaScript file from its syntax tree.
use vstd::prelude::*;
use vstd::string::*;
use crate::extract::{
    edges_from, pending_view, pending_views, resolutions_ok, resolve_imports, symbol_view, symbol_views,
    ImportKind, PendingImport, PendingView, SymbolView,
};
use crate::snippets::{doc_comment, doc_comment_at, signature, signature_of, strip_quotes, unquoted};
use crate::syntax::{
    child, child_by_field, children, field_child, fits_source, kind, kind_is, row, text, text_at, text_is,
    text_of_opt, text_or_empty, text_or_empty_at, well_formed, SyntaxTree,
};
use crate::text::{lines, string_views};
use crate::types::{ImportEdge, Symbol, SymbolKind, Visibility};

verus! {

/// A source text with its lines, as the doc comment lookup reads them.
pub struct SourceText {
    pub text: String,
    pub lines: Vec<Vec<char>>,
}

pub open spec fn source_ok(s: &SourceText) -> bool {
    crate::order::views(s.lines@) == lines(s.text@)
}

/// A source text with its lines.
pub fn source_text(text: &str) -> (r: SourceText)
    ensures
        source_ok(&r),
        r.text@ == text@,
{
    let c = crate::text::chars_of(text);
    let ls = crate::text::split_lines(&c);
    assert(crate::order::views(ls@) =~= lines(text@));
    SourceText { text: String::from_str(text), lines: ls }
}

/// A symbol declared by node `n`: its signature and doc comment are those of `n`, its line
/// is the one `n` starts on, counted from 1.
pub open spec fn declared(source: Seq<char>, t: SyntaxTree, n: int, name: Seq<char>, k: SymbolKind, vis: Visibility) -> SymbolView {
    SymbolView {
        name: name,
        kind: k,
        signature: signature_of(text_or_empty(t, n)),
        doc_comment: doc_comment(source, row(t, n)),
        visibility: vis,
        line: (row(t, n) + 1) as int,
    }
}

pub fn declared_symbol(src: &SourceText, t: &SyntaxTree, n: usize, name: String, k: SymbolKind, vis: Visibility) -> (r: Symbol)
    requires
        source_ok(src),
        well_formed(*t),
        fits_source(*t, src.text@),
        n < t.nodes@.len(),
    ensures
        symbol_view(r) == declared(src.text@, *t, n as int, name@, k, vis),
{
    let sig = signature(text_or_empty_at(t, n).as_str());
    let rw = t.nodes[n].row;
    assert(rw <= lines(src.text@).len());
    assert(t.nodes@[n as int].row < usize::MAX);
    let doc = doc_comment_at(&src.lines, rw, Ghost(src.text@));
    Symbol { name, kind: k, signature: sig, doc_comment: doc, visibility: vis, line: rw + 1 }
}

/// The node kinds that declare something.
pub open spec fn is_ts_decl(k: Seq<char>) -> bool {
    ||| k == "function_declaration"@
    ||| k == "class_declaration"@
    ||| k == "lexical_declaration"@
    ||| k == "variable_declaration"@
    ||| k == "interface_declaration"@
    ||| k == "type_alias_declaration"@
    ||| k == "enum_declaration"@
}

fn is_ts_decl_at(t: &SyntaxTree, n: usize) -> (r: bool)
    requires
        n < t.nodes@.len(),
    ensures
        r == is_ts_decl(kind(*t, n as int)),
{
    kind_is(t, n, "function_declaration") || kind_is(t, n, "class_declaration") || kind_is(t, n, "lexical_declaration")
        || kind_is(t, n, "variable_declaration") || kind_is(t, n, "interface_declaration") || kind_is(t, n, "type_alias_declaration")
        || kind_is(t, n, "enum_declaration")
}

/// The symbol kind a declaration of a single name has, by node kind.
pub open spec fn ts_kind_of(k: Seq<char>) -> Option<SymbolKind> {
    if k == "function_declaration"@ {
        Some(SymbolKind::Function)
    } else if k == "class_declaration"@ {
        Some(SymbolKind::Class)
    } else if k == "interface_declaration"@ {
        Some(SymbolKind::Interface)
    } else if k == "type_alias_declaration"@ {
        Some(SymbolKind::Type)
    } else if k == "enum_declaration"@ {
        Some(SymbolKind::Enum)
    } else {
        None
    }
}

/// The symbol kind a declaration of a single name has, by node kind.
pub fn ts_js_kind_from_type(node_type: &str) -> (r: Option<SymbolKind>)
    ensures
        r == ts_kind_of(node_type@),
{
    let same = |k: &str| -> (b: bool)
        ensures
            b == (node_type@ == k@),
        { crate::syntax::same_text(node_type, k) };
    if same("function_declaration") {
        Some(SymbolKind::Function)
    } else if same("class_declaration") {
        Some(SymbolKind::Class)
    } else if same("interface_declaration") {
        Some(SymbolKind::Interface)
    } else if same("type_alias_declaration") {
        Some(SymbolKind::Type)
    } else if same("enum_declaration") {
        Some(SymbolKind::Enum)
    } else {
        None
    }
}

/// The kind of the names a `const`, `let` or `var` declaration binds, read from its first
/// child.
pub open spec fn var_kind(t: SyntaxTree, n: int) -> SymbolKind {
    match text_of_opt(t, child(t, n, 0)) {
        Some(s) => if s == "const"@ {
            SymbolKind::Const
        } else if s == "var"@ {
            SymbolKind::Var
        } else {
            SymbolKind::Let
        },
        None => SymbolKind::Let,
    }
}

fn var_kind_at(t: &SyntaxTree, n: usize) -> (r: SymbolKind)
    requires
        well_formed(*t),
        n < t.nodes@.len(),
    ensures
        r == var_kind(*t, n as int),
{
    if t.nodes[n].children.len() == 0 {
        return SymbolKind::Let;
    }
    let c = t.nodes[n].children[0];
    assert(n < t.nodes@[n as int].children@[0] < t.nodes@.len());
    if text_is(t, c, "const") {
        SymbolKind::Const
    } else if text_is(t, c, "var") {
        SymbolKind::Var
    } else {
        SymbolKind::Let
    }
}

/// The names bound by the declarators among `cs` (children of declaration `n`).
pub open spec fn declarator_syms(source: Seq<char>, t: SyntaxTree, n: int, cs: Seq<usize>, vk: SymbolKind, vis: Visibility) -> Seq<SymbolView>
    decreases cs.len(),
{
    if cs.len() == 0 {
        seq![]
    } else {
        let c = cs.last() as int;
        declarator_syms(source, t, n, cs.drop_last(), vk, vis) + if kind(t, c) == "variable_declarator"@ {
            match text_of_opt(t, field_child(t, c, "name"@)) {
                Some(name) => seq![declared(source, t, n, name, vk, vis)],
                None => seq![],
            }
        } else {
            seq![]
        }
    }
}

/// The symbols declaration `n` declares, with visibility `vis`: one per declarator of a
/// variable declaration, else one for a named function, class, interface, type or enum.
pub open spec fn decl_syms(source: Seq<char>, t: SyntaxTree, n: int, vis: Visibility) -> Seq<SymbolView> {
    let k = kind(t, n);
    if k == "lexical_declaration"@ || k == "variable_declaration"@ {
        declarator_syms(source, t, n, children(t, n), var_kind(t, n), vis)
    } else {
        match ts_kind_of(k) {
            Some(sk) => match text_of_opt(t, field_child(t, n, "name"@)) {
                Some(name) => seq![declared(source, t, n, name, sk, vis)],
                None => seq![],
            },
            None => seq![],
        }
    }
}

fn named_text(t: &SyntaxTree, n: usize, f: &str) -> (r: Option<String>)
    requires
        well_formed(*t),
        n < t.nodes@.len(),
    ensures
        match text_of_opt(*t, field_child(*t, n as int, f@)) {
            Some(s) => r is Some && r->0@ == s,
            None => r is None,
        },
{
    match child_by_field(t, n, f) {
        Some(c) => {
            assert(field_child(*t, n as int, f@) == Some(c as int));
            text_at(t, c)
        },
        None => None,
    }
}

fn decl_symbols(src: &SourceText, t: &SyntaxTree, n: usize, vis: Visibility) -> (r: Vec<Symbol>)
    requires
        source_ok(src),
        well_formed(*t),
        fits_source(*t, src.text@),
        n < t.nodes@.len(),
    ensures
        symbol_views(r@) == decl_syms(src.text@, *t, n as int, vis),
{
    let mut out: Vec<Symbol> = Vec::new();
    if kind_is(t, n, "lexical_declaration") || kind_is(t, n, "variable_declaration") {
        let vk = var_kind_at(t, n);
        let cs = &t.nodes[n].children;
        let mut i: usize = 0;
        while i < cs.len()
            invariant
                source_ok(src),
                well_formed(*t),
                fits_source(*t, src.text@),
                n < t.nodes@.len(),
                cs@ == children(*t, n as int),
                i <= cs@.len(),
                symbol_views(out@) == declarator_syms(src.text@, *t, n as int, cs@.take(i as int), vk, vis),
            decreases cs.len() - i,
        {
            let ghost before = symbol_views(out@);
            let c = cs[i];
            assert(n < t.nodes@[n as int].children@[i as int] < t.nodes@.len());
            assert(cs@.take(i + 1).drop_last() =~= cs@.take(i as int));
            assert(cs@.take(i + 1).last() == c);
            if kind_is(t, c, "variable_declarator") {
                match named_text(t, c, "name") {
                    Some(name) => {
                        let s = declared_symbol(src, t, n, name, vk, vis);
                        out.push(s);
                        assert(symbol_views(out@) =~= before + seq![symbol_view(s)]);
                    },
                    None => {
                        assert(symbol_views(out@) =~= before + Seq::<SymbolView>::empty());
                    },
                }
            } else {
                assert(symbol_views(out@) =~= before + Seq::<SymbolView>::empty());
            }
            i += 1;
        }
        assert(cs@.take(cs.len() as int) =~= cs@);
        return out;
    }
    match ts_js_kind_from_type(t.nodes[n].kind.as_str()) {
        Some(sk) => match named_text(t, n, "name") {
            Some(name) => {
                let s = declared_symbol(src, t, n, name, sk, vis);
                out.push(s);
                assert(symbol_views(out@) =~= seq![symbol_view(s)]);
            },
            None => {
                assert(symbol_views(out@) =~= Seq::<SymbolView>::empty());
            },
        },
        None => {
            assert(symbol_views(out@) =~= Seq::<SymbolView>::empty());
        },
    }
    out
}

/// An exported declaration's symbol: exported, and documented by the comment above the
/// export when there is one.
pub open spec fn export_override(d: Option<Seq<char>>, s: SymbolView) -> SymbolView {
    SymbolView {
        name: s.name,
        kind: s.kind,
        signature: s.signature,
        doc_comment: if d is Some {
            d
        } else {
            s.doc_comment
        },
        visibility: Visibility::Exported,
        line: s.line,
    }
}

pub open spec fn overridden(d: Option<Seq<char>>, v: Seq<SymbolView>) -> Seq<SymbolView> {
    v.map_values(|s: SymbolView| export_override(d, s))
}

/// The node a specifier of an export clause is exported as: its alias, else its name.
pub open spec fn alias_or_name(t: SyntaxTree, c: int) -> Option<int> {
    match field_child(t, c, "alias"@) {
        Some(a) => Some(a),
        None => field_child(t, c, "name"@),
    }
}

/// The symbol an export clause's specifier `c` exports.
pub open spec fn specifier_sym(t: SyntaxTree, c: int) -> Seq<SymbolView> {
    if kind(t, c) == "export_specifier"@ {
        match text_of_opt(t, alias_or_name(t, c)) {
            Some(name) => seq![
                SymbolView {
                    name: name,
                    kind: SymbolKind::Unknown,
                    signature: text_or_empty(t, c),
                    doc_comment: None,
                    visibility: Visibility::Exported,
                    line: (row(t, c) + 1) as int,
                },
            ],
            None => seq![],
        }
    } else {
        seq![]
    }
}

/// The symbols an export clause's children `cs` export (`export { a, b as c }`).
pub open spec fn clause_syms(t: SyntaxTree, cs: Seq<usize>) -> Seq<SymbolView>
    decreases cs.len(),
{
    if cs.len() == 0 {
        seq![]
    } else {
        clause_syms(t, cs.drop_last()) + specifier_sym(t, cs.last() as int)
    }
}

/// The symbols child `c` of export statement `e` exports.
pub open spec fn export_child(source: Seq<char>, t: SyntaxTree, e: int, c: int) -> Seq<SymbolView> {
    if is_ts_decl(kind(t, c)) {
        overridden(doc_comment(source, row(t, e)), decl_syms(source, t, c, Visibility::Exported))
    } else if kind(t, c) == "export_clause"@ {
        clause_syms(t, children(t, c))
    } else {
        seq![]
    }
}

/// The symbols the children `cs` of export statement `e` export.
pub open spec fn exported_syms(source: Seq<char>, t: SyntaxTree, e: int, cs: Seq<usize>) -> Seq<SymbolView>
    decreases cs.len(),
{
    if cs.len() == 0 {
        seq![]
    } else {
        exported_syms(source, t, e, cs.drop_last()) + export_child(source, t, e, cs.last() as int)
    }
}

fn clause_symbols(t: &SyntaxTree, c: usize, out: &mut Vec<Symbol>)
    requires
        well_formed(*t),
        c < t.nodes@.len(),
    ensures
        symbol_views(final(out)@) == symbol_views(old(out)@) + clause_syms(*t, children(*t, c as int)),
{
    let cs = &t.nodes[c].children;
    let ghost start = symbol_views(out@);
    let mut i: usize = 0;
    while i < cs.len()
        invariant
            well_formed(*t),
            c < t.nodes@.len(),
            cs@ == children(*t, c as int),
            i <= cs@.len(),
            symbol_views(out@) == start + clause_syms(*t, cs@.take(i as int)),
        decreases cs.len() - i,
    {
        let ghost before = symbol_views(out@);
        let s = cs[i];
        assert(c < t.nodes@[c as int].children@[i as int] < t.nodes@.len());
        assert(cs@.take(i + 1).drop_last() =~= cs@.take(i as int));
        assert(cs@.take(i + 1).last() == s);
        if kind_is(t, s, "export_specifier") {
            let target = match child_by_field(t, s, "alias") {
                Some(a) => Some(a),
                None => child_by_field(t, s, "name"),
            };
            let name = match target {
                Some(x) => {
                    assert(alias_or_name(*t, s as int) == Some(x as int));
                    text_at(t, x)
                },
                None => {
                    assert(alias_or_name(*t, s as int) is None);
                    None
                },
            };
            assert(name matches Some(v) ==> text_of_opt(*t, alias_or_name(*t, s as int)) == Some(v@));
            assert(name is None ==> text_of_opt(*t, alias_or_name(*t, s as int)) is None);
            match name {
                Some(nm) => {
                    assert(t.nodes@[s as int].row < usize::MAX);
                    let sym = Symbol {
                        name: nm,
                        kind: SymbolKind::Unknown,
                        signature: text_or_empty_at(t, s),
                        doc_comment: None,
                        visibility: Visibility::Exported,
                        line: t.nodes[s].row + 1,
                    };
                    out.push(sym);
                    assert(specifier_sym(*t, s as int) =~= seq![symbol_view(sym)]);
                    assert(symbol_views(out@) =~= before + seq![symbol_view(sym)]);
                },
                None => {
                    assert(specifier_sym(*t, s as int) =~= Seq::<SymbolView>::empty());
                    assert(symbol_views(out@) =~= before + Seq::<SymbolView>::empty());
                },
            }
        } else {
            assert(specifier_sym(*t, s as int) =~= Seq::<SymbolView>::empty());
            assert(symbol_views(out@) =~= before + Seq::<SymbolView>::empty());
        }
        assert(clause_syms(*t, cs@.take(i + 1)) == clause_syms(*t, cs@.take(i as int)) + specifier_sym(*t, s as int));
        assert(symbol_views(out@) =~= start + clause_syms(*t, cs@.take(i + 1)));
        i += 1;
    }
    assert(cs@.take(cs.len() as int) =~= cs@);
}

fn exported_symbols(src: &SourceText, t: &SyntaxTree, e: usize, out: &mut Vec<Symbol>)
    requires
        source_ok(src),
        well_formed(*t),
        fits_source(*t, src.text@),
        e < t.nodes@.len(),
    ensures
        symbol_views(final(out)@) == symbol_views(old(out)@) + exported_syms(src.text@, *t, e as int, children(*t, e as int)),
{
    let cs = &t.nodes[e].children;
    let ghost start = symbol_views(out@);
    let mut i: usize = 0;
    while i < cs.len()
        invariant
            source_ok(src),
            well_formed(*t),
            fits_source(*t, src.text@),
            e < t.nodes@.len(),
            cs@ == children(*t, e as int),
            i <= cs@.len(),
            symbol_views(out@) == start + exported_syms(src.text@, *t, e as int, cs@.take(i as int)),
        decreases cs.len() - i,
    {
        let ghost before = symbol_views(out@);
        let c = cs[i];
        assert(e < t.nodes@[e as int].children@[i as int] < t.nodes@.len());
        assert(cs@.take(i + 1).drop_last() =~= cs@.take(i as int));
        assert(cs@.take(i + 1).last() == c);
        if is_ts_decl_at(t, c) {
            let syms = decl_symbols(src, t, c, Visibility::Exported);
            let rw = t.nodes[e].row;
            let mut k: usize = 0;
            let ghost d = doc_comment(src.text@, row(*t, e as int));
            let ghost sv = symbol_views(syms@);
            while k < syms.len()
                invariant
                    source_ok(src),
                    well_formed(*t),
                    fits_source(*t, src.text@),
                    e < t.nodes@.len(),
                    rw == t.nodes@[e as int].row,
                    sv == symbol_views(syms@),
                    d == doc_comment(src.text@, row(*t, e as int)),
                    k <= syms@.len(),
                    symbol_views(out@) == before + overridden(d, sv.take(k as int)),
                decreases syms.len() - k,
            {
                let ghost b2 = symbol_views(out@);
                assert(rw <= lines(src.text@).len());
                let doc = doc_comment_at(&src.lines, rw, Ghost(src.text@));
                let s = &syms[k];
                let new_doc = match doc {
                    Some(x) => Some(x),
                    None => match &s.doc_comment {
                        Some(y) => Some(y.clone()),
                        None => None,
                    },
                };
                let sym = Symbol {
                    name: s.name.clone(),
                    kind: s.kind,
                    signature: s.signature.clone(),
                    doc_comment: new_doc,
                    visibility: Visibility::Exported,
                    line: s.line,
                };
                out.push(sym);
                proof {
                    assert(sv[k as int] == symbol_view(syms@[k as int]));
                    assert(symbol_view(sym) == export_override(d, sv[k as int]));
                    assert(overridden(d, sv.take(k + 1)) =~= overridden(d, sv.take(k as int)).push(symbol_view(sym)));
                    assert(symbol_views(out@) =~= b2.push(symbol_view(sym)));
                }
                k += 1;
            }
            assert(sv.take(syms.len() as int) =~= sv);
        } else if kind_is(t, c, "export_clause") {
            clause_symbols(t, c, out);
        } else {
            assert(symbol_views(out@) =~= before + Seq::<SymbolView>::empty());
        }
        assert(symbol_views(out@) =~= start + exported_syms(src.text@, *t, e as int, cs@.take(i + 1)));
        i += 1;
    }
    assert(cs@.take(cs.len() as int) =~= cs@);
}

/// The names an import's specifier list `cs` brings in (`{ a, b }`).
pub open spec fn named_syms(t: SyntaxTree, cs: Seq<usize>) -> Seq<Seq<char>>
    decreases cs.len(),
{
    if cs.len() == 0 {
        seq![]
    } else {
        let c = cs.last() as int;
        named_syms(t, cs.drop_last()) + if kind(t, c) == "import_specifier"@ {
            match text_of_opt(t, field_child(t, c, "name"@)) {
                Some(x) => seq![x],
                None => seq![],
            }
        } else {
            seq![]
        }
    }
}

/// The symbols an import statement's children `cs` (under node `p`) bring in: `default`
/// for a default import, `*` for a namespace import, each name of a named import list;
/// an import clause is read the same way.
pub open spec fn import_syms(t: SyntaxTree, p: int, cs: Seq<usize>) -> Seq<Seq<char>>
    decreases t.nodes@.len() - p, cs.len(),
{
    if cs.len() == 0 {
        seq![]
    } else {
        let c = cs.last() as int;
        import_syms(t, p, cs.drop_last()) + if p < c < t.nodes@.len() {
            let k = kind(t, c);
            if k == "identifier"@ {
                let tx = text_or_empty(t, c);
                if tx != "from"@ && tx != "import"@ {
                    seq!["default"@]
                } else {
                    seq![]
                }
            } else if k == "namespace_import"@ {
                seq!["*"@]
            } else if k == "named_imports"@ {
                named_syms(t, children(t, c))
            } else if k == "import_clause"@ {
                import_syms(t, c, children(t, c))
            } else {
                seq![]
            }
        } else {
            seq![]
        }
    }
}

fn named_symbols(t: &SyntaxTree, c: usize, out: &mut Vec<String>)
    requires
        well_formed(*t),
        c < t.nodes@.len(),
    ensures
        string_views(final(out)@) == string_views(old(out)@) + named_syms(*t, children(*t, c as int)),
{
    let cs = &t.nodes[c].children;
    let ghost start = string_views(out@);
    let mut i: usize = 0;
    while i < cs.len()
        invariant
            well_formed(*t),
            c < t.nodes@.len(),
            cs@ == children(*t, c as int),
            i <= cs@.len(),
            string_views(out@) == start + named_syms(*t, cs@.take(i as int)),
        decreases cs.len() - i,
    {
        let ghost before = string_views(out@);
        let s = cs[i];
        assert(c < t.nodes@[c as int].children@[i as int] < t.nodes@.len());
        assert(cs@.take(i + 1).drop_last() =~= cs@.take(i as int));
        assert(cs@.take(i + 1).last() == s);
        if kind_is(t, s, "import_specifier") {
            match named_text(t, s, "name") {
                Some(x) => {
                    out.push(x);
                    assert(string_views(out@) =~= before + seq![x@]);
                },
                None => {
                    assert(string_views(out@) =~= before + Seq::<Seq<char>>::empty());
                },
            }
        } else {
            assert(string_views(out@) =~= before + Seq::<Seq<char>>::empty());
        }
        i += 1;
    }
    assert(cs@.take(cs.len() as int) =~= cs@);
}

fn import_symbols(t: &SyntaxTree, p: usize, out: &mut Vec<String>)
    requires
        well_formed(*t),
        p < t.nodes@.len(),
    ensures
        string_views(final(out)@) == string_views(old(out)@) + import_syms(*t, p as int, children(*t, p as int)),
    decreases t.nodes@.len() - p,
{
    let cs = &t.nodes[p].children;
    let ghost start = string_views(out@);
    let mut i: usize = 0;
    while i < cs.len()
        invariant
            well_formed(*t),
            p < t.nodes@.len(),
            cs@ == children(*t, p as int),
            i <= cs@.len(),
            string_views(out@) == start + import_syms(*t, p as int, cs@.take(i as int)),
        decreases cs.len() - i,
    {
        let ghost before = string_views(out@);
        let c = cs[i];
        assert(p < t.nodes@[p as int].children@[i as int] < t.nodes@.len());
        assert(cs@.take(i + 1).drop_last() =~= cs@.take(i as int));
        assert(cs@.take(i + 1).last() == c);
        if kind_is(t, c, "identifier") {
            let tx = text_or_empty_at(t, c);
            if !crate::syntax::same_text(tx.as_str(), "from") && !crate::syntax::same_text(tx.as_str(), "import") {
                let d = String::from_str("default");
                out.push(d);
                assert(string_views(out@) =~= before + seq!["default"@]);
            } else {
                assert(string_views(out@) =~= before + Seq::<Seq<char>>::empty());
            }
        } else if kind_is(t, c, "namespace_import") {
            let d = String::from_str("*");
            out.push(d);
            assert(string_views(out@) =~= before + seq!["*"@]);
        } else if kind_is(t, c, "named_imports") {
            named_symbols(t, c, out);
        } else if kind_is(t, c, "import_clause") {
            import_symbols(t, c, out);
        } else {
            assert(string_views(out@) =~= before + Seq::<Seq<char>>::empty());
        }
        assert(string_views(out@) =~= start + import_syms(*t, p as int, cs@.take(i + 1)));
        i += 1;
    }
    assert(cs@.take(cs.len() as int) =~= cs@);
}

/// An import of every symbol of `sp`.
pub open spec fn star_import(sp: Seq<char>) -> PendingView {
    PendingView { kind: ImportKind::Relative, module: sp, specifier: sp, symbols: seq!["*"@] }
}

fn star_pending(sp: String) -> (r: PendingImport)
    ensures
        pending_view(r) == star_import(sp@),
{
    let mut syms: Vec<String> = Vec::new();
    syms.push(String::from_str("*"));
    let r = PendingImport { kind: ImportKind::Relative, module: sp.clone(), specifier: sp, symbols: syms };
    assert(string_views(r.symbols@) =~= seq!["*"@]);
    r
}

/// The import a call `import("...")` at node `n` makes, if `n` is one.
pub open spec fn dynamic_here(t: SyntaxTree, n: int) -> Seq<PendingView> {
    if kind(t, n) == "call_expression"@ {
        match field_child(t, n, "function"@) {
            Some(f) => if kind(t, f) == "import"@ {
                match field_child(t, n, "arguments"@) {
                    Some(a) => match child(t, a, 1) {
                        Some(arg) => if kind(t, arg) == "string"@ {
                            match text(t, arg) {
                                Some(tx) => seq![star_import(unquoted(tx))],
                                None => seq![],
                            }
                        } else {
                            seq![]
                        },
                        None => seq![],
                    },
                    None => seq![],
                }
            } else {
                seq![]
            },
            None => seq![],
        }
    } else {
        seq![]
    }
}

/// The dynamic imports in the subtrees of `cs` (children of `p`), in document order.
pub open spec fn dynamic_in(t: SyntaxTree, p: int, cs: Seq<usize>) -> Seq<PendingView>
    decreases t.nodes@.len() - p, cs.len(),
{
    if cs.len() == 0 {
        seq![]
    } else {
        let c = cs.last() as int;
        dynamic_in(t, p, cs.drop_last()) + if p < c < t.nodes@.len() {
            dynamic_here(t, c) + dynamic_in(t, c, children(t, c))
        } else {
            seq![]
        }
    }
}

/// The dynamic imports of the whole tree, in document order.
pub open spec fn dynamic_imports(t: SyntaxTree) -> Seq<PendingView> {
    dynamic_here(t, 0) + dynamic_in(t, 0, children(t, 0))
}

fn dynamic_at(t: &SyntaxTree, n: usize, out: &mut Vec<PendingImport>)
    requires
        well_formed(*t),
        n < t.nodes@.len(),
    ensures
        pending_views(final(out)@) == pending_views(old(out)@) + dynamic_here(*t, n as int),
{
    let ghost before = pending_views(out@);
    let found = dynamic_specifier(t, n);
    match found {
        Some(tx) => {
            let sp = strip_quotes(tx.as_str());
            let p = star_pending(sp);
            out.push(p);
            assert(pending_views(out@) =~= before + seq![pending_view(p)]);
        },
        None => {
            assert(pending_views(out@) =~= before + Seq::<PendingView>::empty());
        },
    }
}

/// The string argument of an `import(...)` call at `n`.
pub open spec fn dynamic_arg(t: SyntaxTree, n: int) -> Option<Seq<char>> {
    if kind(t, n) == "call_expression"@ {
        match field_child(t, n, "function"@) {
            Some(f) => if kind(t, f) == "import"@ {
                match field_child(t, n, "arguments"@) {
                    Some(a) => match child(t, a, 1) {
                        Some(arg) => if kind(t, arg) == "string"@ {
                            text(t, arg)
                        } else {
                            None
                        },
                        None => None,
                    },
                    None => None,
                }
            } else {
                None
            },
            None => None,
        }
    } else {
        None
    }
}

proof fn lemma_dynamic_here(t: SyntaxTree, n: int)
    ensures
        dynamic_here(t, n) == match dynamic_arg(t, n) {
            Some(tx) => seq![star_import(unquoted(tx))],
            None => Seq::<PendingView>::empty(),
        },
{
}

fn dynamic_specifier(t: &SyntaxTree, n: usize) -> (r: Option<String>)
    requires
        well_formed(*t),
        n < t.nodes@.len(),
    ensures
        match dynamic_arg(*t, n as int) {
            Some(tx) => r is Some && r->0@ == tx,
            None => r is None,
        },
{
    proof {
        lemma_dynamic_here(*t, n as int);
    }
    if !kind_is(t, n, "call_expression") {
        return None;
    }
    let f = match child_by_field(t, n, "function") {
        Some(f) => f,
        None => return None,
    };
    if !kind_is(t, f, "import") {
        return None;
    }
    let a = match child_by_field(t, n, "arguments") {
        Some(a) => a,
        None => return None,
    };
    if t.nodes[a].children.len() <= 1 {
        return None;
    }
    let arg = t.nodes[a].children[1];
    assert(a < t.nodes@[a as int].children@[1] < t.nodes@.len());
    assert(child(*t, a as int, 1) == Some(arg as int));
    if !kind_is(t, arg, "string") {
        return None;
    }
    text_at(t, arg)
}

fn dynamic_below(t: &SyntaxTree, p: usize, out: &mut Vec<PendingImport>)
    requires
        well_formed(*t),
        p < t.nodes@.len(),
    ensures
        pending_views(final(out)@) == pending_views(old(out)@) + dynamic_in(*t, p as int, children(*t, p as int)),
    decreases t.nodes@.len() - p,
{
    let cs = &t.nodes[p].children;
    let ghost start = pending_views(out@);
    let mut i: usize = 0;
    while i < cs.len()
        invariant
            well_formed(*t),
            p < t.nodes@.len(),
            cs@ == children(*t, p as int),
            i <= cs@.len(),
            pending_views(out@) == start + dynamic_in(*t, p as int, cs@.take(i as int)),
        decreases cs.len() - i,
    {
        let ghost before = pending_views(out@);
        let c = cs[i];
        assert(p < t.nodes@[p as int].children@[i as int] < t.nodes@.len());
        assert(cs@.take(i + 1).drop_last() =~= cs@.take(i as int));
        assert(cs@.take(i + 1).last() == c);
        dynamic_at(t, c, out);
        dynamic_below(t, c, out);
        assert(pending_views(out@) =~= start + dynamic_in(*t, p as int, cs@.take(i + 1)));
        i += 1;
    }
    assert(cs@.take(cs.len() as int) =~= cs@);
}

/// The symbol kind of an export default: that of its first function or class child.
pub open spec fn infer_kind(t: SyntaxTree, cs: Seq<usize>) -> SymbolKind
    decreases cs.len(),
{
    if cs.len() == 0 {
        SymbolKind::Unknown
    } else {
        let k = kind(t, cs[0] as int);
        if k == "function_declaration"@ || k == "function"@ {
            SymbolKind::Function
        } else if k == "class_declaration"@ || k == "class"@ {
            SymbolKind::Class
        } else {
            infer_kind(t, cs.drop_first())
        }
    }
}

fn infer_kind_at(t: &SyntaxTree, n: usize) -> (r: SymbolKind)
    requires
        well_formed(*t),
        n < t.nodes@.len(),
    ensures
        r == infer_kind(*t, children(*t, n as int)),
{
    let cs = &t.nodes[n].children;
    let mut i: usize = 0;
    assert(cs@.skip(0) =~= cs@);
    while i < cs.len()
        invariant
            well_formed(*t),
            n < t.nodes@.len(),
            cs@ == children(*t, n as int),
            i <= cs@.len(),
            infer_kind(*t, cs@) == infer_kind(*t, cs@.skip(i as int)),
        decreases cs.len() - i,
    {
        let c = cs[i];
        assert(n < t.nodes@[n as int].children@[i as int] < t.nodes@.len());
        assert(cs@.skip(i as int)[0] == c);
        assert(cs@.skip(i as int).drop_first() =~= cs@.skip(i + 1));
        if kind_is(t, c, "function_declaration") || kind_is(t, c, "function") {
            return SymbolKind::Function;
        }
        if kind_is(t, c, "class_declaration") || kind_is(t, c, "class") {
            return SymbolKind::Class;
        }
        i += 1;
    }
    assert(cs@.skip(i as int) =~= Seq::<usize>::empty());
    SymbolKind::Unknown
}

/// Some child of `n` has the text `default`.
pub open spec fn is_default_export(t: SyntaxTree, n: int) -> bool {
    exists|j: int| 0 <= j < children(t, n).len() && #[trigger] text(t, children(t, n)[j] as int) == Some("default"@)
}

fn is_default_export_at(t: &SyntaxTree, n: usize) -> (r: bool)
    requires
        well_formed(*t),
        n < t.nodes@.len(),
    ensures
        r == is_default_export(*t, n as int),
{
    let cs = &t.nodes[n].children;
    let mut i: usize = 0;
    while i < cs.len()
        invariant
            well_formed(*t),
            n < t.nodes@.len(),
            cs@ == children(*t, n as int),
            i <= cs@.len(),
            forall|j: int| 0 <= j < i ==> #[trigger] text(*t, cs@[j] as int) != Some("default"@),
        decreases cs.len() - i,
    {
        let c = cs[i];
        assert(n < t.nodes@[n as int].children@[i as int] < t.nodes@.len());
        if text_is(t, c, "default") {
            return true;
        }
        i += 1;
    }
    false
}

/// The symbol an export default at `n` declares.
pub open spec fn default_sym(source: Seq<char>, t: SyntaxTree, n: int) -> SymbolView {
    declared(source, t, n, "default"@, infer_kind(t, children(t, n)), Visibility::DefaultExport)
}

/// The import a top-level statement `n` makes: a static import with the symbols it
/// names, or a re-export of every symbol; none for a statement without a source.
pub open spec fn item_imports(t: SyntaxTree, n: int) -> Seq<PendingView> {
    if kind(t, n) == "import_statement"@ {
        match text_of_opt(t, field_child(t, n, "source"@)) {
            Some(raw) => seq![
                PendingView {
                    kind: ImportKind::Relative,
                    module: unquoted(raw),
                    specifier: unquoted(raw),
                    symbols: import_syms(t, n, children(t, n)),
                },
            ],
            None => seq![],
        }
    } else if kind(t, n) == "export_statement"@ {
        match text_of_opt(t, field_child(t, n, "source"@)) {
            Some(raw) => seq![star_import(unquoted(raw))],
            None => seq![],
        }
    } else {
        seq![]
    }
}

/// The symbols a top-level statement `n` declares: the default export, the exported
/// declarations and names of an export statement, or a private declaration.
pub open spec fn item_symbols(source: Seq<char>, t: SyntaxTree, n: int) -> Seq<SymbolView> {
    let k = kind(t, n);
    if k == "import_statement"@ {
        seq![]
    } else if k == "export_statement"@ {
        if is_default_export(t, n) {
            seq![default_sym(source, t, n)]
        } else {
            exported_syms(source, t, n, children(t, n))
        }
    } else if k == "export_default_declaration"@ {
        seq![default_sym(source, t, n)]
    } else if is_ts_decl(k) {
        decl_syms(source, t, n, Visibility::Private)
    } else {
        seq![]
    }
}

pub open spec fn top_imports(t: SyntaxTree, cs: Seq<usize>) -> Seq<PendingView>
    decreases cs.len(),
{
    if cs.len() == 0 {
        seq![]
    } else {
        top_imports(t, cs.drop_last()) + item_imports(t, cs.last() as int)
    }
}

pub open spec fn top_symbols(source: Seq<char>, t: SyntaxTree, cs: Seq<usize>) -> Seq<SymbolView>
    decreases cs.len(),
{
    if cs.len() == 0 {
        seq![]
    } else {
        top_symbols(source, t, cs.drop_last()) + item_symbols(source, t, cs.last() as int)
    }
}

/// The imports of a TypeScript/JavaScript file: those of its top-level statements in
/// order, then its dynamic `import(...)` calls in document order.
pub open spec fn ts_js_imports(t: SyntaxTree) -> Seq<PendingView> {
    top_imports(t, children(t, 0)) + dynamic_imports(t)
}

/// The symbols of a TypeScript/JavaScript file, those of its top-level statements in order.
pub open spec fn ts_js_symbols(source: Seq<char>, t: SyntaxTree) -> Seq<SymbolView> {
    top_symbols(source, t, children(t, 0))
}

fn import_pending(t: &SyntaxTree, n: usize, out: &mut Vec<PendingImport>)
    requires
        well_formed(*t),
        n < t.nodes@.len(),
    ensures
        pending_views(final(out)@) == pending_views(old(out)@) + item_imports(*t, n as int),
{
    let ghost before = pending_views(out@);
    if kind_is(t, n, "import_statement") {
        match named_text(t, n, "source") {
            Some(raw) => {
                let sp = strip_quotes(raw.as_str());
                let mut syms: Vec<String> = Vec::new();
                import_symbols(t, n, &mut syms);
                assert(string_views(syms@) =~= import_syms(*t, n as int, children(*t, n as int)));
                let p = PendingImport { kind: ImportKind::Relative, module: sp.clone(), specifier: sp, symbols: syms };
                out.push(p);
                assert(pending_views(out@) =~= before + seq![pending_view(p)]);
            },
            None => {
                assert(pending_views(out@) =~= before + Seq::<PendingView>::empty());
            },
        }
    } else if kind_is(t, n, "export_statement") {
        match named_text(t, n, "source") {
            Some(raw) => {
                let sp = strip_quotes(raw.as_str());
                let p = star_pending(sp);
                out.push(p);
                assert(pending_views(out@) =~= before + seq![pending_view(p)]);
            },
            None => {
                assert(pending_views(out@) =~= before + Seq::<PendingView>::empty());
            },
        }
    } else {
        assert(pending_views(out@) =~= before + Seq::<PendingView>::empty());
    }
}

fn default_symbol(src: &SourceText, t: &SyntaxTree, n: usize) -> (r: Symbol)
    requires
        source_ok(src),
        well_formed(*t),
        fits_source(*t, src.text@),
        n < t.nodes@.len(),
    ensures
        symbol_view(r) == default_sym(src.text@, *t, n as int),
{
    let k = infer_kind_at(t, n);
    declared_symbol(src, t, n, String::from_str("default"), k, Visibility::DefaultExport)
}

fn item_symbols_at(src: &SourceText, t: &SyntaxTree, n: usize, out: &mut Vec<Symbol>)
    requires
        source_ok(src),
        well_formed(*t),
        fits_source(*t, src.text@),
        n < t.nodes@.len(),
    ensures
        symbol_views(final(out)@) == symbol_views(old(out)@) + item_symbols(src.text@, *t, n as int),
{
    let ghost before = symbol_views(out@);
    if kind_is(t, n, "import_statement") {
        assert(symbol_views(out@) =~= before + Seq::<SymbolView>::empty());
    } else if kind_is(t, n, "export_statement") {
        if is_default_export_at(t, n) {
            let s = default_symbol(src, t, n);
            out.push(s);
            assert(symbol_views(out@) =~= before + seq![symbol_view(s)]);
        } else {
            exported_symbols(src, t, n, out);
        }
    } else if kind_is(t, n, "export_default_declaration") {
        let s = default_symbol(src, t, n);
        out.push(s);
        assert(symbol_views(out@) =~= before + seq![symbol_view(s)]);
    } else if is_ts_decl_at(t, n) {
        let mut syms = decl_symbols(src, t, n, Visibility::Private);
        let ghost o0 = out@;
        let ghost s0 = syms@;
        out.append(&mut syms);
        assert(symbol_views(out@) =~= symbol_views(o0) + symbol_views(s0));
    } else {
        assert(symbol_views(out@) =~= before + Seq::<SymbolView>::empty());
    }
}

/// The imports found in a TypeScript/JavaScript file, before their targets are looked
/// for, and its symbols.
pub fn ts_js_outline(source: &str, tree: &SyntaxTree) -> (r: (Vec<PendingImport>, Vec<Symbol>))
    requires
        well_formed(*tree),
        fits_source(*tree, source@),
    ensures
        pending_views(r.0@) == ts_js_imports(*tree),
        symbol_views(r.1@) == ts_js_symbols(source@, *tree),
{
    let src = source_text(source);
    let t = tree;
    let mut imports: Vec<PendingImport> = Vec::new();
    let mut symbols: Vec<Symbol> = Vec::new();
    let cs = &t.nodes[0].children;
    let mut i: usize = 0;
    while i < cs.len()
        invariant
            source_ok(&src),
            src.text@ == source@,
            well_formed(*t),
            fits_source(*t, source@),
            cs@ == children(*t, 0),
            i <= cs@.len(),
            pending_views(imports@) == top_imports(*t, cs@.take(i as int)),
            symbol_views(symbols@) == top_symbols(source@, *t, cs@.take(i as int)),
        decreases cs.len() - i,
    {
        let ghost ib = pending_views(imports@);
        let n = cs[i];
        assert(0 < t.nodes@[0].children@[i as int] < t.nodes@.len());
        assert(cs@.take(i + 1).drop_last() =~= cs@.take(i as int));
        assert(cs@.take(i + 1).last() == n);
        import_pending(t, n, &mut imports);
        item_symbols_at(&src, t, n, &mut symbols);
        i += 1;
    }
    assert(cs@.take(cs.len() as int) =~= cs@);
    let ghost top = pending_views(imports@);
    dynamic_at(t, 0, &mut imports);
    dynamic_below(t, 0, &mut imports);
    assert(pending_views(imports@) =~= top + dynamic_imports(*t));
    (imports, symbols)
}

/// Reads the import edges and symbols of a TypeScript/JavaScript file from its syntax
/// tree. Import targets are looked for on disk relative to `file_path`; those found
/// become edges, in order.
pub fn extract_ts_js(file_path: &str, source: &str, tree: &SyntaxTree, language: &str) -> (r: (Vec<ImportEdge>, Vec<Symbol>))
    requires
        well_formed(*tree),
        fits_source(*tree, source@),
    ensures
        symbol_views(r.1@) == ts_js_symbols(source@, *tree),
        exists|targets: Seq<Option<Seq<char>>>| #![auto]
            resolutions_ok(file_path@, file_path@, ts_js_imports(*tree), targets)
                && crate::extract::edge_views(r.0@) == edges_from(file_path@, ts_js_imports(*tree), targets),
{
    let (found, symbols) = ts_js_outline(source, tree);
    let (edges, _) = resolve_imports(file_path, file_path, &found);
    (edges, symbols)
}


/// `n` is reached from `p` by following `d` links from a node to one of its children.
pub open spec fn reached(t: SyntaxTree, p: int, n: int, d: nat) -> bool
    decreases d,
{
    if d == 0 {
        n == p
    } else {
        exists|j: int| 0 <= j < children(t, p).len() && reached(t, #[trigger] children(t, p)[j] as int, n, (d - 1) as nat)
    }
}

proof fn lemma_contains_concat(a: Seq<PendingView>, b: Seq<PendingView>, x: PendingView)
    requires
        a.contains(x) || b.contains(x),
    ensures
        (a + b).contains(x),
{
    if a.contains(x) {
        let k = choose|k: int| 0 <= k < a.len() && a[k] == x;
        assert((a + b)[k] == x);
    } else {
        let k = choose|k: int| 0 <= k < b.len() && b[k] == x;
        assert((a + b)[a.len() + k] == x);
    }
}

proof fn lemma_dynamic_in_has(t: SyntaxTree, p: int, cs: Seq<usize>, k: int, x: PendingView)
    requires
        0 <= k < cs.len(),
        p < cs[k] < t.nodes@.len(),
        (dynamic_here(t, cs[k] as int) + dynamic_in(t, cs[k] as int, children(t, cs[k] as int))).contains(x),
    ensures
        dynamic_in(t, p, cs).contains(x),
    decreases cs.len(),
{
    let c = cs.last() as int;
    let rest = if p < c < t.nodes@.len() {
        dynamic_here(t, c) + dynamic_in(t, c, children(t, c))
    } else {
        seq![]
    };
    assert(dynamic_in(t, p, cs) == dynamic_in(t, p, cs.drop_last()) + rest);
    if k == cs.len() - 1 {
        lemma_contains_concat(dynamic_in(t, p, cs.drop_last()), rest, x);
    } else {
        assert(cs.drop_last()[k] == cs[k]);
        lemma_dynamic_in_has(t, p, cs.drop_last(), k, x);
        lemma_contains_concat(dynamic_in(t, p, cs.drop_last()), rest, x);
    }
}

proof fn lemma_reached_dynamic(t: SyntaxTree, p: int, n: int, d: nat, x: PendingView)
    requires
        well_formed(t),
        0 <= p < t.nodes@.len(),
        reached(t, p, n, d),
        dynamic_here(t, n).contains(x),
    ensures
        (dynamic_here(t, p) + dynamic_in(t, p, children(t, p))).contains(x),
    decreases d,
{
    if d == 0 {
        lemma_contains_concat(dynamic_here(t, p), dynamic_in(t, p, children(t, p)), x);
    } else {
        let j = choose|j: int| 0 <= j < children(t, p).len() && reached(t, #[trigger] children(t, p)[j] as int, n, (d - 1) as nat);
        let c = children(t, p)[j] as int;
        assert(t.nodes@[p].children@[j] as int == c);
        assert(p < c < t.nodes@.len());
        lemma_reached_dynamic(t, c, n, (d - 1) as nat, x);
        lemma_dynamic_in_has(t, p, children(t, p), j, x);
        lemma_contains_concat(dynamic_here(t, p), dynamic_in(t, p, children(t, p)), x);
    }
}

/// Every call `import("<spec>")` anywhere in the tree, with a string argument, is read as
/// an import of `<spec>` (its quotes removed) naming `*`, listed after the imports of the
/// top-level statements.
pub proof fn law_dynamic_imports_read(t: SyntaxTree, n: int, d: nat, f: int, a: int, arg: int, tx: Seq<char>)
    requires
        well_formed(t),
        reached(t, 0, n, d),
        kind(t, n) == "call_expression"@,
        field_child(t, n, "function"@) == Some(f),
        kind(t, f) == "import"@,
        field_child(t, n, "arguments"@) == Some(a),
        child(t, a, 1) == Some(arg),
        kind(t, arg) == "string"@,
        text(t, arg) == Some(tx),
    ensures
        ts_js_imports(t).skip(top_imports(t, children(t, 0)).len() as int).contains(PendingView {
            kind: ImportKind::Relative,
            module: unquoted(tx),
            specifier: unquoted(tx),
            symbols: seq!["*"@],
        }),
{
    let x = PendingView { kind: ImportKind::Relative, module: unquoted(tx), specifier: unquoted(tx), symbols: seq!["*"@] };
    assert(dynamic_here(t, n) == seq![x]);
    assert(dynamic_here(t, n)[0] == x);
    lemma_reached_dynamic(t, 0, n, d, x);
    let top = top_imports(t, children(t, 0));
    assert(ts_js_imports(t).skip(top.len() as int) =~= dynamic_imports(t));
}


proof fn lemma_top_imports_has(t: SyntaxTree, cs: Seq<usize>, j: int, x: PendingView)
    requires
        0 <= j < cs.len(),
        item_imports(t, cs[j] as int).contains(x),
    ensures
        top_imports(t, cs).contains(x),
    decreases cs.len(),
{
    if j == cs.len() - 1 {
        lemma_contains_concat(top_imports(t, cs.drop_last()), item_imports(t, cs.last() as int), x);
    } else {
        assert(cs.drop_last()[j] == cs[j]);
        lemma_top_imports_has(t, cs.drop_last(), j, x);
        lemma_contains_concat(top_imports(t, cs.drop_last()), item_imports(t, cs.last() as int), x);
    }
}

/// Every top-level `import ... from "<spec>"` is read as an import of `<spec>` (its quotes
/// removed) with the names it brings in, and every top-level `export ... from "<spec>"`
/// as an import of every symbol of `<spec>`; both come before the dynamic imports.
pub proof fn law_static_imports_read(t: SyntaxTree, j: int, raw: Seq<char>)
    requires
        0 <= j < children(t, 0).len(),
        text_of_opt(t, field_child(t, children(t, 0)[j] as int, "source"@)) == Some(raw),
    ensures
        kind(t, children(t, 0)[j] as int) == "import_statement"@ ==> ts_js_imports(t).take(top_imports(t, children(t, 0)).len() as int).contains(PendingView {
            kind: ImportKind::Relative,
            module: unquoted(raw),
            specifier: unquoted(raw),
            symbols: import_syms(t, children(t, 0)[j] as int, children(t, children(t, 0)[j] as int)),
        }),
        kind(t, children(t, 0)[j] as int) == "export_statement"@ ==> ts_js_imports(t).take(top_imports(t, children(t, 0)).len() as int).contains(PendingView {
            kind: ImportKind::Relative,
            module: unquoted(raw),
            specifier: unquoted(raw),
            symbols: seq!["*"@],
        }),
{
    let n = children(t, 0)[j] as int;
    let top = top_imports(t, children(t, 0));
    assert(ts_js_imports(t).take(top.len() as int) =~= top);
    reveal_strlit("import_statement");
    reveal_strlit("export_statement");
    if kind(t, n) == "import_statement"@ {
        let x = PendingView {
            kind: ImportKind::Relative,
            module: unquoted(raw),
            specifier: unquoted(raw),
            symbols: import_syms(t, n, children(t, n)),
        };
        assert(item_imports(t, n)[0] == x);
        lemma_top_imports_has(t, children(t, 0), j, x);
    }
    if kind(t, n) == "export_statement"@ {
        let x = star_import(unquoted(raw));
        assert("import_statement"@ != "export_statement"@) by {
            assert("import_statement"@[0] != "export_statement"@[0]);
        }
        assert(item_imports(t, n)[0] == x);
        lemma_top_imports_has(t, children(t, 0), j, x);
    }
}


proof fn lemma_contains_concat_sym(a: Seq<SymbolView>, b: Seq<SymbolView>, x: SymbolView)
    requires
        a.contains(x) || b.contains(x),
    ensures
        (a + b).contains(x),
{
    if a.contains(x) {
        let k = choose|k: int| 0 <= k < a.len() && a[k] == x;
        assert((a + b)[k] == x);
    } else {
        let k = choose|k: int| 0 <= k < b.len() && b[k] == x;
        assert((a + b)[a.len() + k] == x);
    }
}

proof fn lemma_top_symbols_has(source: Seq<char>, t: SyntaxTree, cs: Seq<usize>, j: int, x: SymbolView)
    requires
        0 <= j < cs.len(),
        item_symbols(source, t, cs[j] as int).contains(x),
    ensures
        top_symbols(source, t, cs).contains(x),
    decreases cs.len(),
{
    if j < cs.len() - 1 {
        assert(cs.drop_last()[j] == cs[j]);
        lemma_top_symbols_has(source, t, cs.drop_last(), j, x);
    }
    lemma_contains_concat_sym(top_symbols(source, t, cs.drop_last()), item_symbols(source, t, cs.last() as int), x);
}

proof fn lemma_exported_has(source: Seq<char>, t: SyntaxTree, e: int, cs: Seq<usize>, j: int, x: SymbolView)
    requires
        0 <= j < cs.len(),
        export_child(source, t, e, cs[j] as int).contains(x),
    ensures
        exported_syms(source, t, e, cs).contains(x),
    decreases cs.len(),
{
    if j < cs.len() - 1 {
        assert(cs.drop_last()[j] == cs[j]);
        lemma_exported_has(source, t, e, cs.drop_last(), j, x);
    }
    lemma_contains_concat_sym(exported_syms(source, t, e, cs.drop_last()), export_child(source, t, e, cs.last() as int), x);
}

/// A named function, class, interface, type alias or enum declared at the top level is
/// a private symbol of that kind on the line its declaration starts (counted from 1);
/// declared inside `export` (not `export default`), it is an exported one.
pub proof fn law_declarations_read(source: Seq<char>, t: SyntaxTree, j: int, c: int, dk: Seq<char>, sk: SymbolKind, name: Seq<char>)
    requires
        well_formed(t),
        (dk == "function_declaration"@ && sk == SymbolKind::Function) || (dk == "class_declaration"@ && sk == SymbolKind::Class)
            || (dk == "interface_declaration"@ && sk == SymbolKind::Interface) || (dk == "type_alias_declaration"@ && sk == SymbolKind::Type)
            || (dk == "enum_declaration"@ && sk == SymbolKind::Enum),
        0 <= j < children(t, 0).len(),
        c == children(t, 0)[j] as int || (kind(t, children(t, 0)[j] as int) == "export_statement"@
            && !is_default_export(t, children(t, 0)[j] as int)
            && exists|k: int| 0 <= k < children(t, children(t, 0)[j] as int).len() && #[trigger] children(t, children(t, 0)[j] as int)[k] as int == c),
        kind(t, c) == dk,
        text_of_opt(t, field_child(t, c, "name"@)) == Some(name),
    ensures
        exists|s: SymbolView| #[trigger] ts_js_symbols(source, t).contains(s) && s.name == name && s.kind == sk && s.line == row(t, c) + 1
            && s.visibility == (if c == children(t, 0)[j] as int { Visibility::Private } else { Visibility::Exported }),
{
    reveal_strlit("function_declaration");
    reveal_strlit("class_declaration");
    reveal_strlit("interface_declaration");
    reveal_strlit("type_alias_declaration");
    reveal_strlit("enum_declaration");
    reveal_strlit("lexical_declaration");
    reveal_strlit("variable_declaration");
    reveal_strlit("import_statement");
    reveal_strlit("export_statement");
    reveal_strlit("export_default_declaration");
    let n = children(t, 0)[j] as int;
    assert(0 < n < t.nodes@.len());
    assert(dk.len() >= 2);
    assert(dk != "function_declaration"@ || (dk[0] == "function_declaration"@[0] && dk[1] == "function_declaration"@[1]));
    assert(dk != "class_declaration"@ || (dk[0] == "class_declaration"@[0] && dk[1] == "class_declaration"@[1]));
    assert(dk != "interface_declaration"@ || (dk[0] == "interface_declaration"@[0] && dk[1] == "interface_declaration"@[1]));
    assert(dk != "type_alias_declaration"@ || (dk[0] == "type_alias_declaration"@[0] && dk[1] == "type_alias_declaration"@[1]));
    assert(dk != "enum_declaration"@ || (dk[0] == "enum_declaration"@[0] && dk[1] == "enum_declaration"@[1]));
    assert(dk != "lexical_declaration"@ || (dk[0] == "lexical_declaration"@[0] && dk[1] == "lexical_declaration"@[1]));
    assert(dk != "variable_declaration"@ || (dk[0] == "variable_declaration"@[0] && dk[1] == "variable_declaration"@[1]));
    assert(dk != "import_statement"@ || (dk[0] == "import_statement"@[0] && dk[1] == "import_statement"@[1]));
    assert(dk != "export_statement"@ || (dk[0] == "export_statement"@[0] && dk[1] == "export_statement"@[1]));
    assert(dk != "export_default_declaration"@ || (dk[0] == "export_default_declaration"@[0] && dk[1] == "export_default_declaration"@[1]));
    assert(is_ts_decl(dk));
    assert(ts_kind_of(dk) == Some(sk));
    if c == n {
        let x = declared(source, t, c, name, sk, Visibility::Private);
        assert(decl_syms(source, t, c, Visibility::Private)[0] == x);
        assert(item_symbols(source, t, n)[0] == x);
        lemma_top_symbols_has(source, t, children(t, 0), j, x);
        assert(ts_js_symbols(source, t).contains(x));
    } else {
        let k = choose|k: int| 0 <= k < children(t, n).len() && #[trigger] children(t, n)[k] as int == c;
        let d = doc_comment(source, row(t, n));
        let x = export_override(d, declared(source, t, c, name, sk, Visibility::Exported));
        assert(decl_syms(source, t, c, Visibility::Exported)[0] == declared(source, t, c, name, sk, Visibility::Exported));
        assert(export_child(source, t, n, c)[0] == x);
        lemma_exported_has(source, t, n, children(t, n), k, x);
        assert("export_statement"@[0] != "import_statement"@[0]);
        assert(item_symbols(source, t, n) == exported_syms(source, t, n, children(t, n)));
        lemma_top_symbols_has(source, t, children(t, 0), j, x);
        assert(ts_js_symbols(source, t).contains(x));
    }
}


/// A top-level `export default ...` (an export statement with a `default` child, or an
/// export default declaration) is a symbol named `default`, exported as the default, on
/// the line the statement starts.
pub proof fn law_default_export_read(source: Seq<char>, t: SyntaxTree, j: int)
    requires
        0 <= j < children(t, 0).len(),
        (kind(t, children(t, 0)[j] as int) == "export_statement"@ && is_default_export(t, children(t, 0)[j] as int))
            || kind(t, children(t, 0)[j] as int) == "export_default_declaration"@,
    ensures
        exists|s: SymbolView| #[trigger] ts_js_symbols(source, t).contains(s) && s.name == "default"@
            && s.visibility == Visibility::DefaultExport && s.line == row(t, children(t, 0)[j] as int) + 1,
{
    reveal_strlit("import_statement");
    reveal_strlit("export_statement");
    reveal_strlit("export_default_declaration");
    let n = children(t, 0)[j] as int;
    assert("export_statement"@[0] != "import_statement"@[0]);
    assert("export_default_declaration"@[0] != "import_statement"@[0]);
    assert("export_default_declaration"@.len() != "export_statement"@.len());
    let x = default_sym(source, t, n);
    assert(item_symbols(source, t, n)[0] == x);
    lemma_top_symbols_has(source, t, children(t, 0), j, x);
    assert(ts_js_symbols(source, t).contains(x));
}

} // verus!
