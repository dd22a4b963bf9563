//! Reading the requires and symbols of a Ruby file from its syntax tree.
use vstd::prelude::*;
use vstd::string::*;
use crate::extract::{
    edges_from, pending_view, pending_views, resolutions_ok, resolve_imports, symbol_view, symbol_views,
    whole_import, whole_pending, ImportKind, PendingImport, PendingView, SymbolView,
};
use crate::snippets::{hash_doc, hash_doc_at, signature, signature_of, strip_quotes, unquoted};
use crate::syntax::{
    child, child_by_field, children, field_child, fits_source, kind, kind_is, row, text_or_empty, text_or_empty_at,
    well_formed, SyntaxTree,
};
use crate::text::{lines, trim_start_char};
use crate::ts_js::{source_ok, source_text, SourceText};
use crate::types::{ImportEdge, Symbol, SymbolKind, Visibility};

verus! {

/// A public symbol declared by node `n`: its signature is that of `n`, its doc comment
/// the `#` comment above it, its line the one `n` starts on, counted from 1.
pub open spec fn ruby_declared(source: Seq<char>, t: SyntaxTree, n: int, name: Seq<char>, k: SymbolKind) -> SymbolView {
    SymbolView {
        name: name,
        kind: k,
        signature: signature_of(text_or_empty(t, n)),
        doc_comment: hash_doc(lines(source), row(t, n) as int),
        visibility: Visibility::Public,
        line: (row(t, n) + 1) as int,
    }
}

/// The symbol a definition `n` with a `name` field declares, its name after `prefix`.
pub open spec fn ruby_named(source: Seq<char>, t: SyntaxTree, n: int, k: SymbolKind, prefix: Seq<char>) -> Seq<SymbolView> {
    match field_child(t, n, "name"@) {
        Some(nm) => seq![ruby_declared(source, t, n, prefix + text_or_empty(t, nm), k)],
        None => seq![],
    }
}

/// The text of a call's `method` field, or the empty text.
pub open spec fn method_name(t: SyntaxTree, n: int) -> Seq<char> {
    match field_child(t, n, "method"@) {
        Some(m) => text_or_empty(t, m),
        None => seq![],
    }
}

/// A mixin call: `include`, `extend` or `prepend`.
pub open spec fn is_mixin(m: Seq<char>) -> bool {
    m == "include"@ || m == "extend"@ || m == "prepend"@
}

/// An attribute call: `attr_accessor`, `attr_reader` or `attr_writer`.
pub open spec fn is_attr(m: Seq<char>) -> bool {
    m == "attr_accessor"@ || m == "attr_reader"@ || m == "attr_writer"@
}

/// The mixins a call `n` to `m` names among the arguments `cs`: one per constant or
/// scoped constant with a text, named after the call.
pub open spec fn mixins_in(t: SyntaxTree, n: int, m: Seq<char>, cs: Seq<usize>) -> Seq<SymbolView>
    decreases cs.len(),
{
    if cs.len() == 0 {
        seq![]
    } else {
        let a = cs.last() as int;
        mixins_in(t, n, m, cs.drop_last()) + if (kind(t, a) == "constant"@ || kind(t, a) == "scope_resolution"@)
            && text_or_empty(t, a).len() > 0 {
            seq![SymbolView {
                name: m + " "@ + text_or_empty(t, a),
                kind: SymbolKind::Unknown,
                signature: text_or_empty(t, n),
                doc_comment: None,
                visibility: Visibility::Private,
                line: (row(t, n) + 1) as int,
            }]
        } else {
            seq![]
        }
    }
}

/// The attributes a call `n` to `m` declares among the arguments `cs`: one per symbol
/// argument whose name (after its colons) is not empty.
pub open spec fn attrs_in(source: Seq<char>, t: SyntaxTree, n: int, m: Seq<char>, cs: Seq<usize>) -> Seq<SymbolView>
    decreases cs.len(),
{
    if cs.len() == 0 {
        seq![]
    } else {
        let a = cs.last() as int;
        let name = trim_start_char(text_or_empty(t, a), ':');
        attrs_in(source, t, n, m, cs.drop_last()) + if (kind(t, a) == "simple_symbol"@ || kind(t, a) == "hash_key_symbol"@)
            && name.len() > 0 {
            seq![SymbolView {
                name: name,
                kind: SymbolKind::Function,
                signature: m + " :"@ + name,
                doc_comment: hash_doc(lines(source), row(t, n) as int),
                visibility: Visibility::Public,
                line: (row(t, n) + 1) as int,
            }]
        } else {
            seq![]
        }
    }
}

/// The symbols a call `n` declares: mixins and attributes.
pub open spec fn call_symbols(source: Seq<char>, t: SyntaxTree, n: int) -> Seq<SymbolView> {
    let m = method_name(t, n);
    match field_child(t, n, "arguments"@) {
        None => seq![],
        Some(a) => if is_mixin(m) {
            mixins_in(t, n, m, children(t, a))
        } else if is_attr(m) {
            attrs_in(source, t, n, m, children(t, a))
        } else {
            seq![]
        },
    }
}

/// The files a `require` (or, when `relative`, `require_relative`) names among the
/// arguments `cs`: one per string whose text without quotes is not empty.
pub open spec fn requires_in(t: SyntaxTree, relative: bool, cs: Seq<usize>) -> Seq<PendingView>
    decreases cs.len(),
{
    if cs.len() == 0 {
        seq![]
    } else {
        let a = cs.last() as int;
        let sp = unquoted(text_or_empty(t, a));
        requires_in(t, relative, cs.drop_last()) + if (kind(t, a) == "string"@ || kind(t, a) == "string_content"@)
            && sp.len() > 0 {
            seq![whole_import(if relative { ImportKind::RubyRelative } else { ImportKind::RubyRequire }, sp)]
        } else {
            seq![]
        }
    }
}

/// The imports a node makes by itself: those of a `require` or `require_relative` call.
pub open spec fn own_imports(t: SyntaxTree, n: int) -> Seq<PendingView> {
    if kind(t, n) == "call"@ {
        let m = method_name(t, n);
        match field_child(t, n, "arguments"@) {
            Some(a) => if m == "require"@ || m == "require_relative"@ {
                requires_in(t, m == "require_relative"@, children(t, a))
            } else {
                seq![]
            },
            None => seq![],
        }
    } else {
        seq![]
    }
}

/// The symbols a node declares by itself: a class, module, method, singleton method
/// (named `self.<name>`), constant assignment, or the mixins and attributes of a call.
pub open spec fn own_symbols(source: Seq<char>, t: SyntaxTree, n: int) -> Seq<SymbolView> {
    let k = kind(t, n);
    if k == "class"@ {
        ruby_named(source, t, n, SymbolKind::Class, seq![])
    } else if k == "module"@ {
        ruby_named(source, t, n, SymbolKind::Module, seq![])
    } else if k == "method"@ {
        ruby_named(source, t, n, SymbolKind::Function, seq![])
    } else if k == "singleton_method"@ {
        ruby_named(source, t, n, SymbolKind::Function, "self."@)
    } else if k == "assignment"@ {
        match child(t, n, 0) {
            Some(l) => if kind(t, l) == "constant"@ {
                seq![ruby_declared(source, t, n, text_or_empty(t, l), SymbolKind::Const)]
            } else {
                seq![]
            },
            None => seq![],
        }
    } else if k == "call"@ {
        call_symbols(source, t, n)
    } else {
        seq![]
    }
}

/// The node whose children are read next after `n`: the body of a class or module, a
/// body statement or program itself; none for any other node.
pub open spec fn descend(t: SyntaxTree, n: int) -> Option<int> {
    let k = kind(t, n);
    if k == "class"@ || k == "module"@ {
        field_child(t, n, "body"@)
    } else if k == "body_statement"@ || k == "program"@ {
        Some(n)
    } else {
        None
    }
}

/// The symbols read from the children `cs` of `p`, in document order.
pub open spec fn symbols_in(source: Seq<char>, t: SyntaxTree, p: int, cs: Seq<usize>) -> Seq<SymbolView>
    decreases t.nodes@.len() - p, cs.len(),
{
    if cs.len() == 0 {
        seq![]
    } else {
        let c = cs.last() as int;
        symbols_in(source, t, p, cs.drop_last()) + if p < c < t.nodes@.len() {
            own_symbols(source, t, c) + match descend(t, c) {
                Some(d) => if p < d < t.nodes@.len() {
                    symbols_in(source, t, d, children(t, d))
                } else {
                    seq![]
                },
                None => seq![],
            }
        } else {
            seq![]
        }
    }
}

/// The imports read from the children `cs` of `p`, in document order.
pub open spec fn imports_in(t: SyntaxTree, p: int, cs: Seq<usize>) -> Seq<PendingView>
    decreases t.nodes@.len() - p, cs.len(),
{
    if cs.len() == 0 {
        seq![]
    } else {
        let c = cs.last() as int;
        imports_in(t, p, cs.drop_last()) + if p < c < t.nodes@.len() {
            own_imports(t, c) + match descend(t, c) {
                Some(d) => if p < d < t.nodes@.len() {
                    imports_in(t, d, children(t, d))
                } else {
                    seq![]
                },
                None => seq![],
            }
        } else {
            seq![]
        }
    }
}

/// The requires of a Ruby file, in order.
pub open spec fn ruby_imports(t: SyntaxTree) -> Seq<PendingView> {
    imports_in(t, 0, children(t, 0))
}

/// The symbols of a Ruby file, in order.
pub open spec fn ruby_symbols(source: Seq<char>, t: SyntaxTree) -> Seq<SymbolView> {
    symbols_in(source, t, 0, children(t, 0))
}

fn ruby_declared_symbol(src: &SourceText, t: &SyntaxTree, n: usize, name: String, k: SymbolKind) -> (r: Symbol)
    requires
        source_ok(src),
        well_formed(*t),
        fits_source(*t, src.text@),
        n < t.nodes@.len(),
    ensures
        symbol_view(r) == ruby_declared(src.text@, *t, n as int, name@, k),
{
    let sig = signature(text_or_empty_at(t, n).as_str());
    let rw = t.nodes[n].row;
    assert(rw <= lines(src.text@).len());
    let doc = hash_doc_at(&src.lines, rw, Ghost(lines(src.text@)));
    assert(t.nodes@[n as int].row < usize::MAX);
    Symbol { name, kind: k, signature: sig, doc_comment: doc, visibility: Visibility::Public, line: rw + 1 }
}

fn ruby_named_at(src: &SourceText, t: &SyntaxTree, n: usize, k: SymbolKind, prefix: &str, out: &mut Vec<Symbol>)
    requires
        source_ok(src),
        well_formed(*t),
        fits_source(*t, src.text@),
        n < t.nodes@.len(),
    ensures
        symbol_views(final(out)@) == symbol_views(old(out)@) + ruby_named(src.text@, *t, n as int, k, prefix@),
{
    let ghost before = symbol_views(out@);
    match child_by_field(t, n, "name") {
        Some(nm) => {
            let mut name = String::from_str(prefix);
            name.append(text_or_empty_at(t, nm).as_str());
            let s = ruby_declared_symbol(src, t, n, name, k);
            out.push(s);
            assert(symbol_views(out@) =~= before + seq![symbol_view(s)]);
        },
        None => {
            assert(symbol_views(out@) =~= before + Seq::<SymbolView>::empty());
        },
    }
}

fn method_name_at(t: &SyntaxTree, n: usize) -> (r: String)
    requires
        well_formed(*t),
        n < t.nodes@.len(),
    ensures
        r@ == method_name(*t, n as int),
{
    match child_by_field(t, n, "method") {
        Some(m) => text_or_empty_at(t, m),
        None => {
            let e = String::new();
            assert(e@ =~= Seq::<char>::empty());
            e
        },
    }
}

fn mixins_at(t: &SyntaxTree, n: usize, m: &String, a: usize, out: &mut Vec<Symbol>)
    requires
        well_formed(*t),
        n < t.nodes@.len(),
        a < t.nodes@.len(),
    ensures
        symbol_views(final(out)@) == symbol_views(old(out)@) + mixins_in(*t, n as int, m@, children(*t, a as int)),
{
    let cs = &t.nodes[a].children;
    let ghost start = symbol_views(out@);
    let mut i: usize = 0;
    while i < cs.len()
        invariant
            well_formed(*t),
            n < t.nodes@.len(),
            a < t.nodes@.len(),
            cs@ == children(*t, a as int),
            i <= cs@.len(),
            symbol_views(out@) == start + mixins_in(*t, n as int, m@, cs@.take(i as int)),
        decreases cs.len() - i,
    {
        let ghost before = symbol_views(out@);
        let c = cs[i];
        assert(a < t.nodes@[a as int].children@[i as int] < t.nodes@.len());
        assert(cs@.take(i + 1).drop_last() =~= cs@.take(i as int));
        assert(cs@.take(i + 1).last() == c);
        let name = text_or_empty_at(t, c);
        if (kind_is(t, c, "constant") || kind_is(t, c, "scope_resolution")) && crate::text::chars_of(name.as_str()).len() > 0 {
            let mut full = m.clone();
            full.append(" ");
            full.append(name.as_str());
            let sig = text_or_empty_at(t, n);
            assert(t.nodes@[n as int].row < usize::MAX);
            let s = Symbol {
                name: full,
                kind: SymbolKind::Unknown,
                signature: sig,
                doc_comment: None,
                visibility: Visibility::Private,
                line: t.nodes[n].row + 1,
            };
            out.push(s);
            assert(symbol_views(out@) =~= before + seq![symbol_view(s)]);
        } else {
            assert(symbol_views(out@) =~= before + Seq::<SymbolView>::empty());
        }
        i += 1;
    }
    assert(cs@.take(cs.len() as int) =~= cs@);
}

fn attrs_at(src: &SourceText, t: &SyntaxTree, n: usize, m: &String, a: usize, out: &mut Vec<Symbol>)
    requires
        source_ok(src),
        well_formed(*t),
        fits_source(*t, src.text@),
        n < t.nodes@.len(),
        a < t.nodes@.len(),
    ensures
        symbol_views(final(out)@) == symbol_views(old(out)@) + attrs_in(src.text@, *t, n as int, m@, children(*t, a as int)),
{
    let cs = &t.nodes[a].children;
    let ghost start = symbol_views(out@);
    let mut i: usize = 0;
    while i < cs.len()
        invariant
            source_ok(src),
            well_formed(*t),
            fits_source(*t, src.text@),
            n < t.nodes@.len(),
            a < t.nodes@.len(),
            cs@ == children(*t, a as int),
            i <= cs@.len(),
            symbol_views(out@) == start + attrs_in(src.text@, *t, n as int, m@, cs@.take(i as int)),
        decreases cs.len() - i,
    {
        let ghost before = symbol_views(out@);
        let c = cs[i];
        assert(a < t.nodes@[a as int].children@[i as int] < t.nodes@.len());
        assert(cs@.take(i + 1).drop_last() =~= cs@.take(i as int));
        assert(cs@.take(i + 1).last() == c);
        let raw = crate::text::chars_of(text_or_empty_at(t, c).as_str());
        let name = crate::text::trim_start_char_chars(&raw, ':');
        if (kind_is(t, c, "simple_symbol") || kind_is(t, c, "hash_key_symbol")) && name.len() > 0 {
            let name_s = crate::text::string_of(&name);
            let mut sig = m.clone();
            sig.append(" :");
            sig.append(name_s.as_str());
            let rw = t.nodes[n].row;
            assert(rw <= lines(src.text@).len());
            let doc = hash_doc_at(&src.lines, rw, Ghost(lines(src.text@)));
            assert(t.nodes@[n as int].row < usize::MAX);
            let s = Symbol {
                name: name_s,
                kind: SymbolKind::Function,
                signature: sig,
                doc_comment: doc,
                visibility: Visibility::Public,
                line: rw + 1,
            };
            out.push(s);
            assert(symbol_views(out@) =~= before + seq![symbol_view(s)]);
        } else {
            assert(symbol_views(out@) =~= before + Seq::<SymbolView>::empty());
        }
        i += 1;
    }
    assert(cs@.take(cs.len() as int) =~= cs@);
}

fn requires_at(t: &SyntaxTree, relative: bool, a: usize, out: &mut Vec<PendingImport>)
    requires
        well_formed(*t),
        a < t.nodes@.len(),
    ensures
        pending_views(final(out)@) == pending_views(old(out)@) + requires_in(*t, relative, children(*t, a as int)),
{
    let cs = &t.nodes[a].children;
    let ghost start = pending_views(out@);
    let mut i: usize = 0;
    while i < cs.len()
        invariant
            well_formed(*t),
            a < t.nodes@.len(),
            cs@ == children(*t, a as int),
            i <= cs@.len(),
            pending_views(out@) == start + requires_in(*t, relative, cs@.take(i as int)),
        decreases cs.len() - i,
    {
        let ghost before = pending_views(out@);
        let c = cs[i];
        assert(a < t.nodes@[a as int].children@[i as int] < t.nodes@.len());
        assert(cs@.take(i + 1).drop_last() =~= cs@.take(i as int));
        assert(cs@.take(i + 1).last() == c);
        let sp = strip_quotes(text_or_empty_at(t, c).as_str());
        if (kind_is(t, c, "string") || kind_is(t, c, "string_content")) && crate::text::chars_of(sp.as_str()).len() > 0 {
            let k = if relative {
                ImportKind::RubyRelative
            } else {
                ImportKind::RubyRequire
            };
            let pi = whole_pending(k, sp);
            out.push(pi);
            assert(pending_views(out@) =~= before + seq![pending_view(pi)]);
        } else {
            assert(pending_views(out@) =~= before + Seq::<PendingView>::empty());
        }
        i += 1;
    }
    assert(cs@.take(cs.len() as int) =~= cs@);
}

fn own_imports_at(t: &SyntaxTree, n: usize, out: &mut Vec<PendingImport>)
    requires
        well_formed(*t),
        n < t.nodes@.len(),
    ensures
        pending_views(final(out)@) == pending_views(old(out)@) + own_imports(*t, n as int),
{
    let ghost before = pending_views(out@);
    if kind_is(t, n, "call") {
        let m = method_name_at(t, n);
        match child_by_field(t, n, "arguments") {
            Some(a) => {
                let req = crate::syntax::same_text(m.as_str(), "require");
                let rel = crate::syntax::same_text(m.as_str(), "require_relative");
                if req || rel {
                    requires_at(t, rel, a, out);
                } else {
                    assert(pending_views(out@) =~= before + Seq::<PendingView>::empty());
                }
            },
            None => {
                assert(pending_views(out@) =~= before + Seq::<PendingView>::empty());
            },
        }
    } else {
        assert(pending_views(out@) =~= before + Seq::<PendingView>::empty());
    }
}

fn call_symbols_at(src: &SourceText, t: &SyntaxTree, n: usize, out: &mut Vec<Symbol>)
    requires
        source_ok(src),
        well_formed(*t),
        fits_source(*t, src.text@),
        n < t.nodes@.len(),
    ensures
        symbol_views(final(out)@) == symbol_views(old(out)@) + call_symbols(src.text@, *t, n as int),
{
    let ghost before = symbol_views(out@);
    let m = method_name_at(t, n);
    match child_by_field(t, n, "arguments") {
        Some(a) => {
            let same = |k: &str| -> (b: bool)
                ensures
                    b == (m@ == k@),
                { crate::syntax::same_text(m.as_str(), k) };
            if same("include") || same("extend") || same("prepend") {
                mixins_at(t, n, &m, a, out);
            } else if same("attr_accessor") || same("attr_reader") || same("attr_writer") {
                attrs_at(src, t, n, &m, a, out);
            } else {
                assert(symbol_views(out@) =~= before + Seq::<SymbolView>::empty());
            }
        },
        None => {
            assert(symbol_views(out@) =~= before + Seq::<SymbolView>::empty());
        },
    }
}

fn own_symbols_at(src: &SourceText, t: &SyntaxTree, n: usize, out: &mut Vec<Symbol>)
    requires
        source_ok(src),
        well_formed(*t),
        fits_source(*t, src.text@),
        n < t.nodes@.len(),
    ensures
        symbol_views(final(out)@) == symbol_views(old(out)@) + own_symbols(src.text@, *t, n as int),
{
    let ghost before = symbol_views(out@);
    if kind_is(t, n, "class") {
        ruby_named_at(src, t, n, SymbolKind::Class, "", out);
        proof {
            reveal_strlit("");
        }
    } else if kind_is(t, n, "module") {
        ruby_named_at(src, t, n, SymbolKind::Module, "", out);
        proof {
            reveal_strlit("");
        }
    } else if kind_is(t, n, "method") {
        ruby_named_at(src, t, n, SymbolKind::Function, "", out);
        proof {
            reveal_strlit("");
        }
    } else if kind_is(t, n, "singleton_method") {
        ruby_named_at(src, t, n, SymbolKind::Function, "self.", out);
    } else if kind_is(t, n, "assignment") {
        if t.nodes[n].children.len() > 0 {
            let l = t.nodes[n].children[0];
            assert(n < t.nodes@[n as int].children@[0] < t.nodes@.len());
            assert(child(*t, n as int, 0) == Some(l as int));
            if kind_is(t, l, "constant") {
                let s = ruby_declared_symbol(src, t, n, text_or_empty_at(t, l), SymbolKind::Const);
                out.push(s);
                assert(symbol_views(out@) =~= before + seq![symbol_view(s)]);
            } else {
                assert(symbol_views(out@) =~= before + Seq::<SymbolView>::empty());
            }
        } else {
            assert(symbol_views(out@) =~= before + Seq::<SymbolView>::empty());
        }
    } else if kind_is(t, n, "call") {
        call_symbols_at(src, t, n, out);
    } else {
        assert(symbol_views(out@) =~= before + Seq::<SymbolView>::empty());
    }
}

fn descend_at(t: &SyntaxTree, n: usize) -> (r: Option<usize>)
    requires
        well_formed(*t),
        n < t.nodes@.len(),
    ensures
        match r {
            Some(d) => descend(*t, n as int) == Some(d as int) && n <= d < t.nodes@.len(),
            None => descend(*t, n as int) is None,
        },
{
    if kind_is(t, n, "class") || kind_is(t, n, "module") {
        child_by_field(t, n, "body")
    } else if kind_is(t, n, "body_statement") || kind_is(t, n, "program") {
        Some(n)
    } else {
        None
    }
}

/// Reads the children of `p`, in order, into `syms` and `imps`.
fn walk(src: &SourceText, t: &SyntaxTree, p: usize, syms: &mut Vec<Symbol>, imps: &mut Vec<PendingImport>)
    requires
        source_ok(src),
        well_formed(*t),
        fits_source(*t, src.text@),
        p < t.nodes@.len(),
    ensures
        symbol_views(final(syms)@) == symbol_views(old(syms)@) + symbols_in(src.text@, *t, p as int, children(*t, p as int)),
        pending_views(final(imps)@) == pending_views(old(imps)@) + imports_in(*t, p as int, children(*t, p as int)),
    decreases t.nodes@.len() - p,
{
    let cs = &t.nodes[p].children;
    let ghost s0 = symbol_views(syms@);
    let ghost i0 = pending_views(imps@);
    let mut i: usize = 0;
    while i < cs.len()
        invariant
            source_ok(src),
            well_formed(*t),
            fits_source(*t, src.text@),
            p < t.nodes@.len(),
            cs@ == children(*t, p as int),
            i <= cs@.len(),
            symbol_views(syms@) == s0 + symbols_in(src.text@, *t, p as int, cs@.take(i as int)),
            pending_views(imps@) == i0 + imports_in(*t, p as int, cs@.take(i as int)),
        decreases cs.len() - i,
    {
        let c = cs[i];
        assert(p < t.nodes@[p as int].children@[i as int] < t.nodes@.len());
        assert(cs@.take(i + 1).drop_last() =~= cs@.take(i as int));
        assert(cs@.take(i + 1).last() == c);
        let ghost sb = symbol_views(syms@);
        let ghost ib = pending_views(imps@);
        own_symbols_at(src, t, c, syms);
        own_imports_at(t, c, imps);
        let ghost so = symbol_views(syms@);
        let ghost io = pending_views(imps@);
        match descend_at(t, c) {
            Some(d) => {
                walk(src, t, d, syms, imps);
                assert(symbol_views(syms@) =~= s0 + symbols_in(src.text@, *t, p as int, cs@.take(i + 1)));
                assert(pending_views(imps@) =~= i0 + imports_in(*t, p as int, cs@.take(i + 1)));
            },
            None => {
                assert(symbol_views(syms@) =~= s0 + symbols_in(src.text@, *t, p as int, cs@.take(i + 1)));
                assert(pending_views(imps@) =~= i0 + imports_in(*t, p as int, cs@.take(i + 1)));
            },
        }
        i += 1;
    }
    assert(cs@.take(cs.len() as int) =~= cs@);
}

/// The requires found in a Ruby file, before their targets are looked for, and its
/// symbols.
pub fn ruby_outline(source: &str, tree: &SyntaxTree) -> (r: (Vec<PendingImport>, Vec<Symbol>))
    requires
        well_formed(*tree),
        fits_source(*tree, source@),
    ensures
        pending_views(r.0@) == ruby_imports(*tree),
        symbol_views(r.1@) == ruby_symbols(source@, *tree),
{
    let src = source_text(source);
    let mut imports: Vec<PendingImport> = Vec::new();
    let mut symbols: Vec<Symbol> = Vec::new();
    walk(&src, tree, 0, &mut symbols, &mut imports);
    assert(pending_views(imports@) =~= ruby_imports(*tree));
    assert(symbol_views(symbols@) =~= ruby_symbols(source@, *tree));
    (imports, symbols)
}

/// Reads the import edges and symbols of a Ruby file from its syntax tree.
/// `require_relative` targets are looked for beside the file; a plain `require` names a
/// gem and gives no edge.
pub fn extract_ruby(file_path: &str, source: &str, tree: &SyntaxTree) -> (r: (Vec<ImportEdge>, Vec<Symbol>))
    requires
        well_formed(*tree),
        fits_source(*tree, source@),
    ensures
        symbol_views(r.1@) == ruby_symbols(source@, *tree),
        exists|targets: Seq<Option<Seq<char>>>| #![auto]
            resolutions_ok(file_path@, file_path@, ruby_imports(*tree), targets)
                && crate::extract::edge_views(r.0@) == edges_from(file_path@, ruby_imports(*tree), targets),
{
    let (found, symbols) = ruby_outline(source, tree);
    let (edges, _) = resolve_imports(file_path, file_path, &found);
    (edges, symbols)
}

} // verus!
