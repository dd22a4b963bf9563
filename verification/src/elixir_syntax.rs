//! Reading the module references and definitions of an Elixir file from its syntax tree.
use vstd::prelude::*;
use vstd::string::*;
use crate::extract::{
    edges_from, pending_view, pending_views, resolutions_ok, resolve_imports, symbol_view, symbol_views,
    whole_import, whole_pending, ImportKind, PendingImport, PendingView, SymbolView,
};
use crate::snippets::{elixir_doc, elixir_doc_at, signature, signature_of};
use crate::syntax::{
    child, children, fits_source, kind, kind_is, row, text_at, text_of_opt, text_or_empty, text_or_empty_at,
    well_formed, SyntaxTree,
};
use crate::text::lines;
use crate::ts_js::{source_ok, source_text, SourceText};
use crate::types::{ImportEdge, Symbol, SymbolKind, Visibility};

verus! {

/// Which children of a node are read.
#[derive(Clone, Copy, Debug, PartialEq, Eq, Structural)]
pub enum Reading {
    /// Every child: calls are looked at, other nodes read through.
    Every,
    /// Only `do` blocks, each read through.
    Blocks,
    /// Only `do` blocks and argument lists, each read through.
    BlocksAndArguments,
}

/// The name a call `n` calls, when its first child is an identifier.
pub open spec fn callee(t: SyntaxTree, n: int) -> Option<Seq<char>> {
    match child(t, n, 0) {
        Some(f) => if kind(t, f) == "identifier"@ {
            Some(text_or_empty(t, f))
        } else {
            None
        },
        None => None,
    }
}

/// A callee whose call is read by itself only: a function, macro or struct definition,
/// or a module directive.
pub open spec fn reads_nothing_below(c: Seq<char>) -> bool {
    ||| c == "def"@
    ||| c == "defp"@
    ||| c == "defmacro"@
    ||| c == "defmacrop"@
    ||| c == "defstruct"@
    ||| c == "alias"@
    ||| c == "import"@
    ||| c == "use"@
    ||| c == "require"@
}

/// Which children of a call are read: the `do` block of a `defmodule`, none below a
/// definition or directive, else `do` blocks and argument lists.
pub open spec fn call_reading(t: SyntaxTree, n: int) -> Option<Reading> {
    match callee(t, n) {
        None => Some(Reading::BlocksAndArguments),
        Some(c) => if c == "defmodule"@ {
            Some(Reading::Blocks)
        } else if reads_nothing_below(c) {
            None
        } else {
            Some(Reading::BlocksAndArguments)
        },
    }
}

/// A child of kind `k` is read under `r`.
pub open spec fn selected(k: Seq<char>, r: Reading) -> bool {
    match r {
        Reading::Every => true,
        Reading::Blocks => k == "do_block"@,
        Reading::BlocksAndArguments => k == "do_block"@ || k == "arguments"@,
    }
}

/// The first node of `cs` of kind `k`.
pub open spec fn first_kind(t: SyntaxTree, cs: Seq<usize>, k: Seq<char>) -> Option<int>
    decreases cs.len(),
{
    if cs.len() == 0 {
        None
    } else if kind(t, cs[0] as int) == k {
        Some(cs[0] as int)
    } else {
        first_kind(t, cs.drop_first(), k)
    }
}

/// The first alias inside an argument list among `cs`.
pub open spec fn args_alias(t: SyntaxTree, cs: Seq<usize>) -> Option<int>
    decreases cs.len(),
{
    if cs.len() == 0 {
        None
    } else if kind(t, cs[0] as int) == "arguments"@ && first_kind(t, children(t, cs[0] as int), "alias"@) is Some {
        first_kind(t, children(t, cs[0] as int), "alias"@)
    } else {
        args_alias(t, cs.drop_first())
    }
}

/// The first alias among `cs`, or inside an argument list among them, whichever comes first.
pub open spec fn directive_alias(t: SyntaxTree, cs: Seq<usize>) -> Option<int>
    decreases cs.len(),
{
    if cs.len() == 0 {
        None
    } else if kind(t, cs[0] as int) == "arguments"@ && first_kind(t, children(t, cs[0] as int), "alias"@) is Some {
        first_kind(t, children(t, cs[0] as int), "alias"@)
    } else if kind(t, cs[0] as int) == "alias"@ {
        Some(cs[0] as int)
    } else {
        directive_alias(t, cs.drop_first())
    }
}

/// The identifier that names a function when `n` is the call's first child of `n`.
pub open spec fn call_ident(t: SyntaxTree, n: int) -> Option<int> {
    match child(t, n, 0) {
        Some(f) => if kind(t, f) == "identifier"@ {
            Some(f)
        } else {
            None
        },
        None => None,
    }
}

/// The node naming the function an argument `a` of a definition declares: the identifier
/// of a call (`name(args)`), an identifier, or the same on the left of an operator
/// (`name(args) when guard`).
pub open spec fn def_target(t: SyntaxTree, a: int) -> Option<int> {
    let k = kind(t, a);
    if k == "call"@ {
        call_ident(t, a)
    } else if k == "identifier"@ {
        Some(a)
    } else if k == "binary_operator"@ {
        match child(t, a, 0) {
            Some(l) => if kind(t, l) == "call"@ {
                call_ident(t, l)
            } else if kind(t, l) == "identifier"@ {
                Some(l)
            } else {
                None
            },
            None => None,
        }
    } else {
        None
    }
}

/// The first name given by an argument among `cs`.
pub open spec fn first_def(t: SyntaxTree, cs: Seq<usize>) -> Option<int>
    decreases cs.len(),
{
    if cs.len() == 0 {
        None
    } else if def_target(t, cs[0] as int) is Some {
        def_target(t, cs[0] as int)
    } else {
        first_def(t, cs.drop_first())
    }
}

/// The first name given inside an argument list among `cs`.
pub open spec fn args_def(t: SyntaxTree, cs: Seq<usize>) -> Option<int>
    decreases cs.len(),
{
    if cs.len() == 0 {
        None
    } else if kind(t, cs[0] as int) == "arguments"@ && first_def(t, children(t, cs[0] as int)) is Some {
        first_def(t, children(t, cs[0] as int))
    } else {
        args_def(t, cs.drop_first())
    }
}

/// A symbol a definition call `n` declares.
pub open spec fn defined(source: Seq<char>, t: SyntaxTree, n: int, name: Seq<char>, k: SymbolKind, vis: Visibility) -> SymbolView {
    SymbolView {
        name: name,
        kind: k,
        signature: signature_of(text_or_empty(t, n)),
        doc_comment: elixir_doc(source, row(t, n)),
        visibility: vis,
        line: (row(t, n) + 1) as int,
    }
}

/// The symbol a call `n` declares by itself: a module (`defmodule`), a function (`def`,
/// public; `defp`, private), a macro (`defmacro`, `defmacrop`) or a struct (`defstruct`).
pub open spec fn own_symbols(source: Seq<char>, t: SyntaxTree, n: int) -> Seq<SymbolView> {
    match callee(t, n) {
        None => seq![],
        Some(c) => if c == "defmodule"@ {
            match text_of_opt(t, args_alias(t, children(t, n))) {
                Some(name) => seq![SymbolView {
                    name: name,
                    kind: SymbolKind::Module,
                    signature: "defmodule "@ + name,
                    doc_comment: elixir_doc(source, row(t, n)),
                    visibility: Visibility::Public,
                    line: (row(t, n) + 1) as int,
                }],
                None => seq![],
            }
        } else if c == "def"@ || c == "defp"@ {
            match text_of_opt(t, args_def(t, children(t, n))) {
                Some(name) => seq![defined(source, t, n, name, SymbolKind::Function,
                    if c == "def"@ { Visibility::Public } else { Visibility::Private })],
                None => seq![],
            }
        } else if c == "defmacro"@ || c == "defmacrop"@ {
            match text_of_opt(t, args_def(t, children(t, n))) {
                Some(name) => seq![defined(source, t, n, name, SymbolKind::Macro,
                    if c == "defmacro"@ { Visibility::Public } else { Visibility::Private })],
                None => seq![],
            }
        } else if c == "defstruct"@ {
            seq![SymbolView {
                name: "defstruct"@,
                kind: SymbolKind::Struct,
                signature: signature_of(text_or_empty(t, n)),
                doc_comment: None,
                visibility: Visibility::Public,
                line: (row(t, n) + 1) as int,
            }]
        } else {
            seq![]
        },
    }
}

/// The module a directive call `n` (`alias`, `import`, `use`, `require`) names.
pub open spec fn own_imports(t: SyntaxTree, n: int) -> Seq<PendingView> {
    match callee(t, n) {
        Some(c) => if c == "alias"@ || c == "import"@ || c == "use"@ || c == "require"@ {
            match text_of_opt(t, directive_alias(t, children(t, n))) {
                Some(name) => seq![whole_import(ImportKind::ElixirModule, name)],
                None => seq![],
            }
        } else {
            seq![]
        },
        None => seq![],
    }
}

/// The symbols read from the children `cs` of `p` under `r`, in document order.
pub open spec fn symbols_in(source: Seq<char>, t: SyntaxTree, p: int, cs: Seq<usize>, r: Reading) -> Seq<SymbolView>
    decreases t.nodes@.len() - p, cs.len(),
{
    if cs.len() == 0 {
        seq![]
    } else {
        let c = cs.last() as int;
        symbols_in(source, t, p, cs.drop_last(), r) + if p < c < t.nodes@.len() {
            if r == Reading::Every {
                if kind(t, c) == "call"@ {
                    own_symbols(source, t, c) + match call_reading(t, c) {
                        Some(r2) => symbols_in(source, t, c, children(t, c), r2),
                        None => seq![],
                    }
                } else {
                    symbols_in(source, t, c, children(t, c), Reading::Every)
                }
            } else if selected(kind(t, c), r) {
                symbols_in(source, t, c, children(t, c), Reading::Every)
            } else {
                seq![]
            }
        } else {
            seq![]
        }
    }
}

/// The imports read from the children `cs` of `p` under `r`, in document order.
pub open spec fn imports_in(t: SyntaxTree, p: int, cs: Seq<usize>, r: Reading) -> Seq<PendingView>
    decreases t.nodes@.len() - p, cs.len(),
{
    if cs.len() == 0 {
        seq![]
    } else {
        let c = cs.last() as int;
        imports_in(t, p, cs.drop_last(), r) + if p < c < t.nodes@.len() {
            if r == Reading::Every {
                if kind(t, c) == "call"@ {
                    own_imports(t, c) + match call_reading(t, c) {
                        Some(r2) => imports_in(t, c, children(t, c), r2),
                        None => seq![],
                    }
                } else {
                    imports_in(t, c, children(t, c), Reading::Every)
                }
            } else if selected(kind(t, c), r) {
                imports_in(t, c, children(t, c), Reading::Every)
            } else {
                seq![]
            }
        } else {
            seq![]
        }
    }
}

/// The module references of an Elixir file, in order.
pub open spec fn elixir_imports(t: SyntaxTree) -> Seq<PendingView> {
    imports_in(t, 0, children(t, 0), Reading::Every)
}

/// The definitions of an Elixir file, in order.
pub open spec fn elixir_symbols(source: Seq<char>, t: SyntaxTree) -> Seq<SymbolView> {
    symbols_in(source, t, 0, children(t, 0), Reading::Every)
}

fn callee_at(t: &SyntaxTree, n: usize) -> (r: Option<String>)
    requires
        well_formed(*t),
        n < t.nodes@.len(),
    ensures
        match callee(*t, n as int) {
            Some(c) => r is Some && r->0@ == c,
            None => r is None,
        },
{
    if t.nodes[n].children.len() == 0 {
        return None;
    }
    let f = t.nodes[n].children[0];
    assert(n < t.nodes@[n as int].children@[0] < t.nodes@.len());
    assert(child(*t, n as int, 0) == Some(f as int));
    if kind_is(t, f, "identifier") {
        Some(text_or_empty_at(t, f))
    } else {
        None
    }
}

/// The first child of `p` of kind `k`.
fn first_kind_at(t: &SyntaxTree, p: usize, k: &str) -> (r: Option<usize>)
    requires
        well_formed(*t),
        p < t.nodes@.len(),
    ensures
        match first_kind(*t, children(*t, p as int), k@) {
            Some(c) => r is Some && r->0 as int == c && p < c < t.nodes@.len(),
            None => r is None,
        },
{
    let cs = &t.nodes[p].children;
    let mut i: usize = 0;
    assert(cs@.skip(0) =~= cs@);
    while i < cs.len()
        invariant
            well_formed(*t),
            p < t.nodes@.len(),
            cs@ == children(*t, p as int),
            i <= cs@.len(),
            first_kind(*t, cs@, k@) == first_kind(*t, cs@.skip(i as int), k@),
        decreases cs.len() - i,
    {
        let c = cs[i];
        assert(p < t.nodes@[p as int].children@[i as int] < t.nodes@.len());
        assert(cs@.skip(i as int)[0] == c);
        assert(cs@.skip(i as int).drop_first() =~= cs@.skip(i + 1));
        if kind_is(t, c, k) {
            return Some(c);
        }
        i += 1;
    }
    assert(cs@.skip(i as int) =~= Seq::<usize>::empty());
    None
}

fn alias_in_children(t: &SyntaxTree, n: usize, also_bare: bool) -> (r: Option<usize>)
    requires
        well_formed(*t),
        n < t.nodes@.len(),
    ensures
        match (if also_bare { directive_alias(*t, children(*t, n as int)) } else { args_alias(*t, children(*t, n as int)) }) {
            Some(c) => r is Some && r->0 as int == c && c < t.nodes@.len(),
            None => r is None,
        },
{
    let cs = &t.nodes[n].children;
    let mut i: usize = 0;
    assert(cs@.skip(0) =~= cs@);
    while i < cs.len()
        invariant
            well_formed(*t),
            n < t.nodes@.len(),
            cs@ == children(*t, n as int),
            i <= cs@.len(),
            also_bare ==> directive_alias(*t, cs@) == directive_alias(*t, cs@.skip(i as int)),
            !also_bare ==> args_alias(*t, cs@) == args_alias(*t, cs@.skip(i as int)),
        decreases cs.len() - i,
    {
        let c = cs[i];
        assert(n < t.nodes@[n as int].children@[i as int] < t.nodes@.len());
        assert(cs@.skip(i as int)[0] == c);
        assert(cs@.skip(i as int).drop_first() =~= cs@.skip(i + 1));
        if kind_is(t, c, "arguments") {
            match first_kind_at(t, c, "alias") {
                Some(a) => {
                    return Some(a);
                },
                None => {},
            }
        }
        if also_bare && kind_is(t, c, "alias") {
            return Some(c);
        }
        i += 1;
    }
    assert(cs@.skip(i as int) =~= Seq::<usize>::empty());
    None
}

fn call_ident_at(t: &SyntaxTree, n: usize) -> (r: Option<usize>)
    requires
        well_formed(*t),
        n < t.nodes@.len(),
    ensures
        match call_ident(*t, n as int) {
            Some(c) => r is Some && r->0 as int == c && c < t.nodes@.len(),
            None => r is None,
        },
{
    if t.nodes[n].children.len() == 0 {
        return None;
    }
    let f = t.nodes[n].children[0];
    assert(n < t.nodes@[n as int].children@[0] < t.nodes@.len());
    assert(child(*t, n as int, 0) == Some(f as int));
    if kind_is(t, f, "identifier") {
        Some(f)
    } else {
        None
    }
}

fn def_target_at(t: &SyntaxTree, a: usize) -> (r: Option<usize>)
    requires
        well_formed(*t),
        a < t.nodes@.len(),
    ensures
        match def_target(*t, a as int) {
            Some(c) => r is Some && r->0 as int == c && c < t.nodes@.len(),
            None => r is None,
        },
{
    if kind_is(t, a, "call") {
        call_ident_at(t, a)
    } else if kind_is(t, a, "identifier") {
        Some(a)
    } else if kind_is(t, a, "binary_operator") {
        if t.nodes[a].children.len() == 0 {
            return None;
        }
        let l = t.nodes[a].children[0];
        assert(a < t.nodes@[a as int].children@[0] < t.nodes@.len());
        assert(child(*t, a as int, 0) == Some(l as int));
        if kind_is(t, l, "call") {
            call_ident_at(t, l)
        } else if kind_is(t, l, "identifier") {
            Some(l)
        } else {
            None
        }
    } else {
        None
    }
}

fn first_def_at(t: &SyntaxTree, p: usize) -> (r: Option<usize>)
    requires
        well_formed(*t),
        p < t.nodes@.len(),
    ensures
        match first_def(*t, children(*t, p as int)) {
            Some(c) => r is Some && r->0 as int == c && c < t.nodes@.len(),
            None => r is None,
        },
{
    let cs = &t.nodes[p].children;
    let mut i: usize = 0;
    assert(cs@.skip(0) =~= cs@);
    while i < cs.len()
        invariant
            well_formed(*t),
            p < t.nodes@.len(),
            cs@ == children(*t, p as int),
            i <= cs@.len(),
            first_def(*t, cs@) == first_def(*t, cs@.skip(i as int)),
        decreases cs.len() - i,
    {
        let c = cs[i];
        assert(p < t.nodes@[p as int].children@[i as int] < t.nodes@.len());
        assert(cs@.skip(i as int)[0] == c);
        assert(cs@.skip(i as int).drop_first() =~= cs@.skip(i + 1));
        match def_target_at(t, c) {
            Some(d) => {
                return Some(d);
            },
            None => {},
        }
        i += 1;
    }
    assert(cs@.skip(i as int) =~= Seq::<usize>::empty());
    None
}

fn args_def_at(t: &SyntaxTree, n: usize) -> (r: Option<usize>)
    requires
        well_formed(*t),
        n < t.nodes@.len(),
    ensures
        match args_def(*t, children(*t, n as int)) {
            Some(c) => r is Some && r->0 as int == c && c < t.nodes@.len(),
            None => r is None,
        },
{
    let cs = &t.nodes[n].children;
    let mut i: usize = 0;
    assert(cs@.skip(0) =~= cs@);
    while i < cs.len()
        invariant
            well_formed(*t),
            n < t.nodes@.len(),
            cs@ == children(*t, n as int),
            i <= cs@.len(),
            args_def(*t, cs@) == args_def(*t, cs@.skip(i as int)),
        decreases cs.len() - i,
    {
        let c = cs[i];
        assert(n < t.nodes@[n as int].children@[i as int] < t.nodes@.len());
        assert(cs@.skip(i as int)[0] == c);
        assert(cs@.skip(i as int).drop_first() =~= cs@.skip(i + 1));
        if kind_is(t, c, "arguments") {
            match first_def_at(t, c) {
                Some(d) => {
                    return Some(d);
                },
                None => {},
            }
        }
        i += 1;
    }
    assert(cs@.skip(i as int) =~= Seq::<usize>::empty());
    None
}

fn text_of_node(t: &SyntaxTree, o: Option<usize>) -> (r: Option<String>)
    requires
        o matches Some(c) ==> c < t.nodes@.len(),
    ensures
        match text_of_opt(*t, match o { Some(c) => Some(c as int), None => None }) {
            Some(s) => r is Some && r->0@ == s,
            None => r is None,
        },
{
    match o {
        Some(c) => text_at(t, c),
        None => None,
    }
}

fn defined_symbol(src: &SourceText, t: &SyntaxTree, n: usize, name: String, k: SymbolKind, vis: Visibility) -> (r: Symbol)
    requires
        source_ok(src),
        well_formed(*t),
        fits_source(*t, src.text@),
        n < t.nodes@.len(),
    ensures
        symbol_view(r) == defined(src.text@, *t, n as int, name@, k, vis),
{
    let sig = signature(text_or_empty_at(t, n).as_str());
    let rw = t.nodes[n].row;
    assert(rw <= lines(src.text@).len());
    let doc = elixir_doc_at(&src.lines, rw, Ghost(src.text@));
    assert(t.nodes@[n as int].row < usize::MAX);
    Symbol { name, kind: k, signature: sig, doc_comment: doc, visibility: vis, line: rw + 1 }
}

fn own_symbols_at(src: &SourceText, t: &SyntaxTree, n: usize, out: &mut Vec<Symbol>)
    requires
        source_ok(src),
        well_formed(*t),
        fits_source(*t, src.text@),
        n < t.nodes@.len(),
    ensures
        symbol_views(final(out)@) == symbol_views(old(out)@) + own_symbols(src.text@, *t, n as int),
{
    let ghost before = symbol_views(out@);
    let c = match callee_at(t, n) {
        Some(c) => c,
        None => {
            assert(symbol_views(out@) =~= before + Seq::<SymbolView>::empty());
            return;
        },
    };
    let same = |k: &str| -> (b: bool)
        ensures
            b == (c@ == k@),
        { crate::syntax::same_text(c.as_str(), k) };
    assert(t.nodes@[n as int].row < usize::MAX);
    if same("defmodule") {
        match text_of_node(t, alias_in_children(t, n, false)) {
            Some(name) => {
                let mut sig = String::from_str("defmodule ");
                sig.append(name.as_str());
                let rw = t.nodes[n].row;
                assert(rw <= lines(src.text@).len());
                let doc = elixir_doc_at(&src.lines, rw, Ghost(src.text@));
                let s = Symbol { name, kind: SymbolKind::Module, signature: sig, doc_comment: doc, visibility: Visibility::Public, line: rw + 1 };
                out.push(s);
                assert(symbol_views(out@) =~= before + seq![symbol_view(s)]);
            },
            None => {
                assert(symbol_views(out@) =~= before + Seq::<SymbolView>::empty());
            },
        }
    } else if same("def") || same("defp") || same("defmacro") || same("defmacrop") {
        let function = same("def") || same("defp");
        let (k, vis) = if function {
            (SymbolKind::Function, if same("def") { Visibility::Public } else { Visibility::Private })
        } else {
            (SymbolKind::Macro, if same("defmacro") { Visibility::Public } else { Visibility::Private })
        };
        match text_of_node(t, args_def_at(t, n)) {
            Some(name) => {
                let s = defined_symbol(src, t, n, name, k, vis);
                out.push(s);
                assert(symbol_views(out@) =~= before + seq![symbol_view(s)]);
            },
            None => {
                assert(symbol_views(out@) =~= before + Seq::<SymbolView>::empty());
            },
        }
    } else if same("defstruct") {
        let sig = signature(text_or_empty_at(t, n).as_str());
        let s = Symbol {
            name: String::from_str("defstruct"),
            kind: SymbolKind::Struct,
            signature: sig,
            doc_comment: None,
            visibility: Visibility::Public,
            line: t.nodes[n].row + 1,
        };
        out.push(s);
        assert(symbol_views(out@) =~= before + seq![symbol_view(s)]);
    } else {
        assert(symbol_views(out@) =~= before + Seq::<SymbolView>::empty());
    }
}

fn own_imports_at(t: &SyntaxTree, n: usize, out: &mut Vec<PendingImport>)
    requires
        well_formed(*t),
        n < t.nodes@.len(),
    ensures
        pending_views(final(out)@) == pending_views(old(out)@) + own_imports(*t, n as int),
{
    let ghost before = pending_views(out@);
    let c = match callee_at(t, n) {
        Some(c) => c,
        None => {
            assert(pending_views(out@) =~= before + Seq::<PendingView>::empty());
            return;
        },
    };
    let same = |k: &str| -> (b: bool)
        ensures
            b == (c@ == k@),
        { crate::syntax::same_text(c.as_str(), k) };
    if same("alias") || same("import") || same("use") || same("require") {
        match text_of_node(t, alias_in_children(t, n, true)) {
            Some(name) => {
                let pi = whole_pending(ImportKind::ElixirModule, name);
                out.push(pi);
                assert(pending_views(out@) =~= before + seq![pending_view(pi)]);
            },
            None => {
                assert(pending_views(out@) =~= before + Seq::<PendingView>::empty());
            },
        }
    } else {
        assert(pending_views(out@) =~= before + Seq::<PendingView>::empty());
    }
}

fn call_reading_at(t: &SyntaxTree, n: usize) -> (r: Option<Reading>)
    requires
        well_formed(*t),
        n < t.nodes@.len(),
    ensures
        r == call_reading(*t, n as int),
{
    match callee_at(t, n) {
        None => Some(Reading::BlocksAndArguments),
        Some(c) => {
            let same = |k: &str| -> (b: bool)
                ensures
                    b == (c@ == k@),
                { crate::syntax::same_text(c.as_str(), k) };
            if same("defmodule") {
                Some(Reading::Blocks)
            } else if same("def") || same("defp") || same("defmacro") || same("defmacrop") || same("defstruct")
                || same("alias") || same("import") || same("use") || same("require") {
                None
            } else {
                Some(Reading::BlocksAndArguments)
            }
        },
    }
}

/// Reads the children of `p` under `r`, in order, into `syms` and `imps`.
fn walk(src: &SourceText, t: &SyntaxTree, p: usize, r: Reading, syms: &mut Vec<Symbol>, imps: &mut Vec<PendingImport>)
    requires
        source_ok(src),
        well_formed(*t),
        fits_source(*t, src.text@),
        p < t.nodes@.len(),
    ensures
        symbol_views(final(syms)@) == symbol_views(old(syms)@) + symbols_in(src.text@, *t, p as int, children(*t, p as int), r),
        pending_views(final(imps)@) == pending_views(old(imps)@) + imports_in(*t, p as int, children(*t, p as int), r),
    decreases t.nodes@.len() - p,
{
    let cs = &t.nodes[p].children;
    let ghost s0 = symbol_views(syms@);
    let ghost i0 = pending_views(imps@);
    let mut i: usize = 0;
    while i < cs.len()
        invariant
            source_ok(src),
            well_formed(*t),
            fits_source(*t, src.text@),
            p < t.nodes@.len(),
            cs@ == children(*t, p as int),
            i <= cs@.len(),
            symbol_views(syms@) == s0 + symbols_in(src.text@, *t, p as int, cs@.take(i as int), r),
            pending_views(imps@) == i0 + imports_in(*t, p as int, cs@.take(i as int), r),
        decreases cs.len() - i,
    {
        let c = cs[i];
        assert(p < t.nodes@[p as int].children@[i as int] < t.nodes@.len());
        assert(cs@.take(i + 1).drop_last() =~= cs@.take(i as int));
        assert(cs@.take(i + 1).last() == c);
        let every = match r {
            Reading::Every => true,
            _ => false,
        };
        if every {
            if kind_is(t, c, "call") {
                own_symbols_at(src, t, c, syms);
                own_imports_at(t, c, imps);
                match call_reading_at(t, c) {
                    Some(r2) => {
                        walk(src, t, c, r2, syms, imps);
                    },
                    None => {},
                }
            } else {
                walk(src, t, c, Reading::Every, syms, imps);
            }
        } else {
            let pick = match r {
                Reading::Blocks => kind_is(t, c, "do_block"),
                _ => kind_is(t, c, "do_block") || kind_is(t, c, "arguments"),
            };
            if pick {
                walk(src, t, c, Reading::Every, syms, imps);
            }
        }
        assert(symbol_views(syms@) =~= s0 + symbols_in(src.text@, *t, p as int, cs@.take(i + 1), r));
        assert(pending_views(imps@) =~= i0 + imports_in(*t, p as int, cs@.take(i + 1), r));
        i += 1;
    }
    assert(cs@.take(cs.len() as int) =~= cs@);
}

/// The module references found in an Elixir file, before their targets are looked for,
/// and its definitions.
pub fn elixir_outline(source: &str, tree: &SyntaxTree) -> (r: (Vec<PendingImport>, Vec<Symbol>))
    requires
        well_formed(*tree),
        fits_source(*tree, source@),
    ensures
        pending_views(r.0@) == elixir_imports(*tree),
        symbol_views(r.1@) == elixir_symbols(source@, *tree),
{
    let src = source_text(source);
    let mut imports: Vec<PendingImport> = Vec::new();
    let mut symbols: Vec<Symbol> = Vec::new();
    walk(&src, tree, 0, Reading::Every, &mut symbols, &mut imports);
    assert(pending_views(imports@) =~= elixir_imports(*tree));
    assert(symbol_views(symbols@) =~= elixir_symbols(source@, *tree));
    (imports, symbols)
}

/// Reads the import edges and definitions of an Elixir file from its syntax tree. Module
/// names are looked for under `lib/` of the nearest directory above the file holding a
/// `mix.exs`; those found become edges, in order.
pub fn extract_elixir(file_path: &str, source: &str, tree: &SyntaxTree) -> (r: (Vec<ImportEdge>, Vec<Symbol>))
    requires
        well_formed(*tree),
        fits_source(*tree, source@),
    ensures
        symbol_views(r.1@) == elixir_symbols(source@, *tree),
        exists|targets: Seq<Option<Seq<char>>>| #![auto]
            resolutions_ok(file_path@, file_path@, elixir_imports(*tree), targets)
                && crate::extract::edge_views(r.0@) == edges_from(file_path@, elixir_imports(*tree), targets),
{
    let (found, symbols) = elixir_outline(source, tree);
    let (edges, _) = resolve_imports(file_path, file_path, &found);
    (edges, symbols)
}

} // verus!
