//! What the extractors find in a file, read as plain values, and how the imports they
//! find become edges of the graph once their targets are resolved on disk.
use vstd::prelude::*;
use vstd::string::*;
use crate::disk::DiskAnswer;
use crate::text::string_views;
use crate::types::{ImportEdge, Symbol, SymbolKind, Visibility};

verus! {

/// A symbol read as plain values.
pub struct SymbolView {
    pub name: Seq<char>,
    pub kind: SymbolKind,
    pub signature: Seq<char>,
    pub doc_comment: Option<Seq<char>>,
    pub visibility: Visibility,
    pub line: int,
}

pub open spec fn opt_view(o: Option<String>) -> Option<Seq<char>> {
    match o {
        Some(s) => Some(s@),
        None => None,
    }
}

pub open spec fn symbol_view(s: Symbol) -> SymbolView {
    SymbolView {
        name: s.name@,
        kind: s.kind,
        signature: s.signature@,
        doc_comment: opt_view(s.doc_comment),
        visibility: s.visibility,
        line: s.line as int,
    }
}

pub open spec fn symbol_views(v: Seq<Symbol>) -> Seq<SymbolView> {
    v.map_values(|s: Symbol| symbol_view(s))
}

/// How the target of an import is looked for.
#[derive(Clone, Copy, Debug, PartialEq, Eq, Structural)]
pub enum ImportKind {
    /// A TypeScript/JavaScript specifier, resolved relative to the importing file.
    Relative,
    /// A Rust `use` path.
    UsePath,
    /// A Rust `mod` declaration, by module name.
    ModDecl,
    /// A Ruby `require`, naming a gem: never resolved to a file.
    RubyRequire,
    /// A Ruby `require_relative`, resolved relative to the requiring file.
    RubyRelative,
    /// An Elixir module named by `alias`, `import`, `use` or `require`.
    ElixirModule,
}

/// An import found in a file, before its target is looked for: `module` is what is
/// resolved, `specifier` and `symbols` what the edge records.
pub struct PendingImport {
    pub kind: ImportKind,
    pub module: String,
    pub specifier: String,
    pub symbols: Vec<String>,
}

/// A found import read as plain values.
pub struct PendingView {
    pub kind: ImportKind,
    pub module: Seq<char>,
    pub specifier: Seq<char>,
    pub symbols: Seq<Seq<char>>,
}

pub open spec fn pending_view(p: PendingImport) -> PendingView {
    PendingView { kind: p.kind, module: p.module@, specifier: p.specifier@, symbols: string_views(p.symbols@) }
}

pub open spec fn pending_views(v: Seq<PendingImport>) -> Seq<PendingView> {
    v.map_values(|p: PendingImport| pending_view(p))
}

/// An import of everything `module` offers (`*`), looked for as `kind` says.
pub open spec fn whole_import(kind: ImportKind, module: Seq<char>) -> PendingView {
    PendingView { kind, module, specifier: module, symbols: seq!["*"@] }
}

/// Builds an import of everything `module` offers.
pub fn whole_pending(kind: ImportKind, module: String) -> (r: PendingImport)
    ensures
        pending_view(r) == whole_import(kind, module@),
{
    let mut syms: Vec<String> = Vec::new();
    syms.push(String::from_str("*"));
    let r = PendingImport { kind, module: module.clone(), specifier: module, symbols: syms };
    assert(string_views(r.symbols@) =~= seq!["*"@]);
    r
}

/// An import edge read as plain values.
pub struct EdgeView {
    pub source: Seq<char>,
    pub target: Seq<char>,
    pub specifier: Seq<char>,
    pub symbols: Seq<Seq<char>>,
}

pub open spec fn edge_view(e: ImportEdge) -> EdgeView {
    EdgeView { source: e.source@, target: e.target@, specifier: e.specifier@, symbols: string_views(e.symbols@) }
}

pub open spec fn edge_views(v: Seq<ImportEdge>) -> Seq<EdgeView> {
    v.map_values(|e: ImportEdge| edge_view(e))
}

/// The edges the found imports give once each is resolved (`targets[i]` for `found[i]`):
/// one per import whose target was found, in order.
pub open spec fn edges_from(file: Seq<char>, found: Seq<PendingView>, targets: Seq<Option<Seq<char>>>) -> Seq<EdgeView>
    decreases found.len(),
{
    if found.len() == 0 {
        seq![]
    } else {
        let i = found.len() - 1;
        edges_from(file, found.drop_last(), targets.drop_last()) + match targets[i] {
            Some(target) => seq![EdgeView { source: file, target, specifier: found[i].specifier, symbols: found[i].symbols }],
            None => seq![],
        }
    }
}

/// What a resolver answers for a found import, given what the disk answers: nothing for
/// an import that names no file of the project, else the first of the paths it tries, in
/// order, that the disk reports existing. For an Elixir module the paths are those below
/// the nearest directory above the file whose `mix.exs` the disk reports existing.
pub open spec fn resolution_ok(file: Seq<char>, crate_root: Seq<char>, p: PendingView, target: Option<Seq<char>>) -> bool {
    match p.kind {
        ImportKind::Relative => {
            &&& !crate::resolver::is_relative(p.module) ==> target is None
            &&& crate::resolver::first_found(crate::resolver::ts_js_candidates(p.module, file), target)
        },
        ImportKind::UsePath => {
            &&& crate::resolver::rust_base(p.module, file, crate_root) is None ==> target is None
            &&& crate::resolver::first_found(crate::resolver::rust_module_candidates(p.module, file, crate_root), target)
        },
        ImportKind::ModDecl => {
            &&& crate::paths::parent(file) is None ==> target is None
            &&& crate::resolver::first_found(crate::resolver::rust_mod_decl_candidates(p.module, file), target)
        },
        ImportKind::RubyRequire => target is None,
        ImportKind::RubyRelative => crate::resolver::first_found(crate::resolver::ruby_candidates(p.module, file, true), target),
        ImportKind::ElixirModule => {
            &&& crate::paths::parent(file) is None ==> target is None
            &&& crate::resolver::elixir_found(p.module, file, target)
        },
    }
}

/// The answers given for each found import are answers a resolver may give.
pub open spec fn resolutions_ok(file: Seq<char>, crate_root: Seq<char>, found: Seq<PendingView>, targets: Seq<Option<Seq<char>>>) -> bool {
    &&& targets.len() == found.len()
    &&& forall|i: int| 0 <= i < found.len() ==> resolution_ok(file, crate_root, found[i], #[trigger] targets[i])
}

pub fn copy_strings(v: &Vec<String>) -> (r: Vec<String>)
    ensures
        string_views(r@) == string_views(v@),
{
    let mut r: Vec<String> = Vec::new();
    let mut i: usize = 0;
    while i < v.len()
        invariant
            i <= v.len(),
            string_views(r@) == string_views(v@).take(i as int),
        decreases v.len() - i,
    {
        let ghost before = string_views(r@);
        let s = v[i].clone();
        r.push(s);
        assert(s@ == v@[i as int]@);
        assert(string_views(r@) =~= before.push(s@));
        assert(string_views(v@).take(i + 1) =~= string_views(v@).take(i as int).push(v@[i as int]@));
        i += 1;
    }
    assert(string_views(v@).take(v.len() as int) =~= string_views(v@));
    r
}

/// `target` is what the answers received for a found import give: `answers` are about
/// the paths its resolver tries, in order, and (for an Elixir module) `mix` about the
/// `mix.exs` files above the file; no other answers were asked for.
pub open spec fn looked_up(file: Seq<char>, crate_root: Seq<char>, p: PendingView, mix: Seq<DiskAnswer>, answers: Seq<DiskAnswer>, target: Option<Seq<char>>) -> bool {
    match p.kind {
        ImportKind::Relative => mix.len() == 0
            && crate::resolver::found_by(crate::resolver::ts_js_candidates(p.module, file), answers, target),
        ImportKind::UsePath => mix.len() == 0
            && crate::resolver::found_by(crate::resolver::rust_module_candidates(p.module, file, crate_root), answers, target),
        ImportKind::ModDecl => mix.len() == 0
            && crate::resolver::found_by(crate::resolver::rust_mod_decl_candidates(p.module, file), answers, target),
        ImportKind::RubyRequire => mix.len() == 0
            && crate::resolver::found_by(crate::resolver::ruby_candidates(p.module, file, false), answers, target),
        ImportKind::RubyRelative => mix.len() == 0
            && crate::resolver::found_by(crate::resolver::ruby_candidates(p.module, file, true), answers, target),
        ImportKind::ElixirModule => crate::resolver::elixir_found_by(p.module, file, mix, answers, target),
    }
}

/// Looks for the target of one found import, with the answers received.
fn resolve_one(file: &str, crate_root: &str, p: &PendingImport) -> (r: (Option<String>, Vec<DiskAnswer>, Vec<DiskAnswer>))
    ensures
        resolution_ok(file@, crate_root@, pending_view(*p), opt_view(r.0)),
        looked_up(file@, crate_root@, pending_view(*p), r.1@, r.2@, opt_view(r.0)),
{
    match p.kind {
        ImportKind::Relative => {
            let (t, a) = crate::resolver::resolve_ts_js_import(p.module.as_str(), file);
            (t, Vec::new(), a)
        },
        ImportKind::UsePath => {
            let (t, a) = crate::resolver::resolve_rust_module(p.module.as_str(), file, crate_root);
            (t, Vec::new(), a)
        },
        ImportKind::ModDecl => {
            let (t, a) = crate::resolver::resolve_rust_mod_decl(p.module.as_str(), file);
            (t, Vec::new(), a)
        },
        ImportKind::RubyRequire => {
            let (t, a) = crate::resolver::resolve_ruby_require(p.module.as_str(), file, false);
            (t, Vec::new(), a)
        },
        ImportKind::RubyRelative => {
            let (t, a) = crate::resolver::resolve_ruby_require(p.module.as_str(), file, true);
            (t, Vec::new(), a)
        },
        ImportKind::ElixirModule => crate::resolver::resolve_elixir_module(p.module.as_str(), file),
    }
}

/// Looks for the target of each found import, and makes an edge of each one found, in
/// order. Gives, per import, the answers the disk gave (about `mix.exs` files, then about
/// the paths tried); each target is the one those answers pick.
pub fn resolve_imports(file: &str, crate_root: &str, found: &Vec<PendingImport>) -> (r: (Vec<ImportEdge>, Vec<(Vec<DiskAnswer>, Vec<DiskAnswer>)>))
    ensures
        r.1@.len() == found@.len(),
        exists|targets: Seq<Option<Seq<char>>>| #![auto]
            resolutions_ok(file@, crate_root@, pending_views(found@), targets)
                && edge_views(r.0@) == edges_from(file@, pending_views(found@), targets)
                && forall|i: int| 0 <= i < found@.len() ==> looked_up(file@, crate_root@, pending_views(found@)[i], r.1@[i].0@, r.1@[i].1@, targets[i]),
{
    let mut edges: Vec<ImportEdge> = Vec::new();
    let mut lookups: Vec<(Vec<DiskAnswer>, Vec<DiskAnswer>)> = Vec::new();
    let ghost mut targets: Seq<Option<Seq<char>>> = seq![];
    let mut i: usize = 0;
    while i < found.len()
        invariant
            i <= found.len(),
            resolutions_ok(file@, crate_root@, pending_views(found@).take(i as int), targets),
            edge_views(edges@) == edges_from(file@, pending_views(found@).take(i as int), targets),
            lookups@.len() == i,
            forall|k: int| 0 <= k < i ==> looked_up(file@, crate_root@, pending_views(found@)[k], lookups@[k].0@, lookups@[k].1@, #[trigger] targets[k]),
        decreases found.len() - i,
    {
        let ghost before = edge_views(edges@);
        let ghost t0 = targets;
        let ghost l0 = lookups@;
        let p = &found[i];
        let (got, mix, answers) = resolve_one(file, crate_root, p);
        lookups.push((mix, answers));
        proof {
            targets = targets.push(opt_view(got));
            assert(pending_views(found@)[i as int] == pending_view(*p));
            assert forall|k: int| 0 <= k < i + 1 implies looked_up(file@, crate_root@, pending_views(found@)[k], lookups@[k].0@, lookups@[k].1@, #[trigger] targets[k]) by {
                if k < i {
                    assert(lookups@[k] == l0[k]);
                    assert(targets[k] == t0[k]);
                }
            }
            let fv = pending_views(found@);
            assert(fv.take(i + 1).drop_last() =~= fv.take(i as int));
            assert(targets.drop_last() =~= t0);
            assert(fv.take(i + 1)[i as int] == pending_view(*p));
            assert forall|k: int| 0 <= k < fv.take(i + 1).len() implies resolution_ok(file@, crate_root@, fv.take(i + 1)[k], #[trigger] targets[k]) by {
                if k < i {
                    assert(fv.take(i + 1)[k] == fv.take(i as int)[k]);
                    assert(targets[k] == t0[k]);
                }
            }
        }
        match got {
            Some(target) => {
                let e = ImportEdge {
                    source: String::from_str(file),
                    target,
                    specifier: p.specifier.clone(),
                    symbols: copy_strings(&p.symbols),
                };
                edges.push(e);
                assert(edge_views(edges@) =~= before + seq![edge_view(e)]);
            },
            None => {
                assert(edge_views(edges@) =~= before + Seq::<EdgeView>::empty());
            },
        }
        i += 1;
    }
    assert(pending_views(found@).take(found.len() as int) =~= pending_views(found@));
    (edges, lookups)
}

/// Every edge made from the imports found in a file starts at that file, ends at a target
/// that was found, and keeps the specifier and symbols of an import found in it; there are
/// never more edges than imports.
pub proof fn law_edges_from_found(file: Seq<char>, found: Seq<PendingView>, targets: Seq<Option<Seq<char>>>)
    requires
        targets.len() == found.len(),
    ensures
        edges_from(file, found, targets).len() <= found.len(),
        forall|e: int| 0 <= e < edges_from(file, found, targets).len() ==> exists|i: int|
            0 <= i < found.len() && #[trigger] targets[i] == Some(#[trigger] edges_from(file, found, targets)[e].target)
                && edges_from(file, found, targets)[e].source == file
                && edges_from(file, found, targets)[e].specifier == found[i].specifier
                && edges_from(file, found, targets)[e].symbols == found[i].symbols,
    decreases found.len(),
{
    if found.len() > 0 {
        let df = found.drop_last();
        let dt = targets.drop_last();
        law_edges_from_found(file, df, dt);
        let prev = edges_from(file, df, dt);
        let all = edges_from(file, found, targets);
        let i = found.len() - 1;
        assert forall|e: int| 0 <= e < all.len() implies exists|j: int|
            0 <= j < found.len() && #[trigger] targets[j] == Some(#[trigger] all[e].target) && all[e].source == file
                && all[e].specifier == found[j].specifier && all[e].symbols == found[j].symbols by {
            if e < prev.len() {
                assert(all[e] == prev[e]);
                let j = choose|j: int| 0 <= j < df.len() && #[trigger] dt[j] == Some(#[trigger] prev[e].target) && prev[e].source == file
                    && prev[e].specifier == df[j].specifier && prev[e].symbols == df[j].symbols;
                assert(targets[j] == dt[j] && found[j] == df[j]);
            } else {
                assert(targets[i] == Some(all[e].target));
            }
        }
    }
}

} // verus!
