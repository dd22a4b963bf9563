//! The import graph: walking it outward from entry points, and finding cycles in it.
//!
//! The graph is given as the project's import rows (source file, target file), in the
//! order the database returns them.
use vstd::prelude::*;
use vstd::string::*;

verus! {

/// What the index holds of one file: its symbols, the files it imports and the files
/// that import it, each with the symbols named by the import.
pub struct FileDetail {
    pub file_path: String,
    pub language: String,
    pub symbols: Vec<crate::types::Symbol>,
    pub imports: Vec<(String, Vec<String>)>,
    pub dependents: Vec<(String, Vec<String>)>,
}

/// One import row: `source` imports `target`.
pub struct GraphEdge {
    pub source: String,
    pub target: String,
}

/// `edges` holds an import from `a` to `b`.
pub open spec fn has_edge(edges: Seq<GraphEdge>, a: Seq<char>, b: Seq<char>) -> bool {
    exists|i: int| 0 <= i < edges.len() && #[trigger] edges[i].source@ == a && edges[i].target@ == b
}

/// Why a file was reached: it is an entry point, it is imported by an earlier file, or it
/// imports an earlier file.
#[derive(Clone, Copy, Debug, PartialEq, Eq, Structural)]
pub enum Reason {
    Entry,
    Dependency,
    Dependent,
}

/// A file reached by the walk, with its hop distance from the entry points.
pub struct WalkEntry {
    pub path: String,
    pub depth: usize,
    pub reason: Reason,
}

/// `x` is at most `k` hops (imports followed in either direction) from an entry point.
pub open spec fn in_ball(edges: Seq<GraphEdge>, entries: Seq<Seq<char>>, x: Seq<char>, k: nat) -> bool
    decreases k,
{
    if k == 0 {
        entries.contains(x)
    } else {
        in_ball(edges, entries, x, (k - 1) as nat) || exists|i: int|
            0 <= i < edges.len() && ((#[trigger] edges[i].target@ == x && in_ball(
                edges,
                entries,
                edges[i].source@,
                (k - 1) as nat,
            )) || (edges[i].source@ == x && in_ball(
                edges,
                entries,
                edges[i].target@,
                (k - 1) as nat,
            )))
    }
}

/// `e` is reached from `from` by the edge its reason names.
pub open spec fn linked(edges: Seq<GraphEdge>, from: Seq<char>, e: WalkEntry) -> bool {
    match e.reason {
        Reason::Dependency => has_edge(edges, from, e.path@),
        Reason::Dependent => has_edge(edges, e.path@, from),
        Reason::Entry => false,
    }
}

/// `a` and `b` are one import apart, in either direction.
pub open spec fn adjacent(edges: Seq<GraphEdge>, a: Seq<char>, b: Seq<char>) -> bool {
    has_edge(edges, a, b) || has_edge(edges, b, a)
}

/// `v[i]` is the file the walk reached `v[j]` from: the first file of the walk one import
/// away from it, one hop closer; and `v[j]` is a dependency exactly when `v[i]` imports
/// it (the imports of a file are followed before its importers).
pub open spec fn reached_from(edges: Seq<GraphEdge>, v: Seq<WalkEntry>, i: int, j: int) -> bool {
    &&& 0 <= i < j < v.len()
    &&& v[i].depth + 1 == v[j].depth
    &&& adjacent(edges, v[i].path@, v[j].path@)
    &&& forall|h: int| 0 <= h < i ==> !adjacent(edges, #[trigger] v[h].path@, v[j].path@)
    &&& (v[j].reason == Reason::Dependency <==> has_edge(edges, v[i].path@, v[j].path@))
}

/// Every file past the entry points is reached from the first file of the walk next to
/// it, with the reason that file's import gives.
#[verifier::opaque]
pub open spec fn reasons_first(edges: Seq<GraphEdge>, v: Seq<WalkEntry>) -> bool {
    forall|j: int| 0 <= j < v.len() && #[trigger] v[j].depth > 0 ==> exists|i: int| #[trigger] reached_from(edges, v, i, j)
}

/// Every file next to one of the first `head` files of `v` is in `v`.
#[verifier::opaque]
pub open spec fn neighbours_present(edges: Seq<GraphEdge>, v: Seq<WalkEntry>, head: int) -> bool {
    forall|h: int, y: Seq<char>| 0 <= h < head && #[trigger] adjacent(edges, v[h].path@, y) ==> paths(v).contains(y)
}

/// Every file `v[head]` imports is in `v`.
#[verifier::opaque]
pub open spec fn imports_present(edges: Seq<GraphEdge>, v: Seq<WalkEntry>, head: int) -> bool {
    forall|y: Seq<char>| #[trigger] has_edge(edges, v[head].path@, y) ==> paths(v).contains(y)
}

proof fn lemma_neighbours_from_core(edges: Seq<GraphEdge>, entries: Seq<Seq<char>>, v: Seq<WalkEntry>, head: int, max_depth: nat)
    requires
        walk_core(edges, entries, v, head, max_depth),
    ensures
        neighbours_present(edges, v, head),
{
    reveal(walk_core);
    reveal(neighbours_present);
    assert forall|h: int, y: Seq<char>| 0 <= h < head && #[trigger] adjacent(edges, v[h].path@, y) implies paths(v).contains(y) by {
        if has_edge(edges, v[h].path@, y) {
            let k = choose|k: int| 0 <= k < edges.len() && #[trigger] edges[k].source@ == v[h].path@ && edges[k].target@ == y;
            let j = choose|j: int| 0 <= j < v.len() && #[trigger] v[j].path@ == edges[k].target@ && v[j].depth <= v[h].depth + 1;
            assert(paths(v)[j] == y);
        } else {
            let k = choose|k: int| 0 <= k < edges.len() && #[trigger] edges[k].source@ == y && edges[k].target@ == v[h].path@;
            let j = choose|j: int| 0 <= j < v.len() && #[trigger] v[j].path@ == edges[k].source@ && v[j].depth <= v[h].depth + 1;
            assert(paths(v)[j] == y);
        }
    }
}

proof fn lemma_forward_present(edges: Seq<GraphEdge>, v0: Seq<WalkEntry>, v1: Seq<WalkEntry>, head: int)
    requires
        neighbours_present(edges, v0, head),
        0 <= head < v0.len(),
        v1.len() >= v0.len(),
        v1.take(v0.len() as int) == v0,
        forall|k: int| 0 <= k < edges.len() && #[trigger] edges[k].source@ == v0[head].path@ ==> exists|j: int|
            0 <= j < v1.len() && #[trigger] v1[j].path@ == edges[k].target@ && v1[j].depth <= v0[head].depth + 1,
    ensures
        neighbours_present(edges, v1, head),
        imports_present(edges, v1, head),
{
    reveal(neighbours_present);
    reveal(imports_present);
    assert forall|h: int| 0 <= h <= head implies #[trigger] v1[h] == v0[h] by {
        assert(v1.take(v0.len() as int)[h] == v1[h]);
    }
    assert forall|h: int, y: Seq<char>| 0 <= h < head && #[trigger] adjacent(edges, v1[h].path@, y) implies paths(v1).contains(y) by {
        assert(v1[h] == v0[h]);
        lemma_path_kept(v0, v1, y);
    }
    assert forall|y: Seq<char>| #[trigger] has_edge(edges, v1[head].path@, y) implies paths(v1).contains(y) by {
        assert(v1[head] == v0[head]);
        let k = choose|k: int| 0 <= k < edges.len() && #[trigger] edges[k].source@ == v1[head].path@ && edges[k].target@ == y;
        let j = choose|j: int| 0 <= j < v1.len() && #[trigger] v1[j].path@ == edges[k].target@ && v1[j].depth <= v0[head].depth + 1;
        assert(paths(v1)[j] == y);
    }
}

proof fn lemma_reasons_push(edges: Seq<GraphEdge>, vb: Seq<WalkEntry>, e: WalkEntry, head: int)
    requires
        reasons_first(edges, vb),
        0 <= head < vb.len(),
        vb[head].depth + 1 == e.depth,
        adjacent(edges, vb[head].path@, e.path@),
        forall|h: int| 0 <= h < head ==> !adjacent(edges, #[trigger] vb[h].path@, e.path@),
        e.reason == Reason::Dependency <==> has_edge(edges, vb[head].path@, e.path@),
    ensures
        reasons_first(edges, vb.push(e)),
{
    reveal(reasons_first);
    let nv = vb.push(e);
    let n = vb.len() as int;
    assert forall|j: int| 0 <= j < nv.len() && #[trigger] nv[j].depth > 0 implies exists|i: int| #[trigger] reached_from(edges, nv, i, j) by {
        if j == n {
            assert forall|h: int| 0 <= h < head implies !adjacent(edges, #[trigger] nv[h].path@, nv[n].path@) by {
                assert(nv[h] == vb[h]);
            }
            assert(reached_from(edges, nv, head, n));
        } else {
            assert(nv[j] == vb[j]);
            let i = choose|i: int| #[trigger] reached_from(edges, vb, i, j);
            assert forall|h: int| 0 <= h < i implies !adjacent(edges, #[trigger] nv[h].path@, nv[j].path@) by {
                assert(nv[h] == vb[h]);
                assert(!adjacent(edges, vb[h].path@, vb[j].path@));
            }
            assert(nv[i] == vb[i]);
            assert(reached_from(edges, nv, i, j));
        }
    }
}

proof fn lemma_reasons_prefix(edges: Seq<GraphEdge>, v: Seq<WalkEntry>, n: int)
    requires
        reasons_first(edges, v),
        0 <= n <= v.len(),
    ensures
        reasons_first(edges, v.take(n)),
{
    reveal(reasons_first);
    let r = v.take(n);
    assert forall|j: int| 0 <= j < r.len() && #[trigger] r[j].depth > 0 implies exists|i: int| #[trigger] reached_from(edges, r, i, j) by {
        assert(r[j] == v[j]);
        let i = choose|i: int| #[trigger] reached_from(edges, v, i, j);
        assert forall|h: int| 0 <= h < i implies !adjacent(edges, #[trigger] r[h].path@, r[j].path@) by {
            assert(r[h] == v[h]);
            assert(!adjacent(edges, v[h].path@, v[j].path@));
        }
        assert(r[i] == v[i]);
        assert(reached_from(edges, r, i, j));
    }
}

/// A file in a walk stays in it as the walk grows.
proof fn lemma_path_kept(v0: Seq<WalkEntry>, v: Seq<WalkEntry>, y: Seq<char>)
    requires
        paths(v0).contains(y),
        v.len() >= v0.len(),
        v.take(v0.len() as int) == v0,
    ensures
        paths(v).contains(y),
{
    let j = choose|j: int| 0 <= j < paths(v0).len() && paths(v0)[j] == y;
    assert(v.take(v0.len() as int)[j] == v[j]);
    assert(paths(v)[j] == y);
}

/// What holds of every walk result: distinct files, depths never decreasing and at most
/// `max_depth`, depth 0 exactly for entry points, and every other file reached by an
/// import edge from an earlier file one hop closer.
#[verifier::opaque]
pub open spec fn walk_sound(edges: Seq<GraphEdge>, entries: Seq<Seq<char>>, v: Seq<WalkEntry>, max_depth: nat) -> bool {
    &&& forall|i: int, j: int| 0 <= i < j < v.len() ==> #[trigger] v[i].path@ != #[trigger] v[j].path@
    &&& forall|i: int, j: int| 0 <= i < j < v.len() ==> #[trigger] v[i].depth <= #[trigger] v[j].depth
    &&& forall|j: int| 0 <= j < v.len() ==> #[trigger] v[j].depth <= max_depth
    &&& forall|j: int| 0 <= j < v.len() ==> (#[trigger] v[j].depth == 0 <==> v[j].reason == Reason::Entry)
    &&& forall|j: int| 0 <= j < v.len() && #[trigger] v[j].reason == Reason::Entry ==> entries.contains(v[j].path@)
    &&& forall|j: int| 0 <= j < v.len() && #[trigger] v[j].depth > 0 ==> exists|i: int|
        0 <= i < j && v[i].depth + 1 == v[j].depth && #[trigger] linked(edges, v[i].path@, v[j])
}

/// Every file within `k` hops of an entry point is in `v` at depth at most `k`.
pub open spec fn ball_covered(edges: Seq<GraphEdge>, entries: Seq<Seq<char>>, v: Seq<WalkEntry>, k: nat) -> bool {
    forall|x: Seq<char>| #[trigger] in_ball(edges, entries, x, k) ==> exists|j: int|
        0 <= j < v.len() && #[trigger] v[j].path@ == x && v[j].depth <= k
}

pub open spec fn paths(v: Seq<WalkEntry>) -> Seq<Seq<char>> {
    v.map_values(|e: WalkEntry| e.path@)
}

/// Every file the walk may name: entry points and both ends of every edge.
pub open spec fn universe(edges: Seq<GraphEdge>, entries: Seq<Seq<char>>) -> Seq<Seq<char>> {
    entries + edges.map_values(|e: GraphEdge| e.source@) + edges.map_values(|e: GraphEdge| e.target@)
}

proof fn lemma_distinct_bound(ps: Seq<Seq<char>>, u: Seq<Seq<char>>)
    requires
        ps.no_duplicates(),
        forall|i: int| 0 <= i < ps.len() ==> u.contains(#[trigger] ps[i]),
    ensures
        ps.len() <= u.len(),
{
    ps.unique_seq_to_set();
    u.lemma_cardinality_of_set();
    assert(ps.to_set().subset_of(u.to_set()));
    vstd::set_lib::lemma_len_subset(ps.to_set(), u.to_set());
}

fn contains_path(v: &Vec<WalkEntry>, p: &String) -> (r: bool)
    ensures
        r == paths(v@).contains(p@),
{
    let mut i: usize = 0;
    while i < v.len()
        invariant
            i <= v.len(),
            forall|j: int| 0 <= j < i ==> v@[j].path@ != p@,
        decreases v.len() - i,
    {
        if v[i].path == *p {
            assert(paths(v@)[i as int] == p@);
            return true;
        }
        i += 1;
    }
    proof {
        if paths(v@).contains(p@) {
            let j = choose|j: int| 0 <= j < paths(v@).len() && paths(v@)[j] == p@;
            assert(v@[j].path@ == p@);
        }
    }
    false
}

/// The invariant of the walk loop, `head` being the next file to expand.
pub open spec fn walk_state(edges: Seq<GraphEdge>, entries: Seq<Seq<char>>, v: Seq<WalkEntry>, head: int, max_depth: nat) -> bool {
    &&& walk_core(edges, entries, v, head, max_depth)
    &&& forall|x: Seq<char>| #[trigger] entries.contains(x) ==> exists|j: int| 0 <= j < v.len() && #[trigger] v[j].path@ == x && v[j].depth == 0
}

/// `walk_state` without the presence of every entry point.
#[verifier::opaque]
pub open spec fn walk_core(edges: Seq<GraphEdge>, entries: Seq<Seq<char>>, v: Seq<WalkEntry>, head: int, max_depth: nat) -> bool {
    &&& walk_sound(edges, entries, v, max_depth)
    &&& 0 <= head <= v.len()
    &&& forall|i: int, j: int| head <= i < v.len() && 0 <= j < v.len() ==> #[trigger] v[j].depth <= #[trigger] v[i].depth + 1
    &&& forall|i: int| 0 <= i < head ==> #[trigger] v[i].depth < max_depth
    &&& forall|i: int, k: int| 0 <= i < head && 0 <= k < edges.len() && #[trigger] edges[k].source@ == #[trigger] v[i].path@ ==> exists|j: int|
        0 <= j < v.len() && #[trigger] v[j].path@ == edges[k].target@ && v[j].depth <= v[i].depth + 1
    &&& forall|i: int, k: int| 0 <= i < head && 0 <= k < edges.len() && #[trigger] edges[k].target@ == #[trigger] v[i].path@ ==> exists|j: int|
        0 <= j < v.len() && #[trigger] v[j].path@ == edges[k].source@ && v[j].depth <= v[i].depth + 1
    &&& forall|j: int| 0 <= j < v.len() ==> universe(edges, entries).contains(#[trigger] v[j].path@)
}

proof fn lemma_entries_in_universe(edges: Seq<GraphEdge>, entries: Seq<Seq<char>>)
    ensures
        forall|x: Seq<char>| #[trigger] entries.contains(x) ==> universe(edges, entries).contains(x),
{
    assert forall|x: Seq<char>| #[trigger] entries.contains(x) implies universe(edges, entries).contains(x) by {
        let i = choose|i: int| 0 <= i < entries.len() && entries[i] == x;
        assert(universe(edges, entries)[i] == x);
    }
}

proof fn lemma_push_in_universe(u: Seq<Seq<char>>, vb: Seq<WalkEntry>, e: WalkEntry)
    requires
        forall|j: int| 0 <= j < vb.len() ==> u.contains(#[trigger] vb[j].path@),
        u.contains(e.path@),
    ensures
        forall|j: int| 0 <= j < vb.push(e).len() ==> u.contains(#[trigger] vb.push(e)[j].path@),
{
    assert forall|j: int| 0 <= j < vb.push(e).len() implies u.contains(#[trigger] vb.push(e)[j].path@) by {
        if j < vb.len() {
            assert(vb.push(e)[j] == vb[j]);
        }
    }
}

proof fn lemma_len_bound(edges: Seq<GraphEdge>, entries: Seq<Seq<char>>, v: Seq<WalkEntry>, max_depth: nat)
    requires
        walk_sound(edges, entries, v, max_depth),
        forall|j: int| 0 <= j < v.len() ==> universe(edges, entries).contains(#[trigger] v[j].path@),
    ensures
        v.len() <= entries.len() + 2 * edges.len(),
{
    reveal(walk_sound);
    let ps = paths(v);
    assert forall|a: int, b: int| 0 <= a < ps.len() && 0 <= b < ps.len() && a != b implies ps[a] != ps[b] by {
        if a < b {
            assert(v[a].path@ != v[b].path@);
        } else {
            assert(v[b].path@ != v[a].path@);
        }
    }
    assert forall|i: int| 0 <= i < ps.len() implies universe(edges, entries).contains(#[trigger] ps[i]) by {
        assert(ps[i] == v[i].path@);
    }
    lemma_distinct_bound(ps, universe(edges, entries));
}

/// A file the walk adds while expanding `v0[head]` is reached from it: the files before
/// it were expanded already and are not next to it, and an importer is added only when it
/// is not also imported (the imports were added first).
proof fn lemma_expand_push(edges: Seq<GraphEdge>, v0: Seq<WalkEntry>, vb: Seq<WalkEntry>, e: WalkEntry, head: int, k: int, forward: bool)
    requires
        reasons_first(edges, vb),
        0 <= head < v0.len(),
        vb.len() >= v0.len(),
        vb.take(v0.len() as int) == v0,
        !paths(vb).contains(e.path@),
        e.depth == v0[head].depth + 1,
        e.reason == (if forward { Reason::Dependency } else { Reason::Dependent }),
        0 <= k < edges.len(),
        forward ==> edges[k].source@ == v0[head].path@ && edges[k].target@ == e.path@,
        !forward ==> edges[k].target@ == v0[head].path@ && edges[k].source@ == e.path@,
        neighbours_present(edges, v0, head),
        !forward ==> imports_present(edges, v0, head),
    ensures
        reasons_first(edges, vb.push(e)),
{
    reveal(neighbours_present);
    reveal(imports_present);
    let y = e.path@;
    let x = v0[head].path@;
    assert(vb[head] == v0[head]) by {
        assert(vb.take(v0.len() as int)[head] == vb[head]);
    }
    assert forall|h: int| 0 <= h < head implies !adjacent(edges, #[trigger] vb[h].path@, y) by {
        assert(vb.take(v0.len() as int)[h] == vb[h]);
        if adjacent(edges, v0[h].path@, y) {
            lemma_path_kept(v0, vb, y);
        }
    }
    if forward {
        assert(has_edge(edges, x, y));
    } else {
        assert(has_edge(edges, y, x));
        if has_edge(edges, x, y) {
            lemma_path_kept(v0, vb, y);
        }
    }
    lemma_reasons_push(edges, vb, e, head);
}

/// Adds the files one import away from `v[head]` (its imports when `forward`, its
/// importers otherwise) that are not yet in `v`, one hop deeper.
#[verifier::spinoff_prover]
fn expand(v: &mut Vec<WalkEntry>, edges: &Vec<GraphEdge>, Ghost(entries): Ghost<Seq<Seq<char>>>, head: usize, max_depth: usize, forward: bool)
    requires
        walk_sound(edges@, entries, old(v)@, max_depth as nat),
        head < old(v)@.len(),
        old(v)@[head as int].depth < max_depth,
        forall|i: int, j: int| head <= i < old(v)@.len() && 0 <= j < old(v)@.len() ==> #[trigger] old(v)@[j].depth <= #[trigger] old(v)@[i].depth + 1,
        forall|j: int| 0 <= j < old(v)@.len() ==> universe(edges@, entries).contains(#[trigger] old(v)@[j].path@),
        reasons_first(edges@, old(v)@),
        neighbours_present(edges@, old(v)@, head as int),
        !forward ==> imports_present(edges@, old(v)@, head as int),
    ensures
        reasons_first(edges@, final(v)@),
        walk_sound(edges@, entries, final(v)@, max_depth as nat),
        final(v)@.len() >= old(v)@.len(),
        final(v)@.take(old(v)@.len() as int) == old(v)@,
        forall|j: int| old(v)@.len() <= j < final(v)@.len() ==> #[trigger] final(v)@[j].depth == old(v)@[head as int].depth + 1,
        forall|j: int| 0 <= j < final(v)@.len() ==> universe(edges@, entries).contains(#[trigger] final(v)@[j].path@),
        forall|k: int| 0 <= k < edges@.len() && (if forward { #[trigger] edges@[k].source@ == old(v)@[head as int].path@ } else { edges@[k].target@ == old(v)@[head as int].path@ }) ==> exists|j: int|
            0 <= j < final(v)@.len() && #[trigger] final(v)@[j].path@ == (if forward { edges@[k].target@ } else { edges@[k].source@ }) && final(v)@[j].depth <= old(v)@[head as int].depth + 1,
{
    reveal(walk_sound);
    let ghost v0 = v@;
    let x = v[head].path.clone();
    let d = v[head].depth;
    let mut k: usize = 0;
    while k < edges.len()
        invariant
            k <= edges.len(),
            x@ == v0[head as int].path@,
            d == v0[head as int].depth,
            d < max_depth,
            head < v0.len(),
            walk_sound(edges@, entries, v@, max_depth as nat),
            v@.len() >= v0.len(),
            v@.take(v0.len() as int) == v0,
            forall|j: int| v0.len() <= j < v@.len() ==> #[trigger] v@[j].depth == d + 1,
            forall|j: int| v0.len() <= j < v@.len() ==> #[trigger] v@[j].reason == (if forward { Reason::Dependency } else { Reason::Dependent }),
            forall|i: int, j: int| head <= i < v0.len() && 0 <= j < v0.len() ==> #[trigger] v0[j].depth <= #[trigger] v0[i].depth + 1,
            walk_sound(edges@, entries, v0, max_depth as nat),
            forall|j: int| 0 <= j < v@.len() ==> universe(edges@, entries).contains(#[trigger] v@[j].path@),
            reasons_first(edges@, v@),
            neighbours_present(edges@, v0, head as int),
            !forward ==> imports_present(edges@, v0, head as int),
            forall|m: int| 0 <= m < k && (if forward { #[trigger] edges@[m].source@ == x@ } else { edges@[m].target@ == x@ }) ==> exists|j: int|
                0 <= j < v@.len() && #[trigger] v@[j].path@ == (if forward { edges@[m].target@ } else { edges@[m].source@ }) && v@[j].depth <= d + 1,
        decreases edges.len() - k,
    {
        proof {
            reveal(walk_sound);
        }
        let hit = if forward {
            edges[k].source == x
        } else {
            edges[k].target == x
        };
        if hit {
            let y = if forward {
                edges[k].target.clone()
            } else {
                edges[k].source.clone()
            };
            if !contains_path(v, &y) {
                let ghost vb = v@;
                let reason = if forward {
                    Reason::Dependency
                } else {
                    Reason::Dependent
                };
                v.push(WalkEntry { path: y, depth: d + 1, reason });
                proof {
                    let nv = v@;
                    let n = vb.len() as int;
                    assert(nv.take(v0.len() as int) =~= vb.take(v0.len() as int));
                    assert forall|j: int| 0 <= j < n implies #[trigger] nv[j] == vb[j] by {}
                    assert(!paths(vb).contains(y@));
                    assert(nv[n].path@ == y@);
                    assert forall|i: int, j: int| 0 <= i < j < nv.len() implies #[trigger] nv[i].path@ != #[trigger] nv[j].path@ by {
                        assert(nv[i] == vb[i]);
                        if j == n {
                            assert(paths(vb)[i] == vb[i].path@);
                            assert(vb[i].path@ != y@);
                        } else {
                            assert(nv[j] == vb[j]);
                            assert(vb[i].path@ != vb[j].path@);
                        }
                    }
                    assert forall|i: int, j: int| 0 <= i < j < nv.len() implies #[trigger] nv[i].depth <= #[trigger] nv[j].depth by {
                        if j == n {
                            if i < v0.len() {
                                assert(v0[i].depth <= v0[head as int].depth + 1);
                            }
                        }
                    }
                    assert(universe(edges@, entries).contains(y@)) by {
                        let u = universe(edges@, entries);
                        if forward {
                            assert(u[entries.len() + edges@.len() + k] == y@);
                        } else {
                            assert(u[entries.len() + k] == y@);
                        }
                    }
                    lemma_push_in_universe(universe(edges@, entries), vb, nv[n]);
                    assert(nv =~= vb.push(nv[n]));
                    assert forall|j: int| 0 <= j < nv.len() && #[trigger] nv[j].depth > 0 implies exists|i: int|
                        0 <= i < j && nv[i].depth + 1 == nv[j].depth && #[trigger] linked(edges@, nv[i].path@, nv[j]) by {
                        if j == n {
                            assert(nv[head as int] == v0[head as int]);
                            if forward {
                                assert(has_edge(edges@, x@, y@));
                            } else {
                                assert(has_edge(edges@, y@, x@));
                            }
                            assert(linked(edges@, nv[head as int].path@, nv[j]));
                        } else {
                            let i = choose|i: int| 0 <= i < j && vb[i].depth + 1 == vb[j].depth && #[trigger] linked(edges@, vb[i].path@, vb[j]);
                            assert(nv[i] == vb[i]);
                        }
                    }
                    assert forall|m: int| 0 <= m < k + 1 && (if forward { #[trigger] edges@[m].source@ == x@ } else { edges@[m].target@ == x@ }) implies exists|j: int|
                        0 <= j < nv.len() && #[trigger] nv[j].path@ == (if forward { edges@[m].target@ } else { edges@[m].source@ }) && nv[j].depth <= d + 1 by {
                        if m == k {
                            assert(nv[n].path@ == y@);
                        } else {
                            let j = choose|j: int| 0 <= j < vb.len() && #[trigger] vb[j].path@ == (if forward { edges@[m].target@ } else { edges@[m].source@ }) && vb[j].depth <= d + 1;
                            assert(nv[j] == vb[j]);
                        }
                    }
                }
                proof {
                    let nv = v@;
                    assert(nv =~= vb.push(nv[vb.len() as int]));
                    lemma_expand_push(edges@, v0, vb, nv[vb.len() as int], head as int, k as int, forward);
                }
            } else {
                proof {
                    let j = choose|j: int| 0 <= j < paths(v@).len() && paths(v@)[j] == y@;
                    assert(v@[j].path@ == y@);
                    if j < v0.len() {
                        assert(v@[j] == v0[j]);
                        assert(v0[j].depth <= v0[head as int].depth + 1);
                    }
                }
            }
        }
        k += 1;
    }
}

/// The breadth-first walk: entry points at depth 0, then files one import away (either
/// direction) from each file in turn, until a file at `max_depth` is reached or the walk
/// holds `max_results` files; the list is then cut to `max_results`.
#[verifier::spinoff_prover]
pub fn walk_graph(entry_points: &Vec<String>, edges: &Vec<GraphEdge>, max_depth: usize, max_results: usize) -> (r: Vec<WalkEntry>)
    ensures
        r@.len() <= max_results,
        walk_sound(edges@, crate::text::string_views(entry_points@), r@, max_depth as nat),
        reasons_first(edges@, r@),
        r@.len() < max_results ==> forall|k: nat| k <= max_depth ==> #[trigger] ball_covered(edges@, crate::text::string_views(entry_points@), r@, k),
        r@.len() > 0 ==> forall|k: nat| k < r@.last().depth ==> #[trigger] ball_covered(edges@, crate::text::string_views(entry_points@), r@, k),
{
    let ghost entries = crate::text::string_views(entry_points@);
    let mut v: Vec<WalkEntry> = Vec::new();
    let mut e: usize = 0;
    proof {
        reveal(walk_core);
        reveal(walk_sound);
    }
    while e < entry_points.len()
        invariant
            e <= entry_points.len(),
            entries == crate::text::string_views(entry_points@),
            walk_core(edges@, entries, v@, 0, max_depth as nat),
            forall|j: int| 0 <= j < v@.len() ==> #[trigger] v@[j].depth == 0,
            forall|x: Seq<char>| #[trigger] entries.take(e as int).contains(x) ==> exists|j: int| 0 <= j < v@.len() && #[trigger] v@[j].path@ == x && v@[j].depth == 0,
            forall|j: int| 0 <= j < v@.len() ==> entries.contains(#[trigger] v@[j].path@),
        decreases entry_points.len() - e,
    {
        let p = &entry_points[e];
        assert(entries[e as int] == p@);
        proof {
            reveal(walk_core);
            reveal(walk_sound);
        }
        let ghost v_before = v@;
        if !contains_path(&v, p) {
            let ghost vb = v@;
            v.push(WalkEntry { path: p.clone(), depth: 0, reason: Reason::Entry });
            proof {
                let nv = v@;
                assert forall|j: int| 0 <= j < vb.len() implies #[trigger] nv[j] == vb[j] by {}
                assert forall|i: int, j: int| 0 <= i < j < nv.len() implies #[trigger] nv[i].path@ != #[trigger] nv[j].path@ by {
                    assert(nv[i] == vb[i]);
                    if j == vb.len() {
                        assert(paths(vb)[i] == vb[i].path@);
                    } else {
                        assert(nv[j] == vb[j]);
                    }
                }
                assert(universe(edges@, entries)[e as int] == p@);
                assert(entries.contains(p@));
                assert(v@[vb.len() as int].path@ == p@);
                lemma_entries_in_universe(edges@, entries);
                assert(universe(edges@, entries).contains(p@));
                lemma_push_in_universe(universe(edges@, entries), vb, nv[vb.len() as int]);
                assert(nv =~= vb.push(nv[vb.len() as int]));
                assert(walk_sound(edges@, entries, nv, max_depth as nat));
                assert(walk_core(edges@, entries, nv, 0, max_depth as nat));
            }
        } else {
            proof {
                let j = choose|j: int| 0 <= j < paths(v@).len() && paths(v@)[j] == p@;
                assert(v@[j].path@ == p@);
            }
        }
        assert(exists|j: int| 0 <= j < v@.len() && #[trigger] v@[j].path@ == p@ && v@[j].depth == 0);
        assert(v@.len() >= v_before.len());
        assert(forall|j: int| 0 <= j < v_before.len() ==> #[trigger] v@[j] == v_before[j]);
        proof {
            assert forall|x: Seq<char>| #[trigger] entries.take(e + 1).contains(x) implies exists|j: int| 0 <= j < v@.len() && #[trigger] v@[j].path@ == x && v@[j].depth == 0 by {
                let m = choose|m: int| 0 <= m < e + 1 && #[trigger] entries.take(e + 1)[m] == x;
                if m < e {
                    assert(entries.take(e as int)[m] == x);
                    assert(entries.take(e as int).contains(x));
                    let j = choose|j: int| 0 <= j < v_before.len() && #[trigger] v_before[j].path@ == x && v_before[j].depth == 0;
                    assert(v@[j] == v_before[j]);
                }
            }
            assert forall|x: Seq<char>| #[trigger] entries.contains(x) && e + 1 == entry_points.len() implies entries.take(e + 1).contains(x) by {
                assert(entries.take(e + 1) =~= entries);
            }
        }
        e += 1;
    }
    proof {
        assert(entries.take(entry_points.len() as int) =~= entries);
        reveal(walk_core);
        reveal(walk_sound);
    }
    proof {
        assert(reasons_first(edges@, v@)) by {
            reveal(reasons_first);
        }
    }
    let mut head: usize = 0;
    loop
        invariant
            entries == crate::text::string_views(entry_points@),
            walk_state(edges@, entries, v@, head as int, max_depth as nat),
            reasons_first(edges@, v@),
        ensures
            walk_state(edges@, entries, v@, head as int, max_depth as nat),
            reasons_first(edges@, v@),
            v@.len() >= max_results || forall|j: int| head <= j < v@.len() ==> #[trigger] v@[j].depth >= max_depth,
        decreases entries.len() + 2 * edges@.len() - head,
    {
        proof {
            lemma_core_facts(edges@, entries, v@, head as int, max_depth as nat);
        }
        if head >= v.len() {
            break;
        }
        if v[head].depth >= max_depth || v.len() >= max_results {
            break;
        }
        let ghost v0 = v@;
        proof {
            lemma_neighbours_from_core(edges@, entries, v0, head as int, max_depth as nat);
        }
        expand(&mut v, edges, Ghost(entries), head, max_depth, true);
        let ghost v1 = v@;
        proof {
            lemma_after_forward(edges@, entries, v0, v1, head as int, max_depth as nat);
            lemma_forward_present(edges@, v0, v1, head as int);
        }
        expand(&mut v, edges, Ghost(entries), head, max_depth, false);
        proof {
            lemma_after_backward(edges@, entries, v0, v1, v@, head as int, max_depth as nat);
        }
        head += 1;
    }
    let limit = if v.len() < max_results {
        v.len()
    } else {
        max_results
    };
    let ghost vf = v@;
    v.truncate(limit);
    proof {
        lemma_reasons_prefix(edges@, vf, limit as int);
        reveal(walk_core);
        reveal(walk_sound);
        let r = v@;
        assert(r =~= vf.take(limit as int));
        assert forall|j: int| 0 <= j < r.len() && #[trigger] r[j].depth > 0 implies exists|i: int|
            0 <= i < j && r[i].depth + 1 == r[j].depth && #[trigger] linked(edges@, r[i].path@, r[j]) by {
            assert(r[j] == vf[j]);
            let i = choose|i: int| 0 <= i < j && vf[i].depth + 1 == vf[j].depth && #[trigger] linked(edges@, vf[i].path@, vf[j]);
            assert(r[i] == vf[i]);
        }
        if r.len() < max_results {
            assert(r =~= vf);
            assert forall|k: nat| k <= max_depth implies #[trigger] ball_covered(edges@, entries, r, k) by {
                assert forall|j: int| head <= j < vf.len() implies #[trigger] vf[j].depth >= k by {}
                lemma_covered(edges@, entries, vf, head as int, max_depth as nat, k);
            }
        }
        if r.len() > 0 {
            lemma_truncated_covered(edges@, entries, vf, head as int, max_depth as nat, limit as int);
        }
    }
    v
}

/// Cutting a finished walk after `n` files keeps every file closer to the entry points
/// than the last file kept.
proof fn lemma_truncated_covered(edges: Seq<GraphEdge>, entries: Seq<Seq<char>>, v: Seq<WalkEntry>, head: int, max_depth: nat, n: int)
    requires
        walk_state(edges, entries, v, head, max_depth),
        0 < n <= v.len(),
    ensures
        forall|k: nat| k < v.take(n).last().depth ==> #[trigger] ball_covered(edges, entries, v.take(n), k),
{
    lemma_core_facts(edges, entries, v, head, max_depth);
    reveal(walk_sound);
    let r = v.take(n);
    assert(r.last() == v[n - 1]);
    assert forall|k: nat| k < r.last().depth implies #[trigger] ball_covered(edges, entries, r, k) by {
        assert forall|j: int| head <= j < v.len() implies #[trigger] v[j].depth >= k by {
            if head < v.len() {
                assert(v[n - 1].depth <= v[head].depth + 1);
                if head < j {
                    assert(v[head].depth <= v[j].depth);
                }
            }
        }
        lemma_covered(edges, entries, v, head, max_depth, k);
        assert forall|x: Seq<char>| #[trigger] in_ball(edges, entries, x, k) implies exists|j: int|
            0 <= j < r.len() && #[trigger] r[j].path@ == x && r[j].depth <= k by {
            let j = choose|j: int| 0 <= j < v.len() && #[trigger] v[j].path@ == x && v[j].depth <= k;
            if j >= n {
                assert(v[n - 1].depth <= v[j].depth);
            }
            assert(r[j] == v[j]);
        }
    }
}

proof fn lemma_core_facts(edges: Seq<GraphEdge>, entries: Seq<Seq<char>>, v: Seq<WalkEntry>, head: int, max_depth: nat)
    requires
        walk_core(edges, entries, v, head, max_depth),
    ensures
        walk_sound(edges, entries, v, max_depth),
        0 <= head <= v.len(),
        v.len() <= entries.len() + 2 * edges.len(),
        forall|i: int, j: int| head <= i < v.len() && 0 <= j < v.len() ==> #[trigger] v[j].depth <= #[trigger] v[i].depth + 1,
        forall|i: int, j: int| 0 <= i < j < v.len() ==> #[trigger] v[i].depth <= #[trigger] v[j].depth,
        forall|j: int| 0 <= j < v.len() ==> universe(edges, entries).contains(#[trigger] v[j].path@),
{
    reveal(walk_core);
    reveal(walk_sound);
    lemma_len_bound(edges, entries, v, max_depth);
}

proof fn lemma_after_forward(edges: Seq<GraphEdge>, entries: Seq<Seq<char>>, v0: Seq<WalkEntry>, v1: Seq<WalkEntry>, head: int, max_depth: nat)
    requires
        forall|i: int, j: int| head <= i < v0.len() && 0 <= j < v0.len() ==> #[trigger] v0[j].depth <= #[trigger] v0[i].depth + 1,
        forall|i: int, j: int| 0 <= i < j < v0.len() ==> #[trigger] v0[i].depth <= #[trigger] v0[j].depth,
        0 <= head < v0.len(),
        v1.len() >= v0.len(),
        v1.take(v0.len() as int) == v0,
        forall|j: int| v0.len() <= j < v1.len() ==> #[trigger] v1[j].depth == v0[head].depth + 1,
    ensures
        forall|j: int| 0 <= j < v0.len() ==> #[trigger] v1[j] == v0[j],
        forall|i: int, j: int| head <= i < v1.len() && 0 <= j < v1.len() ==> #[trigger] v1[j].depth <= #[trigger] v1[i].depth + 1,
{
    assert forall|j: int| 0 <= j < v0.len() implies #[trigger] v1[j] == v0[j] by {
        assert(v1.take(v0.len() as int)[j] == v1[j]);
    }
    assert forall|i: int, j: int| head <= i < v1.len() && 0 <= j < v1.len() implies #[trigger] v1[j].depth <= #[trigger] v1[i].depth + 1 by {
        if j < v0.len() && i < v0.len() {
        } else if j < v0.len() {
            assert(v0[j].depth <= v0[head].depth + 1);
        } else if i < v0.len() {
            assert(v0[head].depth <= v0[i].depth);
        }
    }
}

#[verifier::rlimit(80)]
proof fn lemma_after_backward(edges: Seq<GraphEdge>, entries: Seq<Seq<char>>, v0: Seq<WalkEntry>, v1: Seq<WalkEntry>, v2: Seq<WalkEntry>, head: int, max_depth: nat)
    requires
        walk_state(edges, entries, v0, head, max_depth),
        head < v0.len(),
        v0[head].depth < max_depth,
        forall|j: int| 0 <= j < v0.len() ==> #[trigger] v1[j] == v0[j],
        v1.len() >= v0.len(),
        forall|j: int| v0.len() <= j < v1.len() ==> #[trigger] v1[j].depth == v0[head].depth + 1,
        forall|k: int| 0 <= k < edges.len() && #[trigger] edges[k].source@ == v0[head].path@ ==> exists|j: int|
            0 <= j < v1.len() && #[trigger] v1[j].path@ == edges[k].target@ && v1[j].depth <= v0[head].depth + 1,
        walk_sound(edges, entries, v2, max_depth),
        v2.len() >= v1.len(),
        v2.take(v1.len() as int) == v1,
        forall|j: int| v1.len() <= j < v2.len() ==> #[trigger] v2[j].depth == v1[head].depth + 1,
        forall|j: int| 0 <= j < v2.len() ==> universe(edges, entries).contains(#[trigger] v2[j].path@),
        forall|k: int| 0 <= k < edges.len() && #[trigger] edges[k].target@ == v1[head].path@ ==> exists|j: int|
            0 <= j < v2.len() && #[trigger] v2[j].path@ == edges[k].source@ && v2[j].depth <= v1[head].depth + 1,
    ensures
        walk_state(edges, entries, v2, head + 1, max_depth),
{
    lemma_core_facts(edges, entries, v0, head, max_depth);
    assert(forall|i: int| 0 <= i < head ==> #[trigger] v0[i].depth < max_depth) by {
        reveal(walk_core);
    }
    assert(forall|i: int, k: int| 0 <= i < head && 0 <= k < edges.len() && #[trigger] edges[k].source@ == #[trigger] v0[i].path@ ==> exists|j: int|
        0 <= j < v0.len() && #[trigger] v0[j].path@ == edges[k].target@ && v0[j].depth <= v0[i].depth + 1) by {
        reveal(walk_core);
    }
    assert(forall|i: int, k: int| 0 <= i < head && 0 <= k < edges.len() && #[trigger] edges[k].target@ == #[trigger] v0[i].path@ ==> exists|j: int|
        0 <= j < v0.len() && #[trigger] v0[j].path@ == edges[k].source@ && v0[j].depth <= v0[i].depth + 1) by {
        reveal(walk_core);
    }
    assert forall|j: int| 0 <= j < v1.len() implies #[trigger] v2[j] == v1[j] by {
        assert(v2.take(v1.len() as int)[j] == v2[j]);
    }
    assert forall|j: int| 0 <= j < v0.len() implies #[trigger] v2[j] == v0[j] by {
        assert(v2[j] == v1[j]);
    }
    assert(forall|i: int, j: int| 0 <= i < j < v2.len() ==> #[trigger] v2[i].depth <= #[trigger] v2[j].depth) by {
        reveal(walk_sound);
    }
    assert forall|i: int, j: int| head + 1 <= i < v2.len() && 0 <= j < v2.len() implies #[trigger] v2[j].depth <= #[trigger] v2[i].depth + 1 by {
        if i < v0.len() {
            assert(v2[head].depth <= v2[i].depth);
            if j < v0.len() {
                assert(v0[j].depth <= v0[head].depth + 1);
            } else if j < v1.len() {
                assert(v2[j] == v1[j]);
            }
        } else {
            if j < v0.len() {
                assert(v0[j].depth <= v0[head].depth + 1);
            } else if j < v1.len() {
                assert(v2[j] == v1[j]);
            }
            if i < v1.len() {
                assert(v2[i] == v1[i]);
            }
        }
    }
    assert forall|i: int, k: int| 0 <= i < head + 1 && 0 <= k < edges.len() && #[trigger] edges[k].source@ == #[trigger] v2[i].path@ implies exists|j: int|
        0 <= j < v2.len() && #[trigger] v2[j].path@ == edges[k].target@ && v2[j].depth <= v2[i].depth + 1 by {
        assert(v2[i] == v0[i]);
        if i < head {
            let j = choose|j: int| 0 <= j < v0.len() && #[trigger] v0[j].path@ == edges[k].target@ && v0[j].depth <= v0[i].depth + 1;
            assert(v2[j] == v0[j]);
        } else {
            let j = choose|j: int| 0 <= j < v1.len() && #[trigger] v1[j].path@ == edges[k].target@ && v1[j].depth <= v0[head].depth + 1;
            assert(v2[j] == v1[j]);
        }
    }
    assert forall|i: int, k: int| 0 <= i < head + 1 && 0 <= k < edges.len() && #[trigger] edges[k].target@ == #[trigger] v2[i].path@ implies exists|j: int|
        0 <= j < v2.len() && #[trigger] v2[j].path@ == edges[k].source@ && v2[j].depth <= v2[i].depth + 1 by {
        assert(v2[i] == v0[i]);
        if i < head {
            let j = choose|j: int| 0 <= j < v0.len() && #[trigger] v0[j].path@ == edges[k].source@ && v0[j].depth <= v0[i].depth + 1;
            assert(v2[j] == v0[j]);
        } else {
            assert(v1[head] == v0[head]);
        }
    }
    assert forall|x: Seq<char>| #[trigger] entries.contains(x) implies exists|j: int| 0 <= j < v2.len() && #[trigger] v2[j].path@ == x && v2[j].depth == 0 by {
        let j = choose|j: int| 0 <= j < v0.len() && #[trigger] v0[j].path@ == x && v0[j].depth == 0;
        assert(v2[j] == v0[j]);
    }
    assert forall|i: int| 0 <= i < head + 1 implies #[trigger] v2[i].depth < max_depth by {
        assert(v2[i] == v0[i]);
    }
    assert(walk_core(edges, entries, v2, head + 1, max_depth)) by {
        reveal(walk_core);
    }
}

proof fn lemma_covered(edges: Seq<GraphEdge>, entries: Seq<Seq<char>>, v: Seq<WalkEntry>, head: int, max_depth: nat, k: nat)
    requires
        walk_state(edges, entries, v, head, max_depth),
        forall|j: int| head <= j < v.len() ==> #[trigger] v[j].depth >= k,
    ensures
        ball_covered(edges, entries, v, k),
    decreases k,
{
    reveal(walk_core);
    if k > 0 {
        assert forall|j: int| head <= j < v.len() implies #[trigger] v[j].depth >= (k - 1) as nat by {}
        lemma_covered(edges, entries, v, head, max_depth, (k - 1) as nat);
        assert forall|x: Seq<char>| #[trigger] in_ball(edges, entries, x, k) implies exists|j: int|
            0 <= j < v.len() && #[trigger] v[j].path@ == x && v[j].depth <= k by {
            if in_ball(edges, entries, x, (k - 1) as nat) {
                let j = choose|j: int| 0 <= j < v.len() && #[trigger] v[j].path@ == x && v[j].depth <= (k - 1) as nat;
            } else {
                let i = choose|i: int| 0 <= i < edges.len() && ((#[trigger] edges[i].target@ == x && in_ball(edges, entries, edges[i].source@, (k - 1) as nat)) || (edges[i].source@ == x && in_ball(edges, entries, edges[i].target@, (k - 1) as nat)));
                if edges[i].target@ == x && in_ball(edges, entries, edges[i].source@, (k - 1) as nat) {
                    let j = choose|j: int| 0 <= j < v.len() && #[trigger] v[j].path@ == edges[i].source@ && v[j].depth <= (k - 1) as nat;
                    assert(j < head);
                    let j2 = choose|j2: int| 0 <= j2 < v.len() && #[trigger] v[j2].path@ == edges[i].target@ && v[j2].depth <= v[j].depth + 1;
                } else {
                    let j = choose|j: int| 0 <= j < v.len() && #[trigger] v[j].path@ == edges[i].target@ && v[j].depth <= (k - 1) as nat;
                    assert(j < head);
                    let j2 = choose|j2: int| 0 <= j2 < v.len() && #[trigger] v[j2].path@ == edges[i].source@ && v[j2].depth <= v[j].depth + 1;
                }
            }
        }
    } else {
        assert forall|x: Seq<char>| #[trigger] in_ball(edges, entries, x, k) implies exists|j: int|
            0 <= j < v.len() && #[trigger] v[j].path@ == x && v[j].depth <= k by {
            assert(entries.contains(x));
        }
    }
}


/// A file the walk reports is within its depth of the entry points.
proof fn lemma_walk_in_ball(edges: Seq<GraphEdge>, entries: Seq<Seq<char>>, v: Seq<WalkEntry>, max_depth: nat, j: int)
    requires
        walk_sound(edges, entries, v, max_depth),
        0 <= j < v.len(),
    ensures
        in_ball(edges, entries, v[j].path@, v[j].depth as nat),
    decreases j,
{
    reveal(walk_sound);
    if v[j].depth == 0 {
        assert(v[j].reason == Reason::Entry);
    } else {
        let i = choose|i: int| 0 <= i < j && v[i].depth + 1 == v[j].depth && #[trigger] linked(edges, v[i].path@, v[j]);
        lemma_walk_in_ball(edges, entries, v, max_depth, i);
        let k = v[j].depth as nat;
        assert(v[i].depth as nat == (k - 1) as nat);
        if v[j].reason == Reason::Dependency {
            let e = choose|e: int| 0 <= e < edges.len() && #[trigger] edges[e].source@ == v[i].path@ && edges[e].target@ == v[j].path@;
            assert(edges[e].target@ == v[j].path@ && in_ball(edges, entries, edges[e].source@, (k - 1) as nat));
        } else {
            assert(v[j].reason == Reason::Dependent);
            let e = choose|e: int| 0 <= e < edges.len() && #[trigger] edges[e].source@ == v[j].path@ && edges[e].target@ == v[i].path@;
            assert(edges[e].source@ == v[j].path@ && in_ball(edges, entries, edges[e].target@, (k - 1) as nat));
        }
    }
}

/// A walk that was not cut reports every file at exactly its distance from the entry
/// points: within that many hops, and not within fewer.
pub proof fn law_walk_depth_is_distance(edges: Seq<GraphEdge>, entries: Seq<Seq<char>>, v: Seq<WalkEntry>, max_depth: nat)
    requires
        walk_sound(edges, entries, v, max_depth),
        forall|k: nat| k <= max_depth ==> #[trigger] ball_covered(edges, entries, v, k),
    ensures
        forall|j: int| 0 <= j < v.len() ==> in_ball(edges, entries, #[trigger] v[j].path@, v[j].depth as nat),
        forall|j: int, k: nat| 0 <= j < v.len() && k < v[j].depth ==> !#[trigger] in_ball(edges, entries, v[j].path@, k),
{
    assert forall|j: int| 0 <= j < v.len() implies in_ball(edges, entries, #[trigger] v[j].path@, v[j].depth as nat) by {
        lemma_walk_in_ball(edges, entries, v, max_depth, j);
    }
    assert forall|j: int, k: nat| 0 <= j < v.len() && k < v[j].depth implies !#[trigger] in_ball(edges, entries, v[j].path@, k) by {
        reveal(walk_sound);
        if in_ball(edges, entries, v[j].path@, k) {
            assert(v[j].depth <= max_depth);
            assert(ball_covered(edges, entries, v, k));
            let j2 = choose|j2: int| 0 <= j2 < v.len() && #[trigger] v[j2].path@ == v[j].path@ && v[j2].depth <= k;
            if j2 < j {
                assert(v[j2].path@ != v[j].path@);
            } else if j < j2 {
                assert(v[j].path@ != v[j2].path@);
            }
        }
    }
}

/// Reads an optional limit as the walk does: a given value is converted to `usize`,
/// an absent one takes the default.
pub open spec fn limit_or(o: Option<i64>, default: usize) -> usize {
    match o {
        Some(d) => d as usize,
        None => default,
    }
}

/// Walks the import graph outward from `entry_points`, following imports in both
/// directions, up to `max_depth` hops (default 2) and `max_results` files (default 20).
/// A file is a dependency when the file it was reached from imports it (imports are
/// followed before importers), else a dependent.
pub fn walk_import_graph(entry_points: &Vec<String>, edges: &Vec<GraphEdge>, max_depth: Option<i64>, max_results: Option<i64>) -> (r: Vec<WalkEntry>)
    ensures
        entry_points@.len() == 0 ==> r@.len() == 0,
        r@.len() <= limit_or(max_results, 20),
        walk_sound(edges@, crate::text::string_views(entry_points@), r@, limit_or(max_depth, 2) as nat),
        reasons_first(edges@, r@),
        r@.len() < limit_or(max_results, 20) ==> forall|k: nat| k <= limit_or(max_depth, 2) ==> #[trigger] ball_covered(edges@, crate::text::string_views(entry_points@), r@, k),
        r@.len() > 0 ==> forall|k: nat| k < r@.last().depth ==> #[trigger] ball_covered(edges@, crate::text::string_views(entry_points@), r@, k),
{
    if entry_points.len() == 0 {
        let r: Vec<WalkEntry> = Vec::new();
        proof {
            assert(walk_sound(edges@, crate::text::string_views(entry_points@), r@, limit_or(max_depth, 2) as nat)) by {
                reveal(walk_sound);
            }
            assert(reasons_first(edges@, r@)) by {
                reveal(reasons_first);
            }
            assert forall|k: nat| k <= limit_or(max_depth, 2) implies #[trigger] ball_covered(edges@, crate::text::string_views(entry_points@), r@, k) by {
                lemma_empty_ball(edges@, crate::text::string_views(entry_points@), k);
            }
        }
        return r;
    }
    let md: usize = match max_depth {
        Some(d) => d as usize,
        None => crate::constants::DEFAULT_MAX_DEPTH as usize,
    };
    let mr: usize = match max_results {
        Some(d) => d as usize,
        None => crate::constants::DEFAULT_MAX_RESULTS as usize,
    };
    walk_graph(entry_points, edges, md, mr)
}

proof fn lemma_empty_ball(edges: Seq<GraphEdge>, entries: Seq<Seq<char>>, k: nat)
    requires
        entries.len() == 0,
    ensures
        forall|x: Seq<char>| !#[trigger] in_ball(edges, entries, x, k),
    decreases k,
{
    if k > 0 {
        lemma_empty_ball(edges, entries, (k - 1) as nat);
        assert forall|x: Seq<char>| !#[trigger] in_ball(edges, entries, x, k) by {
            assert(!in_ball(edges, entries, x, (k - 1) as nat));
            assert forall|i: int| 0 <= i < edges.len() implies !in_ball(edges, entries, #[trigger] edges[i].source@, (k - 1) as nat)
                && !in_ball(edges, entries, edges[i].target@, (k - 1) as nat) by {}
        }
    } else {
        assert forall|x: Seq<char>| !#[trigger] in_ball(edges, entries, x, k) by {
            assert(!entries.contains(x));
        }
    }
}

/// The import targets of `x`, in edge order.
pub open spec fn targets_of(edges: Seq<GraphEdge>, x: Seq<char>) -> Seq<Seq<char>>
    decreases edges.len(),
{
    if edges.len() == 0 {
        seq![]
    } else {
        targets_of(edges.drop_last(), x) + if edges.last().source@ == x {
            seq![edges.last().target@]
        } else {
            seq![]
        }
    }
}

proof fn lemma_targets_are_edges(edges: Seq<GraphEdge>, x: Seq<char>)
    ensures
        forall|i: int| 0 <= i < targets_of(edges, x).len() ==> has_edge(edges, x, #[trigger] targets_of(edges, x)[i]),
    decreases edges.len(),
{
    if edges.len() > 0 {
        let d = edges.drop_last();
        lemma_targets_are_edges(d, x);
        assert forall|i: int| 0 <= i < targets_of(edges, x).len() implies has_edge(edges, x, #[trigger] targets_of(edges, x)[i]) by {
            if i < targets_of(d, x).len() {
                assert(targets_of(edges, x)[i] == targets_of(d, x)[i]);
                let k = choose|k: int| 0 <= k < d.len() && #[trigger] d[k].source@ == x && d[k].target@ == targets_of(d, x)[i];
                assert(edges[k] == d[k]);
            } else {
                assert(edges[edges.len() - 1].source@ == x);
            }
        }
    }
}

/// The files `x` imports, in edge order.
fn targets_from(edges: &Vec<GraphEdge>, x: &String) -> (r: Vec<String>)
    ensures
        crate::text::string_views(r@) == targets_of(edges@, x@),
{
    let mut r: Vec<String> = Vec::new();
    let mut k: usize = 0;
    while k < edges.len()
        invariant
            k <= edges.len(),
            crate::text::string_views(r@) == targets_of(edges@.take(k as int), x@),
        decreases edges.len() - k,
    {
        let ghost before = crate::text::string_views(r@);
        assert(edges@.take(k + 1).drop_last() =~= edges@.take(k as int));
        if edges[k].source == *x {
            r.push(edges[k].target.clone());
            assert(crate::text::string_views(r@) =~= before + seq![edges@[k as int].target@]);
        } else {
            assert(before =~= before + Seq::<Seq<char>>::empty());
        }
        k += 1;
    }
    assert(edges@.take(edges.len() as int) =~= edges@);
    r
}

/// Index of the first smallest element of `p[..n]`, in lexicographic order.
pub open spec fn min_index(p: Seq<Seq<char>>, n: int) -> int
    decreases n,
{
    if n <= 1 {
        0
    } else {
        let m = min_index(p, n - 1);
        if crate::order::lex_lt(p[n - 1], p[m]) {
            n - 1
        } else {
            m
        }
    }
}

proof fn lemma_min_index(p: Seq<Seq<char>>, n: int)
    requires
        1 <= n <= p.len(),
    ensures
        0 <= min_index(p, n) < n,
        forall|i: int| 0 <= i < n ==> !crate::order::lex_lt(#[trigger] p[i], p[min_index(p, n)]),
    decreases n,
{
    if n > 1 {
        lemma_min_index(p, n - 1);
        let m = min_index(p, n - 1);
        if crate::order::lex_lt(p[n - 1], p[m]) {
            assert forall|i: int| 0 <= i < n implies !crate::order::lex_lt(#[trigger] p[i], p[n - 1]) by {
                if i < n - 1 {
                    if crate::order::lex_lt(p[i], p[n - 1]) {
                        crate::order::lemma_lex_transitive(p[i], p[n - 1], p[m]);
                    }
                } else {
                    crate::order::lemma_lex_irreflexive(p[i]);
                }
            }
        } else {
            assert forall|i: int| 0 <= i < n implies !crate::order::lex_lt(#[trigger] p[i], p[m]) by {
            }
        }
    } else {
        crate::order::lemma_lex_irreflexive(p[0]);
    }
}

/// A cycle as it is reported: the path rotated to start at its first smallest file,
/// and closed by repeating that file.
pub open spec fn normalized_cycle(p: Seq<Seq<char>>) -> Seq<Seq<char>> {
    let m = min_index(p, p.len() as int);
    (p.skip(m) + p.take(m)).push(p[m])
}

proof fn lemma_min_index_unique(s: Seq<Seq<char>>, n: int, j: int)
    requires
        1 <= n <= s.len(),
        0 <= j < n,
        forall|i: int| 0 <= i < n && i != j ==> crate::order::lex_lt(s[j], #[trigger] s[i]),
    ensures
        min_index(s, n) == j,
{
    lemma_min_index(s, n);
    let mi = min_index(s, n);
    if mi != j {
        assert(crate::order::lex_lt(s[j], s[mi]));
        assert(!crate::order::lex_lt(s[j], s[mi]));
    }
}

/// A cycle is reported the same way wherever the search entered it: every rotation of a
/// path of distinct files normalises to the same closed cycle.
pub proof fn law_cycle_rotation(p: Seq<Seq<char>>, k: int)
    requires
        p.len() >= 1,
        0 <= k < p.len(),
        forall|i: int, j: int| 0 <= i < j < p.len() ==> #[trigger] p[i] != #[trigger] p[j],
    ensures
        normalized_cycle(p.skip(k) + p.take(k)) == normalized_cycle(p),
{
    let n = p.len() as int;
    lemma_min_index(p, n);
    let m = min_index(p, n);
    assert forall|i: int| 0 <= i < n && i != m implies crate::order::lex_lt(p[m], #[trigger] p[i]) by {
        crate::order::lemma_lex_total(p[m], p[i]);
        if i < m {
            assert(p[i] != p[m]);
        } else {
            assert(p[m] != p[i]);
        }
    }
    let q = p.skip(k) + p.take(k);
    assert forall|i: int| 0 <= i < n implies #[trigger] q[i] == p[if i < n - k { i + k } else { i - (n - k) }] by {}
    let mq = if m >= k { m - k } else { m + n - k };
    assert(q[mq] == p[m]);
    assert forall|i: int| 0 <= i < n && i != mq implies crate::order::lex_lt(q[mq], #[trigger] q[i]) by {
        let pi = if i < n - k { i + k } else { i - (n - k) };
        assert(q[i] == p[pi]);
        assert(pi != m);
    }
    lemma_min_index_unique(q, n, mq);
    let rp = p.skip(m) + p.take(m);
    let rq = q.skip(mq) + q.take(mq);
    assert forall|i: int| 0 <= i < n implies #[trigger] rq[i] == rp[i] by {
        let qi = if i < n - mq { i + mq } else { i - (n - mq) };
        assert(rq[i] == q[qi]);
        let pi = if i < n - m { i + m } else { i - (n - m) };
        assert(rp[i] == p[pi]);
        let qpi = if qi < n - k { qi + k } else { qi - (n - k) };
        assert(q[qi] == p[qpi]);
        assert(qpi == pi);
    }
    assert(rq =~= rp);
}

/// No file named by an import row contains `|`.
pub open spec fn bar_free(edges: Seq<GraphEdge>) -> bool {
    forall|k: int| 0 <= k < edges.len() ==> !(#[trigger] edges[k]).source@.contains('|') && !edges[k].target@.contains('|')
}

/// Pieces free of the separator are given back by the text that joins them.
proof fn lemma_join_injective(a: Seq<Seq<char>>, b: Seq<Seq<char>>, sep: char)
    requires
        a.len() >= 1,
        b.len() >= 1,
        forall|i: int| 0 <= i < a.len() ==> !(#[trigger] a[i]).contains(sep),
        forall|i: int| 0 <= i < b.len() ==> !(#[trigger] b[i]).contains(sep),
        crate::text::join_with(a, sep) == crate::text::join_with(b, sep),
    ensures
        a == b,
    decreases a.len() + b.len(),
{
    let x = crate::text::join_with(a, sep);
    if a.len() == 1 && b.len() == 1 {
        assert(a =~= b);
    } else if a.len() == 1 {
        let jb = crate::text::join_with(b.drop_last(), sep);
        assert(x[jb.len() as int] == sep);
        assert(a[0].contains(sep));
    } else if b.len() == 1 {
        let ja = crate::text::join_with(a.drop_last(), sep);
        assert(x[ja.len() as int] == sep);
        assert(b[0].contains(sep));
    } else {
        let ja = crate::text::join_with(a.drop_last(), sep);
        let jb = crate::text::join_with(b.drop_last(), sep);
        let la = a.last();
        let lb = b.last();
        assert(x == ja + seq![sep] + la);
        assert(x == jb + seq![sep] + lb);
        if la.len() < lb.len() {
            let t = lb.len() - 1 - la.len();
            assert(x[ja.len() as int] == sep);
            assert(x[jb.len() + 1 + t] == lb[t]);
            assert(lb.contains(sep));
            assert(!b[b.len() - 1].contains(sep));
        } else if lb.len() < la.len() {
            let t = la.len() - 1 - lb.len();
            assert(x[jb.len() as int] == sep);
            assert(x[ja.len() + 1 + t] == la[t]);
            assert(la.contains(sep));
            assert(!a[a.len() - 1].contains(sep));
        }
        assert(ja.len() == jb.len());
        assert(la =~= x.skip(ja.len() + 1int));
        assert(lb =~= x.skip(jb.len() + 1int));
        assert(ja =~= x.take(ja.len() as int));
        assert(jb =~= x.take(jb.len() as int));
        assert forall|i: int| 0 <= i < a.drop_last().len() implies !(#[trigger] a.drop_last()[i]).contains(sep) by {
            assert(a.drop_last()[i] == a[i]);
        }
        assert forall|i: int| 0 <= i < b.drop_last().len() implies !(#[trigger] b.drop_last()[i]).contains(sep) by {
            assert(b.drop_last()[i] == b[i]);
        }
        lemma_join_injective(a.drop_last(), b.drop_last(), sep);
        assert(a =~= a.drop_last().push(la));
        assert(b =~= b.drop_last().push(lb));
    }
}

/// The files of a cycle over import rows free of `|` are free of `|`.
proof fn lemma_cycle_parts_free(edges: Seq<GraphEdge>, c: Seq<Seq<char>>)
    requires
        is_cycle(edges, c),
        bar_free(edges),
    ensures
        forall|i: int| 0 <= i < c.drop_last().len() ==> !(#[trigger] c.drop_last()[i]).contains('|'),
{
    assert forall|i: int| 0 <= i < c.drop_last().len() implies !(#[trigger] c.drop_last()[i]).contains('|') by {
        assert(c.drop_last()[i] == c[i]);
        assert(has_edge(edges, c[i], c[i + 1]));
        let k = choose|k: int| 0 <= k < edges.len() && #[trigger] edges[k].source@ == c[i] && edges[k].target@ == c[i + 1];
        assert(!edges[k].source@.contains('|'));
    }
}

/// Two cycles over import rows free of `|` that share a key are the same cycle.
proof fn lemma_same_key_same_cycle(edges: Seq<GraphEdge>, c: Seq<Seq<char>>, d: Seq<Seq<char>>)
    requires
        is_cycle(edges, c),
        is_cycle(edges, d),
        bar_free(edges),
        cycle_key(c) == cycle_key(d),
    ensures
        c == d,
{
    lemma_cycle_parts_free(edges, c);
    lemma_cycle_parts_free(edges, d);
    lemma_join_injective(c.drop_last(), d.drop_last(), '|');
    assert(c =~= c.drop_last().push(c.drop_last()[0]));
    assert(d =~= d.drop_last().push(d.drop_last()[0]));
}

/// The text a cycle is deduplicated by: its files (without the closing repeat) joined by `|`.
pub open spec fn cycle_key(c: Seq<Seq<char>>) -> Seq<char> {
    crate::text::join_with(c.drop_last(), '|')
}

/// A closed walk along import edges: at least two entries, first equal to last, and an
/// import from each entry to the next.
pub open spec fn is_cycle(edges: Seq<GraphEdge>, c: Seq<Seq<char>>) -> bool {
    &&& c.len() >= 2
    &&& c[0] == c[c.len() - 1]
    &&& forall|i: int| 0 <= i < c.len() - 1 ==> has_edge(edges, #[trigger] c[i], c[i + 1])
}

/// What holds of every reported cycle: it is a cycle of at most 21 entries whose files
/// (before the closing repeat) are distinct, it starts at its smallest file.
pub open spec fn reported_cycle(edges: Seq<GraphEdge>, c: Seq<Seq<char>>) -> bool {
    &&& is_cycle(edges, c)
    &&& c.len() <= 21
    &&& forall|i: int, j: int| 0 <= i < j < c.len() - 1 ==> #[trigger] c[i] != #[trigger] c[j]
    &&& forall|i: int| 0 <= i < c.len() - 1 ==> !crate::order::lex_lt(#[trigger] c[i], c[0])
}

/// A simple path of the search from `start`.
pub open spec fn dfs_path(edges: Seq<GraphEdge>, start: Seq<char>, p: Seq<Seq<char>>) -> bool {
    &&& 1 <= p.len() <= 20
    &&& p[0] == start
    &&& forall|i: int| 0 <= i < p.len() - 1 ==> has_edge(edges, #[trigger] p[i], p[i + 1])
    &&& forall|i: int, j: int| 0 <= i < j < p.len() ==> #[trigger] p[i] != #[trigger] p[j]
}

proof fn lemma_normalized_cycle(edges: Seq<GraphEdge>, start: Seq<char>, p: Seq<Seq<char>>)
    requires
        dfs_path(edges, start, p),
        has_edge(edges, p[p.len() - 1], start),
    ensures
        reported_cycle(edges, normalized_cycle(p)),
        normalized_cycle(p).drop_last() == p.skip(min_index(p, p.len() as int)) + p.take(min_index(p, p.len() as int)),
{
    let n = p.len() as int;
    lemma_min_index(p, n);
    let m = min_index(p, n);
    let r = p.skip(m) + p.take(m);
    let c = r.push(p[m]);
    assert(c == normalized_cycle(p));
    assert(c.drop_last() =~= r);
    assert forall|i: int| 0 <= i < n implies #[trigger] r[i] == p[if i < n - m { i + m } else { i - (n - m) }] by {}
    assert forall|i: int| 0 <= i < c.len() - 1 implies has_edge(edges, #[trigger] c[i], c[i + 1]) by {
        if i < n - m - 1 {
            assert(c[i] == p[i + m] && c[i + 1] == p[i + m + 1]);
        } else if i == n - m - 1 {
            assert(c[i] == p[n - 1]);
            if m > 0 {
                assert(c[i + 1] == p[0]);
            } else {
                assert(c[i + 1] == p[m]);
            }
        } else if i < n - 1 {
            assert(c[i] == p[i - (n - m)] && c[i + 1] == p[i - (n - m) + 1]);
        } else {
            assert(c[i] == p[m - 1] && c[i + 1] == p[m]);
        }
    }
    assert forall|i: int, j: int| 0 <= i < j < c.len() - 1 implies #[trigger] c[i] != #[trigger] c[j] by {
        let pi = if i < n - m { i + m } else { i - (n - m) };
        let pj = if j < n - m { j + m } else { j - (n - m) };
        assert(c[i] == p[pi] && c[j] == p[pj]);
        if pi < pj {
            assert(p[pi] != p[pj]);
        } else {
            assert(p[pj] != p[pi]);
        }
    }
    assert forall|i: int| 0 <= i < c.len() - 1 implies !crate::order::lex_lt(#[trigger] c[i], c[0]) by {
        let pi = if i < n - m { i + m } else { i - (n - m) };
        assert(c[i] == p[pi]);
        assert(c[0] == p[m]);
    }
}

fn min_index_exec(p: &Vec<String>) -> (r: usize)
    requires
        p@.len() >= 1,
    ensures
        r as int == min_index(crate::text::string_views(p@), p@.len() as int),
{
    let ghost ps = crate::text::string_views(p@);
    let mut m: usize = 0;
    let mut i: usize = 1;
    let mut best = crate::text::chars_of(p[0].as_str());
    while i < p.len()
        invariant
            1 <= i <= p.len(),
            ps == crate::text::string_views(p@),
            m as int == min_index(ps, i as int),
            m < i,
            best@ == ps[m as int],
        decreases p.len() - i,
    {
        let cand = crate::text::chars_of(p[i].as_str());
        if crate::order::lex_less(&cand, &best) {
            m = i;
            best = cand;
        }
        i += 1;
    }
    m
}

/// Some reported cycle has the key `key`.
pub open spec fn reports_key(r: Seq<Vec<String>>, key: Seq<char>) -> bool {
    exists|i: int| 0 <= i < r.len() && cycle_key(crate::text::string_views(#[trigger] r[i]@)) == key
}

proof fn lemma_found_keeps(edges: Seq<GraphEdge>, a: Seq<Vec<char>>, b: Seq<Vec<char>>, s: Seq<char>)
    requires
        all_found(edges, a, s),
        keeps(a, b),
    ensures
        all_found(edges, b, s),
{
    lemma_keeps(a, b, b);
}

/// Every cycle of at most 20 distinct files, each reported once (rotated to start at its
/// smallest file and closed by repeating it); the order of the list is left unstated. Cycles
/// are told apart by their files joined with `|`; where no file name holds `|`, each
/// cycle is reported as itself. The
/// search runs from every importing file in turn (in order of first appearance), depth
/// first over the simple paths of at most 20 files from it.
#[verifier::spinoff_prover]
pub fn find_cycles(edges: &Vec<GraphEdge>) -> (r: Vec<Vec<String>>)
    ensures
        forall|i: int| 0 <= i < r@.len() ==> reported_cycle(edges@, #[trigger] crate::text::string_views(r@[i]@)),
        forall|i: int, j: int| 0 <= i < j < r@.len() ==> cycle_key(#[trigger] crate::text::string_views(r@[i]@)) != cycle_key(#[trigger] crate::text::string_views(r@[j]@)),
        forall|k: int| 0 <= k < edges@.len() && #[trigger] edges@[k].source@ == edges@[k].target@ ==> reports_key(r@, loop_key(seq![edges@[k].source@])),
        forall|k1: int, k2: int| 0 <= k1 < edges@.len() && 0 <= k2 < edges@.len() && edges@[k1].source@ != edges@[k1].target@
            && #[trigger] edges@[k1].target@ == #[trigger] edges@[k2].source@ && edges@[k2].target@ == edges@[k1].source@
            ==> reports_key(r@, loop_key(seq![edges@[k1].source@, edges@[k1].target@])),
        forall|q: Seq<Seq<char>>| q.len() > 0 && #[trigger] closes(edges@, q[0], q) ==> reports_key(r@, loop_key(q)),
        bar_free(edges@) ==> forall|q: Seq<Seq<char>>| q.len() > 0 && #[trigger] closes(edges@, q[0], q) ==> exists|i: int|
            0 <= i < r@.len() && #[trigger] crate::text::string_views(r@[i]@) == normalized_cycle(q),
{
    let mut all: Vec<Vec<String>> = Vec::new();
    let mut seen: Vec<Vec<char>> = Vec::new();
    let mut starts: Vec<String> = Vec::new();
    let mut k: usize = 0;
    proof {
        reveal(cycles_ok);
    }
    while k < edges.len()
        invariant
            k <= edges.len(),
            cycles_ok(edges@, all@, seen@),
            forall|q: int| 0 <= q < starts@.len() ==> all_found(edges@, seen@, #[trigger] starts@[q]@),
            forall|m: int| 0 <= m < k ==> exists|q: int| 0 <= q < starts@.len() && #[trigger] starts@[q]@ == #[trigger] edges@[m].source@,
        decreases edges.len() - k,
    {
        let src = &edges[k].source;
        let mut known = false;
        let mut q: usize = 0;
        while q < starts.len()
            invariant
                q <= starts.len(),
                known ==> exists|i: int| 0 <= i < starts@.len() && #[trigger] starts@[i]@ == src@,
                !known ==> forall|i: int| 0 <= i < q ==> #[trigger] starts@[i]@ != src@,
            decreases starts.len() - q,
        {
            if starts[q] == *src {
                known = true;
            }
            q += 1;
        }
        if !known {
            let ghost st0 = starts@;
            let ghost seen_b = seen@;
            starts.push(src.clone());
            search_from(edges, src, &mut all, &mut seen);
            proof {
                assert forall|i: int| 0 <= i < starts@.len() implies all_found(edges@, seen@, #[trigger] starts@[i]@) by {
                    if i < st0.len() {
                        assert(starts@[i] == st0[i]);
                        lemma_found_keeps(edges@, seen_b, seen@, st0[i]@);
                    }
                }
                assert forall|m: int| 0 <= m < k + 1 implies exists|q: int| 0 <= q < starts@.len() && #[trigger] starts@[q]@ == #[trigger] edges@[m].source@ by {
                    if m < k {
                        let q = choose|q: int| 0 <= q < st0.len() && #[trigger] st0[q]@ == #[trigger] edges@[m].source@;
                        assert(starts@[q] == st0[q]);
                    } else {
                        assert(starts@[st0.len() as int]@ == src@);
                    }
                }
            }
        }
        k += 1;
    }
    proof {
        reveal(cycles_ok);
        assert forall|key: Seq<char>| has_key(seen@, key) implies #[trigger] reports_key(all@, key) by {
            let j = choose|j: int| 0 <= j < seen@.len() && #[trigger] seen@[j]@ == key;
            assert(cycle_key(crate::text::string_views(all@[j]@)) == key);
        }
        assert forall|k: int| 0 <= k < edges@.len() && #[trigger] edges@[k].source@ == edges@[k].target@ implies reports_key(all@, loop_key(seq![edges@[k].source@])) by {
            let x = edges@[k].source@;
            let q = choose|q: int| 0 <= q < starts@.len() && #[trigger] starts@[q]@ == #[trigger] edges@[k].source@;
            assert(all_found(edges@, seen@, starts@[q]@));
            assert(has_edge(edges@, x, x));
            let c = seq![x];
            assert(c.last() == x);
            assert(closes(edges@, x, c));
        }
        assert forall|k1: int, k2: int| 0 <= k1 < edges@.len() && 0 <= k2 < edges@.len() && edges@[k1].source@ != edges@[k1].target@
            && #[trigger] edges@[k1].target@ == #[trigger] edges@[k2].source@ && edges@[k2].target@ == edges@[k1].source@
            implies reports_key(all@, loop_key(seq![edges@[k1].source@, edges@[k1].target@])) by {
            let x = edges@[k1].source@;
            let y = edges@[k1].target@;
            let q = choose|q: int| 0 <= q < starts@.len() && #[trigger] starts@[q]@ == #[trigger] edges@[k1].source@;
            assert(all_found(edges@, seen@, starts@[q]@));
            assert(has_edge(edges@, x, y));
            assert(has_edge(edges@, y, x));
            let c = seq![x, y];
            assert forall|i: int| 0 <= i < c.len() - 1 implies has_edge(edges@, #[trigger] c[i], c[i + 1]) by {
                assert(c[0] == x && c[1] == y);
            }
            assert forall|a: int, b: int| 0 <= a < b < c.len() implies #[trigger] c[a] != #[trigger] c[b] by {}
            assert(c.last() == y);
            assert(closes(edges@, x, c));
        }
        assert forall|q: Seq<Seq<char>>| q.len() > 0 && #[trigger] closes(edges@, q[0], q) implies reports_key(all@, loop_key(q)) by {
            let x = q[0];
            let e = if q.len() == 1 {
                assert(q.last() == x);
                choose|e: int| 0 <= e < edges@.len() && #[trigger] edges@[e].source@ == x && edges@[e].target@ == x
            } else {
                assert(has_edge(edges@, q[0], q[1]));
                choose|e: int| 0 <= e < edges@.len() && #[trigger] edges@[e].source@ == q[0] && edges@[e].target@ == q[1]
            };
            let i = choose|i: int| 0 <= i < starts@.len() && #[trigger] starts@[i]@ == #[trigger] edges@[e].source@;
            assert(all_found(edges@, seen@, starts@[i]@));
        }
        if bar_free(edges@) {
            assert forall|q: Seq<Seq<char>>| q.len() > 0 && #[trigger] closes(edges@, q[0], q) implies exists|i: int|
                0 <= i < all@.len() && #[trigger] crate::text::string_views(all@[i]@) == normalized_cycle(q) by {
                assert(reports_key(all@, loop_key(q)));
                let i = choose|i: int| 0 <= i < all@.len() && cycle_key(crate::text::string_views(#[trigger] all@[i]@)) == loop_key(q);
                lemma_normalized_cycle(edges@, q[0], q);
                assert(reported_cycle(edges@, crate::text::string_views(all@[i]@)));
                lemma_same_key_same_cycle(edges@, crate::text::string_views(all@[i]@), normalized_cycle(q));
            }
        }
        assert forall|i: int, j: int| 0 <= i < j < all@.len() implies cycle_key(#[trigger] crate::text::string_views(all@[i]@)) != cycle_key(#[trigger] crate::text::string_views(all@[j]@)) by {
            assert(seen@[i]@ == cycle_key(crate::text::string_views(all@[i]@)));
            assert(seen@[j]@ == cycle_key(crate::text::string_views(all@[j]@)));
            assert(seen@[i]@ != seen@[j]@);
        }
    }
    all
}

/// The reported cycles are sound and their keys are exactly `seen`, without repeats.
#[verifier::opaque]
pub open spec fn cycles_ok(edges: Seq<GraphEdge>, all: Seq<Vec<String>>, seen: Seq<Vec<char>>) -> bool {
    &&& all.len() == seen.len()
    &&& forall|i: int| 0 <= i < all.len() ==> reported_cycle(edges, #[trigger] crate::text::string_views(all[i]@))
    &&& forall|i: int| 0 <= i < all.len() ==> #[trigger] seen[i]@ == cycle_key(crate::text::string_views(all[i]@))
    &&& forall|i: int, j: int| 0 <= i < j < seen.len() ==> #[trigger] seen[i]@ != #[trigger] seen[j]@
}

/// A simple path of the search from `start` (at most 20 files) that an import from its
/// last file closes back to `start`.
pub open spec fn closes(edges: Seq<GraphEdge>, start: Seq<char>, q: Seq<Seq<char>>) -> bool {
    dfs_path(edges, start, q) && has_edge(edges, q.last(), start)
}

/// `p` starts `q`.
pub open spec fn is_prefix(p: Seq<Seq<char>>, q: Seq<Seq<char>>) -> bool {
    p.len() <= q.len() && q.take(p.len() as int) == p
}

/// Every cycle closed by a path of the search from `start` that begins with `pre` has its
/// key recorded.
pub open spec fn found_below(edges: Seq<GraphEdge>, start: Seq<char>, seen: Seq<Vec<char>>, pre: Seq<Seq<char>>) -> bool {
    forall|q: Seq<Seq<char>>| #[trigger] closes(edges, start, q) && is_prefix(pre, q) ==> has_key(seen, loop_key(q))
}

/// Every cycle closed by a path of the search from `s` has its key recorded.
pub open spec fn all_found(edges: Seq<GraphEdge>, seen: Seq<Vec<char>>, s: Seq<char>) -> bool {
    forall|q: Seq<Seq<char>>| #[trigger] closes(edges, s, q) ==> has_key(seen, loop_key(q))
}

proof fn lemma_found_below_keeps(edges: Seq<GraphEdge>, start: Seq<char>, a: Seq<Vec<char>>, b: Seq<Vec<char>>, pre: Seq<Seq<char>>)
    requires
        found_below(edges, start, a, pre),
        keeps(a, b),
    ensures
        found_below(edges, start, b, pre),
{
    lemma_keeps(a, b, b);
}

proof fn lemma_edge_in_targets(edges: Seq<GraphEdge>, x: Seq<char>, y: Seq<char>)
    requires
        has_edge(edges, x, y),
    ensures
        exists|m: int| 0 <= m < targets_of(edges, x).len() && #[trigger] targets_of(edges, x)[m] == y,
    decreases edges.len(),
{
    let d = edges.drop_last();
    let k = choose|k: int| 0 <= k < edges.len() && #[trigger] edges[k].source@ == x && edges[k].target@ == y;
    if k == edges.len() - 1 {
        let m = targets_of(d, x).len() as int;
        assert(targets_of(edges, x)[m] == y);
    } else {
        assert(d[k] == edges[k]);
        assert(has_edge(d, x, y));
        lemma_edge_in_targets(d, x, y);
        let m = choose|m: int| 0 <= m < targets_of(d, x).len() && #[trigger] targets_of(d, x)[m] == y;
        assert(targets_of(edges, x)[m] == y);
    }
}

/// Searches on from the simple path `path` (from `start`): records the cycle each import
/// back to `start` closes, then follows every import to a file not yet on the path, while
/// the path has fewer than 20 files; the later imports are followed first.
#[verifier::spinoff_prover]
fn search_paths(edges: &Vec<GraphEdge>, start: &String, path: &Vec<String>, all: &mut Vec<Vec<String>>, seen: &mut Vec<Vec<char>>)
    requires
        cycles_ok(edges@, old(all)@, old(seen)@),
        dfs_path(edges@, start@, crate::text::string_views(path@)),
    ensures
        cycles_ok(edges@, final(all)@, final(seen)@),
        keeps(old(seen)@, final(seen)@),
        found_below(edges@, start@, final(seen)@, crate::text::string_views(path@)),
    decreases 20 - path@.len(),
{
    let ghost p = crate::text::string_views(path@);
    let ghost seen0 = seen@;
    let current = &path[path.len() - 1];
    assert(current@ == p.last());
    let next_files = targets_from(edges, current);
    proof {
        lemma_targets_are_edges(edges@, current@);
        assert forall|j: int| 0 <= j < seen@.len() implies #[trigger] seen@[j]@ == seen0[j]@ by {}
    }
    let ghost ts = targets_of(edges@, current@);
    let mut children: Vec<String> = Vec::new();
    let mut t: usize = 0;
    while t < next_files.len()
        invariant
            cycles_ok(edges@, all@, seen@),
            keeps(seen0, seen@),
            dfs_path(edges@, start@, p),
            p == crate::text::string_views(path@),
            current@ == p.last(),
            ts == targets_of(edges@, current@),
            crate::text::string_views(next_files@) == ts,
            forall|i: int| 0 <= i < ts.len() ==> has_edge(edges@, current@, #[trigger] ts[i]),
            t <= next_files.len(),
            forall|m: int| 0 <= m < t && #[trigger] ts[m] == start@ ==> has_key(seen@, loop_key(p)),
            forall|m: int| 0 <= m < t && #[trigger] ts[m] != start@ && !p.contains(ts[m]) && p.len() < 20
                ==> crate::text::string_views(children@).contains(ts[m]),
            forall|k: int| 0 <= k < children@.len() ==> #[trigger] children@[k]@ != start@ && !p.contains(children@[k]@)
                && has_edge(edges@, current@, children@[k]@),
            p.len() < 20 || children@.len() == 0,
        decreases next_files.len() - t,
    {
        let next = &next_files[t];
        assert(crate::text::string_views(next_files@)[t as int] == next@);
        let ghost sb = seen@;
        if *next == *start {
            record_cycle(edges, start, path, all, seen);
            proof {
                lemma_keeps(seen0, sb, seen@);
                lemma_keeps(sb, seen@, seen@);
            }
        } else if !contains_string(path, next) && path.len() < 20 {
            let ghost cb = crate::text::string_views(children@);
            children.push(next.clone());
            proof {
                assert(crate::text::string_views(children@) =~= cb.push(next@));
                assert(crate::text::string_views(children@)[cb.len() as int] == next@);
                assert forall|m: int| 0 <= m < t + 1 && #[trigger] ts[m] != start@ && !p.contains(ts[m]) && p.len() < 20
                    implies crate::text::string_views(children@).contains(ts[m]) by {
                    if m < t {
                        let k = choose|k: int| 0 <= k < cb.len() && cb[k] == ts[m];
                        assert(crate::text::string_views(children@)[k] == ts[m]);
                    }
                }
            }
        }
        t += 1;
    }
    let ghost seen1 = seen@;
    let mut j: usize = children.len();
    while j > 0
        invariant
            cycles_ok(edges@, all@, seen@),
            keeps(seen0, seen1),
            keeps(seen1, seen@),
            dfs_path(edges@, start@, p),
            p == crate::text::string_views(path@),
            p.len() < 20 || children@.len() == 0,
            j <= children@.len(),
            forall|k: int| 0 <= k < children@.len() ==> #[trigger] children@[k]@ != start@ && !p.contains(children@[k]@)
                && has_edge(edges@, p.last(), children@[k]@),
            forall|k: int| j <= k < children@.len() ==> found_below(edges@, start@, seen@, #[trigger] p.push(children@[k]@)),
        decreases j,
    {
        j -= 1;
        let mut np = path.clone();
        np.push(children[j].clone());
        let ghost sb = seen@;
        proof {
            let c = children@[j as int]@;
            let q = crate::text::string_views(np@);
            assert(q =~= p.push(c));
            assert forall|a: int, b: int| 0 <= a < b < q.len() implies #[trigger] q[a] != #[trigger] q[b] by {
                if b == p.len() {
                    assert(p[a] == q[a]);
                    assert(p.contains(p[a]));
                } else {
                    assert(q[a] == p[a] && q[b] == p[b]);
                }
            }
            assert forall|i: int| 0 <= i < q.len() - 1 implies has_edge(edges@, #[trigger] q[i], q[i + 1]) by {
                if i < p.len() - 1 {
                    assert(q[i] == p[i] && q[i + 1] == p[i + 1]);
                } else {
                    assert(q[i] == p.last() && q[i + 1] == c);
                }
            }
            assert(dfs_path(edges@, start@, q));
        }
        search_paths(edges, start, &np, all, seen);
        proof {
            lemma_keeps(seen1, sb, seen@);
            assert(crate::text::string_views(np@) =~= p.push(children@[j as int]@));
            assert forall|k: int| j <= k < children@.len() implies found_below(edges@, start@, seen@, #[trigger] p.push(children@[k]@)) by {
                if k > j {
                    lemma_found_below_keeps(edges@, start@, sb, seen@, p.push(children@[k]@));
                }
            }
        }
    }
    proof {
        lemma_keeps(seen0, seen1, seen@);
        lemma_keeps(seen1, seen@, seen@);
        assert forall|q: Seq<Seq<char>>| #[trigger] closes(edges@, start@, q) && is_prefix(p, q) implies has_key(seen@, loop_key(q)) by {
            if q.len() == p.len() {
                assert(q =~= q.take(p.len() as int));
                assert(q == p);
                lemma_edge_in_targets(edges@, p.last(), start@);
                let m = choose|m: int| 0 <= m < targets_of(edges@, p.last()).len() && #[trigger] targets_of(edges@, p.last())[m] == start@;
                assert(has_key(seen1, loop_key(p)));
            } else {
                let n = q[p.len() as int];
                assert(q[p.len() - 1] == p.last());
                assert(has_edge(edges@, q[p.len() - 1], q[p.len() as int]));
                lemma_edge_in_targets(edges@, p.last(), n);
                let m = choose|m: int| 0 <= m < targets_of(edges@, p.last()).len() && #[trigger] targets_of(edges@, p.last())[m] == n;
                assert(q[0] == start@);
                assert(n != start@) by {
                    assert(q[0] != q[p.len() as int]);
                }
                assert(!p.contains(n)) by {
                    if p.contains(n) {
                        let i = choose|i: int| 0 <= i < p.len() && p[i] == n;
                        assert(q[i] == p[i]);
                        assert(q[i] != q[p.len() as int]);
                    }
                }
                assert(p.len() < 20);
                assert(crate::text::string_views(children@).contains(n));
                let k = choose|k: int| 0 <= k < crate::text::string_views(children@).len() && crate::text::string_views(children@)[k] == n;
                assert(children@[k]@ == n);
                assert(found_below(edges@, start@, seen@, p.push(children@[k]@)));
                assert(q.take(p.len() + 1 as int) =~= p.push(n));
                assert(is_prefix(p.push(n), q));
            }
        }
    }
}

/// The search from one start file, over every simple path from it.
fn search_from(edges: &Vec<GraphEdge>, start: &String, all: &mut Vec<Vec<String>>, seen: &mut Vec<Vec<char>>)
    requires
        cycles_ok(edges@, old(all)@, old(seen)@),
    ensures
        cycles_ok(edges@, final(all)@, final(seen)@),
        keeps(old(seen)@, final(seen)@),
        all_found(edges@, final(seen)@, start@),
{
    let mut first_path: Vec<String> = Vec::new();
    first_path.push(start.clone());
    proof {
        let p = crate::text::string_views(first_path@);
        assert(p =~= seq![start@]);
    }
    search_paths(edges, start, &first_path, all, seen);
    proof {
        let p = crate::text::string_views(first_path@);
        assert forall|q: Seq<Seq<char>>| #[trigger] closes(edges@, start@, q) implies has_key(seen@, loop_key(q)) by {
            assert(q.take(1) =~= p);
        }
    }
}

fn contains_string(v: &Vec<String>, x: &String) -> (r: bool)
    ensures
        r == crate::text::string_views(v@).contains(x@),
{
    let mut i: usize = 0;
    while i < v.len()
        invariant
            i <= v.len(),
            forall|j: int| 0 <= j < i ==> v@[j]@ != x@,
        decreases v.len() - i,
    {
        if v[i] == *x {
            assert(crate::text::string_views(v@)[i as int] == x@);
            return true;
        }
        i += 1;
    }
    proof {
        if crate::text::string_views(v@).contains(x@) {
            let j = choose|j: int| 0 <= j < v@.len() && crate::text::string_views(v@)[j] == x@;
            assert(v@[j]@ == x@);
        }
    }
    false
}

fn contains_chars(v: &Vec<Vec<char>>, x: &Vec<char>) -> (r: bool)
    ensures
        r == exists|j: int| 0 <= j < v@.len() && #[trigger] v@[j]@ == x@,
{
    let mut i: usize = 0;
    while i < v.len()
        invariant
            i <= v.len(),
            forall|j: int| 0 <= j < i ==> #[trigger] v@[j]@ != x@,
        decreases v.len() - i,
    {
        if crate::text::eq_chars(&v[i], x) {
            return true;
        }
        i += 1;
    }
    false
}

/// Records the cycle closed by an import from the end of `path` back to `start`,
/// unless a cycle with the same key was recorded before.
#[verifier::spinoff_prover]
fn record_cycle(edges: &Vec<GraphEdge>, start: &String, path: &Vec<String>, all: &mut Vec<Vec<String>>, seen: &mut Vec<Vec<char>>)
    requires
        cycles_ok(edges@, old(all)@, old(seen)@),
        dfs_path(edges@, start@, crate::text::string_views(path@)),
        has_edge(edges@, crate::text::string_views(path@).last(), start@),
    ensures
        cycles_ok(edges@, final(all)@, final(seen)@),
        keeps(old(seen)@, final(seen)@),
        has_key(final(seen)@, loop_key(crate::text::string_views(path@))),
{
    let ghost p = crate::text::string_views(path@);
    proof {
        lemma_normalized_cycle(edges@, start@, p);
        lemma_min_index(p, p.len() as int);
    }
    let m = min_index_exec(path);
    let mut normalized: Vec<String> = Vec::new();
    let mut i: usize = m;
    while i < path.len()
        invariant
            m <= i <= path.len(),
            p == crate::text::string_views(path@),
            crate::text::string_views(normalized@) == p.subrange(m as int, i as int),
        decreases path.len() - i,
    {
        let ghost before = crate::text::string_views(normalized@);
        normalized.push(path[i].clone());
        assert(crate::text::string_views(normalized@) =~= before.push(p[i as int]));
        assert(p.subrange(m as int, i + 1) =~= p.subrange(m as int, i as int).push(p[i as int]));
        i += 1;
    }
    let mut i: usize = 0;
    while i < m
        invariant
            i <= m < path.len(),
            p == crate::text::string_views(path@),
            crate::text::string_views(normalized@) == p.skip(m as int) + p.take(i as int),
        decreases m - i,
    {
        let ghost before = crate::text::string_views(normalized@);
        normalized.push(path[i].clone());
        assert(crate::text::string_views(normalized@) =~= before.push(p[i as int]));
        assert(p.skip(m as int) + p.take(i + 1) =~= (p.skip(m as int) + p.take(i as int)).push(p[i as int]));
        i += 1;
    }
    let key_parts = string_chars_list(&normalized);
    let key = crate::text::join_chars(&key_parts, '|');
    proof {
        assert(crate::order::views(key_parts@) == crate::text::string_views(normalized@));
        assert(normalized_cycle(p).drop_last() == crate::text::string_views(normalized@));
        assert(key@ == loop_key(p));
    }
    if !contains_chars(seen, &key) {
        let mut closed = normalized.clone();
        let first = normalized[0].clone();
        closed.push(first);
        proof {
            assert(crate::text::string_views(normalized@)[0] == p[m as int]);
            assert(crate::text::string_views(closed@) =~= normalized_cycle(p));
            assert(key@ == cycle_key(crate::text::string_views(closed@)));
        }
        let ghost a0 = all@;
        let ghost s0 = seen@;
        all.push(closed);
        seen.push(key);
        proof {
            reveal(cycles_ok);
            assert forall|i: int| 0 <= i < all@.len() implies reported_cycle(edges@, #[trigger] crate::text::string_views(all@[i]@)) by {
                if i < a0.len() {
                    assert(all@[i] == a0[i]);
                }
            }
            assert forall|i: int| 0 <= i < all@.len() implies #[trigger] seen@[i]@ == cycle_key(crate::text::string_views(all@[i]@)) by {
                if i < a0.len() {
                    assert(all@[i] == a0[i]);
                    assert(seen@[i] == s0[i]);
                }
            }
            assert forall|i: int, j: int| 0 <= i < j < seen@.len() implies #[trigger] seen@[i]@ != #[trigger] seen@[j]@ by {
                if j == s0.len() {
                    assert(seen@[i] == s0[i]);
                } else {
                    assert(seen@[i] == s0[i] && seen@[j] == s0[j]);
                }
            }
            assert forall|j: int| 0 <= j < s0.len() implies #[trigger] seen@[j]@ == s0[j]@ by {
                assert(seen@[j] == s0[j]);
            }
            assert(seen@[s0.len() as int]@ == loop_key(p));
        }
    }
}

/// The key of the cycle that follows the simple path `p` and closes back to its first file.
pub open spec fn loop_key(p: Seq<Seq<char>>) -> Seq<char> {
    cycle_key(normalized_cycle(p))
}

/// `key` is among the recorded keys.
pub open spec fn has_key(seen: Seq<Vec<char>>, key: Seq<char>) -> bool {
    exists|j: int| 0 <= j < seen.len() && #[trigger] seen[j]@ == key
}

/// `b` starts with the keys of `a`.
pub open spec fn keeps(a: Seq<Vec<char>>, b: Seq<Vec<char>>) -> bool {
    &&& a.len() <= b.len()
    &&& forall|j: int| 0 <= j < a.len() ==> #[trigger] b[j]@ == a[j]@
}

proof fn lemma_keeps(a: Seq<Vec<char>>, b: Seq<Vec<char>>, c: Seq<Vec<char>>)
    requires
        keeps(a, b),
        keeps(b, c),
    ensures
        keeps(a, c),
        forall|key: Seq<char>| has_key(a, key) ==> #[trigger] has_key(c, key),
{
    assert forall|key: Seq<char>| has_key(a, key) implies #[trigger] has_key(c, key) by {
        let j = choose|j: int| 0 <= j < a.len() && #[trigger] a[j]@ == key;
        assert(c[j]@ == b[j]@);
    }
}

fn string_chars_list(v: &Vec<String>) -> (r: Vec<Vec<char>>)
    ensures
        crate::order::views(r@) == crate::text::string_views(v@),
{
    let mut r: Vec<Vec<char>> = Vec::new();
    let mut i: usize = 0;
    while i < v.len()
        invariant
            i <= v.len(),
            crate::order::views(r@) == crate::text::string_views(v@).take(i as int),
        decreases v.len() - i,
    {
        let ghost before = crate::order::views(r@);
        r.push(crate::text::chars_of(v[i].as_str()));
        assert(crate::order::views(r@) =~= before.push(v@[i as int]@));
        assert(crate::text::string_views(v@).take(i + 1) =~= crate::text::string_views(v@).take(i as int).push(v@[i as int]@));
        i += 1;
    }
    assert(crate::text::string_views(v@).take(v.len() as int) =~= crate::text::string_views(v@));
    r
}

/// How a walk reason is reported.
pub open spec fn reason_text(r: Reason) -> Seq<char> {
    match r {
        Reason::Entry => "entry"@,
        Reason::Dependency => "dependency"@,
        Reason::Dependent => "dependent"@,
    }
}

/// A file reached by a walk as it is reported: its path, its path relative to the
/// project, why it was reached, its distance from the entry points, and its symbols.
pub fn relevant_file(project: &str, entry: &WalkEntry, symbols: Vec<crate::types::Symbol>) -> (r: crate::types::RelevantFile)
    ensures
        r.file_path@ == entry.path@,
        r.relative_path@ == crate::paths::relative(entry.path@, project@),
        r.reason@ == reason_text(entry.reason),
        r.depth == entry.depth as i64,
        r.symbols@ == symbols@,
{
    let reason = match entry.reason {
        Reason::Entry => String::from_str("entry"),
        Reason::Dependency => String::from_str("dependency"),
        Reason::Dependent => String::from_str("dependent"),
    };
    crate::types::RelevantFile {
        file_path: entry.path.clone(),
        relative_path: crate::paths::relative_path(entry.path.as_str(), project),
        reason,
        depth: entry.depth as i64,
        symbols,
    }
}

/// The files a query starts from: each entry that is an absolute path as it is, each
/// other entry replaced by the files a search for it found (`found[i]` for `entries[i]`).
pub open spec fn entry_files(entries: Seq<String>, found: Seq<Vec<String>>) -> Seq<Seq<char>>
    decreases entries.len(),
{
    if entries.len() == 0 {
        seq![]
    } else {
        let i = entries.len() - 1;
        entry_files(entries.drop_last(), found.drop_last()) + if entries[i]@.len() > 0 && entries[i]@[0] == '/' {
            seq![entries[i]@]
        } else {
            crate::text::string_views(found[i]@)
        }
    }
}

/// The files a query starts from, given what a search found for each entry that is not
/// an absolute path (its slot is not read for one that is).
pub fn resolve_entry_points(entries: &Vec<String>, found: &Vec<Vec<String>>) -> (r: Vec<String>)
    requires
        found@.len() == entries@.len(),
    ensures
        crate::text::string_views(r@) == entry_files(entries@, found@),
{
    let mut out: Vec<String> = Vec::new();
    let mut i: usize = 0;
    while i < entries.len()
        invariant
            i <= entries.len(),
            found@.len() == entries@.len(),
            crate::text::string_views(out@) == entry_files(entries@.take(i as int), found@.take(i as int)),
        decreases entries.len() - i,
    {
        let ghost before = crate::text::string_views(out@);
        proof {
            assert(entries@.take(i + 1).drop_last() =~= entries@.take(i as int));
            assert(found@.take(i + 1).drop_last() =~= found@.take(i as int));
            assert(entries@.take(i + 1)[i as int] == entries@[i as int]);
            assert(found@.take(i + 1)[i as int] == found@[i as int]);
        }
        let e = crate::text::chars_of(entries[i].as_str());
        if e.len() > 0 && e[0] == '/' {
            out.push(entries[i].clone());
            assert(crate::text::string_views(out@) =~= before + seq![entries@[i as int]@]);
        } else {
            let f = &found[i];
            let mut k: usize = 0;
            while k < f.len()
                invariant
                    k <= f.len(),
                    crate::text::string_views(out@) == before + crate::text::string_views(f@).take(k as int),
                decreases f.len() - k,
            {
                let ghost b2 = crate::text::string_views(out@);
                out.push(f[k].clone());
                assert(crate::text::string_views(out@) =~= b2.push(f@[k as int]@));
                assert(crate::text::string_views(f@).take(k + 1) =~= crate::text::string_views(f@).take(k as int).push(f@[k as int]@));
                k += 1;
            }
            assert(crate::text::string_views(f@).take(f.len() as int) =~= crate::text::string_views(f@));
        }
        i += 1;
    }
    proof {
        assert(entries@.take(entries.len() as int) =~= entries@);
        assert(found@.take(entries.len() as int) =~= found@);
    }
    out
}

/// A cycle as the cycle tool reports it: its files relative to the project, and its
/// length (the number of files, the closing repeat not counted).
pub fn report_cycle(project: &str, cycle: &Vec<String>) -> (r: (Vec<String>, usize))
    requires
        cycle@.len() >= 1,
    ensures
        crate::text::string_views(r.0@) == crate::text::string_views(cycle@).map_values(|p: Seq<char>| crate::paths::relative(p, project@)),
        r.1 == cycle@.len() - 1,
{
    let mut out: Vec<String> = Vec::new();
    let mut i: usize = 0;
    while i < cycle.len()
        invariant
            i <= cycle.len(),
            crate::text::string_views(out@) == crate::text::string_views(cycle@).take(i as int).map_values(|p: Seq<char>| crate::paths::relative(p, project@)),
        decreases cycle.len() - i,
    {
        let ghost before = crate::text::string_views(out@);
        let x = crate::paths::relative_path(cycle[i].as_str(), project);
        out.push(x);
        proof {
            let v = crate::text::string_views(cycle@);
            assert(v.take(i + 1) =~= v.take(i as int).push(v[i as int]));
            assert(crate::text::string_views(out@) =~= before.push(x@));
            assert(v.take(i + 1).map_values(|p: Seq<char>| crate::paths::relative(p, project@)) =~= v.take(i as int).map_values(|p: Seq<char>| crate::paths::relative(p, project@)).push(x@));
        }
        i += 1;
    }
    proof {
        assert(crate::text::string_views(cycle@).take(cycle.len() as int) =~= crate::text::string_views(cycle@));
    }
    (out, cycle.len() - 1)
}

} // verus!
