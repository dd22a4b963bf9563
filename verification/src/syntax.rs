//! A syntax tree held as plain values: what the extractors read of a tree-sitter tree.
//!
//! Node 0 is the root; every node lists its children in order, by index, and a child's
//! index is always larger than its parent's.
use vstd::prelude::*;
use crate::text::{chars_of, eq_chars};

verus! {

/// One node of a syntax tree.
pub struct SyntaxNode {
    /// The node's grammar kind (`import_statement`, `identifier`, `{`, ...).
    pub kind: String,
    /// The source text the node spans, when it is valid UTF-8.
    pub text: Option<String>,
    /// The line the node starts on, counted from 0.
    pub row: usize,
    /// The field name under which the node sits in its parent, if any.
    pub field: Option<String>,
    /// The node's children, in order, as indices into the tree.
    pub children: Vec<usize>,
}

/// A syntax tree: its nodes, the root first.
pub struct SyntaxTree {
    pub nodes: Vec<SyntaxNode>,
}

/// The tree has a root, and every child index points further into the tree than its
/// parent.
pub open spec fn well_formed(t: SyntaxTree) -> bool {
    &&& t.nodes@.len() > 0
    &&& forall|n: int| 0 <= n < t.nodes@.len() ==> #[trigger] t.nodes@[n].row < usize::MAX
    &&& forall|n: int, j: int| 0 <= n < t.nodes@.len() && 0 <= j < t.nodes@[n].children@.len()
        ==> n < #[trigger] t.nodes@[n].children@[j] < t.nodes@.len()
}

/// The tree fits the source it was read from: no node starts past its last line.
pub open spec fn fits_source(t: SyntaxTree, source: Seq<char>) -> bool {
    forall|n: int| 0 <= n < t.nodes@.len() ==> #[trigger] t.nodes@[n].row <= crate::text::lines(source).len()
}

pub open spec fn kind(t: SyntaxTree, n: int) -> Seq<char> {
    t.nodes@[n].kind@
}

pub open spec fn children(t: SyntaxTree, n: int) -> Seq<usize> {
    t.nodes@[n].children@
}

pub open spec fn row(t: SyntaxTree, n: int) -> nat {
    t.nodes@[n].row as nat
}

/// The node's text, when it has one.
pub open spec fn text(t: SyntaxTree, n: int) -> Option<Seq<char>> {
    match t.nodes@[n].text {
        Some(s) => Some(s@),
        None => None,
    }
}

/// The node's text, or the empty text (`utf8_text(..).unwrap_or("")`).
pub open spec fn text_or_empty(t: SyntaxTree, n: int) -> Seq<char> {
    match text(t, n) {
        Some(s) => s,
        None => seq![],
    }
}

/// The field name of a node under its parent.
pub open spec fn field(t: SyntaxTree, n: int) -> Option<Seq<char>> {
    match t.nodes@[n].field {
        Some(s) => Some(s@),
        None => None,
    }
}

/// The first node of `cs` that sits under the field `f`.
pub open spec fn first_in_field(t: SyntaxTree, cs: Seq<usize>, f: Seq<char>) -> Option<int>
    decreases cs.len(),
{
    if cs.len() == 0 {
        None
    } else if field(t, cs[0] as int) == Some(f) {
        Some(cs[0] as int)
    } else {
        first_in_field(t, cs.drop_first(), f)
    }
}

/// The first child of `n` under the field `f` (`Node::child_by_field_name`).
pub open spec fn field_child(t: SyntaxTree, n: int, f: Seq<char>) -> Option<int> {
    first_in_field(t, children(t, n), f)
}

/// The `i`-th child of `n` (`Node::child`).
pub open spec fn child(t: SyntaxTree, n: int, i: int) -> Option<int> {
    if 0 <= i < children(t, n).len() {
        Some(children(t, n)[i] as int)
    } else {
        None
    }
}

/// The text of an optional node, when both exist.
pub open spec fn text_of_opt(t: SyntaxTree, o: Option<int>) -> Option<Seq<char>> {
    match o {
        Some(c) => text(t, c),
        None => None,
    }
}

pub proof fn lemma_first_in_field(t: SyntaxTree, cs: Seq<usize>, f: Seq<char>)
    ensures
        first_in_field(t, cs, f) matches Some(c) ==> cs.contains(c as usize) && field(t, c) == Some(f),
    decreases cs.len(),
{
    if cs.len() > 0 && field(t, cs[0] as int) != Some(f) {
        lemma_first_in_field(t, cs.drop_first(), f);
        if first_in_field(t, cs, f) is Some {
            let c = first_in_field(t, cs, f)->0;
            let k = choose|k: int| 0 <= k < cs.drop_first().len() && cs.drop_first()[k] == c as usize;
            assert(cs[k + 1] == c as usize);
        }
    } else if cs.len() > 0 {
        assert(cs[0] == cs[0]);
    }
}

/// Whether two texts are the same.
pub fn same_text(a: &str, b: &str) -> (r: bool)
    ensures
        r == (a@ == b@),
{
    let x = chars_of(a);
    let y = chars_of(b);
    eq_chars(&x, &y)
}

/// Whether node `n` is of kind `k`.
pub fn kind_is(t: &SyntaxTree, n: usize, k: &str) -> (r: bool)
    requires
        n < t.nodes@.len(),
    ensures
        r == (kind(*t, n as int) == k@),
{
    same_text(t.nodes[n].kind.as_str(), k)
}

/// Whether node `n` has the text `s`.
pub fn text_is(t: &SyntaxTree, n: usize, s: &str) -> (r: bool)
    requires
        n < t.nodes@.len(),
    ensures
        r == (text(*t, n as int) == Some(s@)),
{
    match &t.nodes[n].text {
        Some(x) => same_text(x.as_str(), s),
        None => false,
    }
}

/// The text of node `n`, when it has one.
pub fn text_at(t: &SyntaxTree, n: usize) -> (r: Option<String>)
    requires
        n < t.nodes@.len(),
    ensures
        match text(*t, n as int) {
            Some(s) => r is Some && r->0@ == s,
            None => r is None,
        },
{
    match &t.nodes[n].text {
        Some(x) => Some(x.clone()),
        None => None,
    }
}

/// The text of node `n`, or the empty text.
pub fn text_or_empty_at(t: &SyntaxTree, n: usize) -> (r: String)
    requires
        n < t.nodes@.len(),
    ensures
        r@ == text_or_empty(*t, n as int),
{
    match &t.nodes[n].text {
        Some(x) => x.clone(),
        None => {
            let e = String::new();
            assert(e@ =~= Seq::<char>::empty());
            e
        },
    }
}

/// The first child of `n` under the field `f`.
pub fn child_by_field(t: &SyntaxTree, n: usize, f: &str) -> (r: Option<usize>)
    requires
        well_formed(*t),
        n < t.nodes@.len(),
    ensures
        match r {
            Some(c) => field_child(*t, n as int, f@) == Some(c as int) && n < c < t.nodes@.len(),
            None => field_child(*t, n as int, f@) is None,
        },
{
    let cs = &t.nodes[n].children;
    let mut i: usize = 0;
    assert(cs@.skip(0) =~= cs@);
    while i < cs.len()
        invariant
            well_formed(*t),
            n < t.nodes@.len(),
            cs@ == children(*t, n as int),
            i <= cs@.len(),
            field_child(*t, n as int, f@) == first_in_field(*t, cs@.skip(i as int), f@),
        decreases cs.len() - i,
    {
        let c = cs[i];
        assert(n < t.nodes@[n as int].children@[i as int] < t.nodes@.len());
        proof {
            assert(cs@.skip(i as int)[0] == c);
            assert(cs@.skip(i as int).drop_first() =~= cs@.skip(i + 1));
        }
        let hit = match &t.nodes[c].field {
            Some(x) => same_text(x.as_str(), f),
            None => false,
        };
        if hit {
            return Some(c);
        }
        i += 1;
    }
    assert(cs@.skip(i as int) =~= Seq::<usize>::empty());
    None
}

} // verus!
