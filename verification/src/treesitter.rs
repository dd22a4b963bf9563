//! Parsing with tree-sitter, and copying the tree it builds into a `SyntaxTree`.
use vstd::prelude::*;
use crate::syntax::{fits_source, well_formed, SyntaxNode, SyntaxTree};
use tree_sitter::{Language, Node, Parser, Tree};

verus! {

/// `tree_sitter::Parser`, carried as an opaque value.
#[verifier::external_type_specification]
#[verifier::external_body]
pub struct ExParser(tree_sitter::Parser);

/// `tree_sitter::Tree`, carried as an opaque value.
#[verifier::external_type_specification]
#[verifier::external_body]
pub struct ExTree(tree_sitter::Tree);

/// `tree_sitter::Language` (a grammar), carried as an opaque value.
#[verifier::external_type_specification]
#[verifier::external_body]
pub struct ExLanguage(tree_sitter::Language);

/// `tree_sitter::Node`, carried as an opaque value; the logic reads it only through
/// the wrappers below and works on the copy it makes of the tree.
#[verifier::external_type_specification]
#[verifier::external_body]
pub struct ExNode<'tree>(tree_sitter::Node<'tree>);

/// Whether tree-sitter accepts the grammar for `language` (`Parser::set_language`: the
/// grammar's ABI version is one this tree-sitter reads, and it can be used for parsing).
pub uninterp spec fn ts_accepts(language: Seq<char>) -> bool;

/// The kind of the node at `path` (child indices from the root) in the tree tree-sitter
/// builds for `source` with the grammar for `language`.
pub uninterp spec fn ts_kind(language: Seq<char>, source: Seq<char>, path: Seq<u32>) -> Seq<char>;

/// The number of children of the node at `path` in that tree.
pub uninterp spec fn ts_child_count(language: Seq<char>, source: Seq<char>, path: Seq<u32>) -> nat;

/// The field name under which child `i` of the node at `path` sits, if any.
pub uninterp spec fn ts_field_name(language: Seq<char>, source: Seq<char>, path: Seq<u32>, i: u32) -> Option<Seq<char>>;

/// The byte offset where the node at `path` starts.
pub uninterp spec fn ts_start_byte(language: Seq<char>, source: Seq<char>, path: Seq<u32>) -> nat;

/// The byte offset where the node at `path` ends.
pub uninterp spec fn ts_end_byte(language: Seq<char>, source: Seq<char>, path: Seq<u32>) -> nat;

/// The line (from 0) on which the node at `path` starts.
pub uninterp spec fn ts_row(language: Seq<char>, source: Seq<char>, path: Seq<u32>) -> nat;

/// The number of nodes in the subtree of the node at `path`, itself included.
pub uninterp spec fn ts_descendant_count(language: Seq<char>, source: Seq<char>, path: Seq<u32>) -> nat;

/// The subtree sizes of the first `k` children of the node at `path`, summed.
pub open spec fn child_descendants(language: Seq<char>, source: Seq<char>, path: Seq<u32>, k: nat) -> nat
    decreases k,
{
    if k == 0 {
        0
    } else {
        child_descendants(language, source, path, (k - 1) as nat) + ts_descendant_count(language, source, path.push((k - 1) as u32))
    }
}

/// A grammar, with the language it is for.
struct Grammar {
    language: Language,
    name: Ghost<Seq<char>>,
}

impl View for Grammar {
    type V = Seq<char>;

    closed spec fn view(&self) -> Seq<char> {
        self.name@
    }
}

/// A parser, with the language of the grammar it was given, if any.
struct TsParser {
    parser: Parser,
    language: Ghost<Option<Seq<char>>>,
}

impl View for TsParser {
    type V = Option<Seq<char>>;

    closed spec fn view(&self) -> Option<Seq<char>> {
        self.language@
    }
}

/// A tree tree-sitter built, with the language and text it was built from.
struct TsTree {
    tree: Tree,
    language: Ghost<Seq<char>>,
    source: Ghost<Seq<char>>,
}

impl View for TsTree {
    type V = (Seq<char>, Seq<char>);

    closed spec fn view(&self) -> (Seq<char>, Seq<char>) {
        (self.language@, self.source@)
    }
}

/// A node of such a tree, with the tree's language and text and the node's path from the
/// root.
struct TsNode<'t> {
    node: Node<'t>,
    language: Ghost<Seq<char>>,
    source: Ghost<Seq<char>>,
    path: Ghost<Seq<u32>>,
}

impl<'t> View for TsNode<'t> {
    type V = (Seq<char>, Seq<char>, Seq<u32>);

    closed spec fn view(&self) -> (Seq<char>, Seq<char>, Seq<u32>) {
        (self.language@, self.source@, self.path@)
    }
}

/// `tree_sitter::Parser::new`: a parser with no language yet.
#[verifier::external_body]
fn new_parser() -> (r: TsParser)
    ensures
        r@ is None,
{
    TsParser { parser: Parser::new(), language: Ghost(None) }
}

/// `Parser::set_language`. Claimed: it succeeds exactly when tree-sitter accepts the
/// grammar (`ts_accepts`), and then the parser has that grammar's language; on failure
/// the parser is left as it was. The error is given as its display text.
#[verifier::external_body]
fn set_parser_language(parser: &mut TsParser, grammar: &Grammar) -> (r: Result<(), String>)
    ensures
        (r is Ok) == ts_accepts(grammar@),
        r is Ok ==> final(parser)@ == Some(grammar@),
        r is Err ==> final(parser)@ == old(parser)@,
{
    match parser.parser.set_language(&grammar.language) {
        Ok(()) => {
            parser.language = Ghost(Some(grammar.name@));
            Ok(())
        },
        Err(e) => Err(e.to_string()),
    }
}

/// `Parser::parse` of a whole text, without an earlier tree. Claimed: a parser with a
/// language gives a tree (the documentation names no other case of failure), built from
/// that language and the text.
#[verifier::external_body]
fn parse_text(parser: &mut TsParser, text: &str) -> (r: Option<TsTree>)
    ensures
        final(parser)@ == old(parser)@,
        old(parser)@ is Some ==> r is Some,
        r matches Some(t) ==> t@ == (old(parser)@->0, text@),
{
    match parser.parser.parse(text, None) {
        Some(t) => Some(TsTree { tree: t, language: Ghost(parser.language@->0), source: Ghost(text@) }),
        None => None,
    }
}

/// `Tree::root_node`: the node at the empty path.
#[verifier::external_body]
fn root_of(tree: &TsTree) -> (r: TsNode<'_>)
    ensures
        r@ == (tree@.0, tree@.1, Seq::<u32>::empty()),
{
    TsNode { node: tree.tree.root_node(), language: Ghost(tree.language@), source: Ghost(tree.source@), path: Ghost(seq![]) }
}

/// `Node::kind`, as an owned string: `ts_kind` of the node.
#[verifier::external_body]
fn node_kind(node: &TsNode) -> (r: String)
    ensures
        r@ == ts_kind(node@.0, node@.1, node@.2),
{
    node.node.kind().to_string()
}

/// `Node::child_count`: `ts_child_count` of the node.
#[verifier::external_body]
fn node_child_count(node: &TsNode) -> (r: u32)
    ensures
        r == ts_child_count(node@.0, node@.1, node@.2),
{
    node.node.child_count()
}

/// `Node::child`: the `i`-th child, at the node's path extended by `i`; none exactly when
/// `i` is not below the child count.
#[verifier::external_body]
fn node_child<'t>(node: &TsNode<'t>, i: u32) -> (r: Option<TsNode<'t>>)
    ensures
        (r is Some) == (i < ts_child_count(node@.0, node@.1, node@.2)),
        r matches Some(c) ==> c@ == (node@.0, node@.1, node@.2.push(i)),
{
    match node.node.child(i) {
        Some(c) => Some(TsNode { node: c, language: Ghost(node.language@), source: Ghost(node.source@), path: Ghost(node.path@.push(i)) }),
        None => None,
    }
}

/// `Node::field_name_for_child`, as an owned string: `ts_field_name` of the node and `i`.
#[verifier::external_body]
fn node_field_name(node: &TsNode, i: u32) -> (r: Option<String>)
    ensures
        crate::extract::opt_view(r) == ts_field_name(node@.0, node@.1, node@.2, i),
{
    match node.node.field_name_for_child(i) {
        Some(name) => Some(name.to_string()),
        None => None,
    }
}

/// `Node::start_position().row`: `ts_row` of the node.
#[verifier::external_body]
fn node_row(node: &TsNode) -> (r: usize)
    ensures
        r == ts_row(node@.0, node@.1, node@.2),
{
    node.node.start_position().row
}

/// `Node::start_byte`: `ts_start_byte` of the node.
#[verifier::external_body]
fn node_start_byte(node: &TsNode) -> (r: usize)
    ensures
        r == ts_start_byte(node@.0, node@.1, node@.2),
{
    node.node.start_byte()
}

/// `Node::end_byte`: `ts_end_byte` of the node.
#[verifier::external_body]
fn node_end_byte(node: &TsNode) -> (r: usize)
    ensures
        r == ts_end_byte(node@.0, node@.1, node@.2),
{
    node.node.end_byte()
}

/// `Node::descendant_count`: `ts_descendant_count` of the node. Claimed besides: it is at
/// least one (the node) plus the counts of its children, since the subtree holds the node
/// and the subtrees of its children (`ts_node_descendant_count` counts the visible nodes
/// below it, which are those `Node::child` reaches).
#[verifier::external_body]
fn node_descendant_count(node: &TsNode) -> (r: usize)
    ensures
        r == ts_descendant_count(node@.0, node@.1, node@.2),
        r >= 1 + child_descendants(node@.0, node@.1, node@.2, ts_child_count(node@.0, node@.1, node@.2)),
{
    node.node.descendant_count()
}

/// The TypeScript grammar (`tree_sitter_typescript::LANGUAGE_TYPESCRIPT`), for `typescript`.
#[verifier::external_body]
fn typescript_language() -> (r: Grammar)
    ensures
        r@ == "typescript"@,
{
    Grammar { language: tree_sitter_typescript::LANGUAGE_TYPESCRIPT.into(), name: Ghost("typescript"@) }
}

/// The TSX grammar (`tree_sitter_typescript::LANGUAGE_TSX`), for `tsx`.
#[verifier::external_body]
fn tsx_language() -> (r: Grammar)
    ensures
        r@ == "tsx"@,
{
    Grammar { language: tree_sitter_typescript::LANGUAGE_TSX.into(), name: Ghost("tsx"@) }
}

/// The JavaScript grammar (`tree_sitter_javascript::LANGUAGE`), for `javascript`.
#[verifier::external_body]
fn javascript_language() -> (r: Grammar)
    ensures
        r@ == "javascript"@,
{
    Grammar { language: tree_sitter_javascript::LANGUAGE.into(), name: Ghost("javascript"@) }
}

/// The Rust grammar (`tree_sitter_rust::LANGUAGE`), for `rust`.
#[verifier::external_body]
fn rust_language() -> (r: Grammar)
    ensures
        r@ == "rust"@,
{
    Grammar { language: tree_sitter_rust::LANGUAGE.into(), name: Ghost("rust"@) }
}

/// The Ruby grammar (`tree_sitter_ruby::LANGUAGE`), for `ruby`.
#[verifier::external_body]
fn ruby_language() -> (r: Grammar)
    ensures
        r@ == "ruby"@,
{
    Grammar { language: tree_sitter_ruby::LANGUAGE.into(), name: Ghost("ruby"@) }
}

/// The Elixir grammar (`tree_sitter_elixir::LANGUAGE`), for `elixir`.
#[verifier::external_body]
fn elixir_language() -> (r: Grammar)
    ensures
        r@ == "elixir"@,
{
    Grammar { language: tree_sitter_elixir::LANGUAGE.into(), name: Ghost("elixir"@) }
}

/// The nodes copied so far hold together: child indices point further on and stay in
/// range, every row fits the source (`line_count` lines), and every text is a piece of
/// the source.
pub open spec fn partial_ok(nodes: Seq<SyntaxNode>, line_count: nat, source: Seq<char>) -> bool {
    &&& forall|n: int| 0 <= n < nodes.len() ==> #[trigger] nodes[n].row < usize::MAX && nodes[n].row <= line_count
    &&& forall|n: int, j: int| 0 <= n < nodes.len() && 0 <= j < nodes[n].children@.len()
        ==> n < #[trigger] nodes[n].children@[j] < nodes.len()
    &&& forall|n: int| 0 <= n < nodes.len() ==> span_text(#[trigger] nodes[n].text, source)
}

/// An optional node text that, when present, is the text of some byte range of `source`.
pub open spec fn span_text(text: Option<String>, source: Seq<char>) -> bool {
    text matches Some(x) ==> exists|a: nat, b: nat| #[trigger] crate::text::byte_span(source, a, b) == Some(x@)
}

/// Every node's text, when it has one, is the text of a byte range of `source`.
pub open spec fn texts_from(t: SyntaxTree, source: Seq<char>) -> bool {
    forall|n: int| 0 <= n < t.nodes@.len() ==> span_text(#[trigger] t.nodes@[n].text, source)
}

/// `path` leads from the root through existing children: each index is below the child
/// count of the node it is taken from.
pub open spec fn valid_path(language: Seq<char>, source: Seq<char>, path: Seq<u32>) -> bool {
    forall|k: int| 0 <= k < path.len() ==> #[trigger] path[k] < ts_child_count(language, source, path.take(k))
}

/// `p` starts `q`.
pub open spec fn path_prefix(p: Seq<u32>, q: Seq<u32>) -> bool {
    p.len() <= q.len() && q.take(p.len() as int) == p
}

/// The node at `path` starts on a line of a text of `line_count` lines.
pub open spec fn row_fits(language: Seq<char>, source: Seq<char>, path: Seq<u32>, line_count: nat) -> bool {
    ts_row(language, source, path) < usize::MAX && ts_row(language, source, path) <= line_count
}

/// Every node in the subtree at `path` starts on a line of a text of `line_count` lines.
pub open spec fn rows_fit_below(language: Seq<char>, source: Seq<char>, path: Seq<u32>, line_count: nat) -> bool {
    forall|q: Seq<u32>| #[trigger] valid_path(language, source, q) && path_prefix(path, q) ==> row_fits(language, source, q, line_count)
}

/// Every node of the tree tree-sitter builds for `source` starts on a line of `source`.
pub open spec fn rows_fit(language: Seq<char>, source: Seq<char>) -> bool {
    rows_fit_below(language, source, Seq::<u32>::empty(), crate::text::lines(source).len())
}

/// A tree tree-sitter builds for `source` with `language` can be copied: the text's
/// length in bytes fits a `usize` and every node starts on a line of the text.
pub open spec fn parse_fits(language: Seq<char>, source: Seq<char>) -> bool {
    crate::text::utf8_len(source) <= usize::MAX && rows_fit(language, source)
}

/// Node `n` of `nodes` is the node at `paths[n]` of the tree tree-sitter builds for
/// `source` with `language`: same kind, line and text (the source over its byte range),
/// and one child per child of that node, child `j` being the node at `paths[n]` extended
/// by `j`, under the field tree-sitter names for it.
pub open spec fn node_mirrors(nodes: Seq<SyntaxNode>, paths: Seq<Seq<u32>>, language: Seq<char>, source: Seq<char>, n: int) -> bool {
    let p = paths[n];
    &&& nodes[n].kind@ == ts_kind(language, source, p)
    &&& nodes[n].row == ts_row(language, source, p)
    &&& crate::extract::opt_view(nodes[n].text) == crate::text::byte_span(
        source,
        ts_start_byte(language, source, p),
        ts_end_byte(language, source, p),
    )
    &&& nodes[n].children@.len() == ts_child_count(language, source, p)
    &&& forall|j: int| 0 <= j < nodes[n].children@.len() ==> paths[#[trigger] nodes[n].children@[j] as int] == p.push(j as u32)
        && crate::extract::opt_view(nodes[nodes[n].children@[j] as int].field) == ts_field_name(language, source, p, j as u32)
}

/// `paths` gives, for each node of `t`, the node of tree-sitter's tree it copies; node 0
/// copies the root.
pub open spec fn mirrored_by(t: SyntaxTree, language: Seq<char>, source: Seq<char>, paths: Seq<Seq<u32>>) -> bool {
    &&& paths.len() == t.nodes@.len()
    &&& paths.len() > 0
    &&& paths[0] == Seq::<u32>::empty()
    &&& t.nodes@[0].field is None
    &&& forall|n: int| 0 <= n < t.nodes@.len() ==> #[trigger] node_mirrors(t.nodes@, paths, language, source, n)
}

/// `t` is a copy, node for node, of the tree tree-sitter builds for `source` with the
/// grammar for `language`.
pub open spec fn mirrors(t: SyntaxTree, language: Seq<char>, source: Seq<char>) -> bool {
    exists|paths: Seq<Seq<u32>>| #[trigger] mirrored_by(t, language, source, paths)
}

proof fn lemma_child_descendants_split(language: Seq<char>, source: Seq<char>, path: Seq<u32>, i: nat, k: nat)
    requires
        i < k,
    ensures
        child_descendants(language, source, path, k) >= child_descendants(language, source, path, i)
            + ts_descendant_count(language, source, path.push(i as u32)),
    decreases k,
{
    if k > i + 1 {
        lemma_child_descendants_split(language, source, path, i, (k - 1) as nat);
    }
}

proof fn lemma_valid_child(language: Seq<char>, source: Seq<char>, path: Seq<u32>, i: u32)
    requires
        valid_path(language, source, path),
        i < ts_child_count(language, source, path),
    ensures
        valid_path(language, source, path.push(i)),
{
    let q = path.push(i);
    assert forall|k: int| 0 <= k < q.len() implies #[trigger] q[k] < ts_child_count(language, source, q.take(k)) by {
        if k < path.len() {
            assert(q.take(k) =~= path.take(k));
            assert(q[k] == path[k]);
        } else {
            assert(q.take(k) =~= path);
        }
    }
}

proof fn lemma_rows_fit_child(language: Seq<char>, source: Seq<char>, path: Seq<u32>, i: u32, line_count: nat)
    requires
        rows_fit_below(language, source, path, line_count),
    ensures
        rows_fit_below(language, source, path.push(i), line_count),
{
    assert forall|q: Seq<u32>| #[trigger] valid_path(language, source, q) && path_prefix(path.push(i), q) implies row_fits(language, source, q, line_count) by {
        assert(q.take(path.len() as int) =~= q.take(path.len() + 1int).take(path.len() as int));
        assert(path.push(i).take(path.len() as int) =~= path);
        assert(path_prefix(path, q));
    }
}

/// Copied nodes keep copying the same tree-sitter nodes while they and their children are
/// left as they are.
proof fn lemma_mirrors_stable(
    nodes: Seq<SyntaxNode>,
    paths: Seq<Seq<u32>>,
    nodes2: Seq<SyntaxNode>,
    paths2: Seq<Seq<u32>>,
    language: Seq<char>,
    source: Seq<char>,
    lo: int,
    hi: int,
)
    requires
        0 <= lo <= hi <= nodes.len(),
        hi <= nodes2.len(),
        hi <= paths.len(),
        hi <= paths2.len(),
        forall|m: int| lo <= m < hi ==> #[trigger] nodes2[m] == nodes[m] && paths2[m] == paths[m],
        forall|n: int, j: int| lo <= n < hi && 0 <= j < nodes[n].children@.len() ==> n < #[trigger] nodes[n].children@[j] < hi,
        forall|n: int| lo <= n < hi ==> #[trigger] node_mirrors(nodes, paths, language, source, n),
    ensures
        forall|n: int| lo <= n < hi ==> #[trigger] node_mirrors(nodes2, paths2, language, source, n),
{
    assert forall|n: int| lo <= n < hi implies #[trigger] node_mirrors(nodes2, paths2, language, source, n) by {
        assert(node_mirrors(nodes, paths, language, source, n));
        assert(nodes2[n] == nodes[n] && paths2[n] == paths[n]);
        assert forall|j: int| 0 <= j < nodes2[n].children@.len() implies paths2[#[trigger] nodes2[n].children@[j] as int] == paths2[n].push(j as u32)
            && crate::extract::opt_view(nodes2[nodes2[n].children@[j] as int].field) == ts_field_name(language, source, paths2[n], j as u32) by {
            let c = nodes[n].children@[j] as int;
            assert(n < c < hi);
            assert(nodes2[c] == nodes[c] && paths2[c] == paths[c]);
        }
    }
}

/// Copies the subtree of `node` (sitting under `field` in its parent) into `nodes`, in
/// document order, its root first; `fuel` bounds the number of nodes copied. A node's
/// text is the source's characters over the node's byte range (`chars` being the source,
/// `offs` where its characters start). Gives the index of the copied root and the fuel
/// left, or none when the fuel ran out or a node starts past the last line; and the
/// path of the tree-sitter node each node of `nodes` copies.
#[verifier::spinoff_prover]
#[verifier::rlimit(60)]
fn copy_subtree(
    node: &TsNode,
    field: Option<String>,
    chars: &Vec<char>,
    offs: &Vec<usize>,
    line_count: usize,
    nodes: &mut Vec<SyntaxNode>,
    fuel: usize,
    Ghost(paths0): Ghost<Seq<Seq<u32>>>,
) -> (r: (Option<(usize, usize)>, Ghost<Seq<Seq<u32>>>))
    requires
        offs@.len() == chars@.len() + 1,
        forall|k: int| 0 <= k <= chars@.len() ==> #[trigger] offs@[k] == crate::text::utf8_len(chars@.take(k)),
        chars@ == node@.1,
        partial_ok(old(nodes)@, line_count as nat, chars@),
        paths0.len() == old(nodes)@.len(),
        valid_path(node@.0, node@.1, node@.2),
    ensures
        partial_ok(final(nodes)@, line_count as nat, chars@),
        final(nodes)@.len() >= old(nodes)@.len(),
        final(nodes)@.take(old(nodes)@.len() as int) == old(nodes)@,
        r.1@.len() == final(nodes)@.len(),
        r.1@.take(old(nodes)@.len() as int) == paths0,
        r.0 matches Some((idx, rest)) ==> idx == old(nodes)@.len() && idx < final(nodes)@.len() && rest < fuel
            && r.1@[idx as int] == node@.2 && final(nodes)@[idx as int].field == field
            && forall|n: int| old(nodes)@.len() <= n < final(nodes)@.len() ==> #[trigger] node_mirrors(final(nodes)@, r.1@, node@.0, node@.1, n),
        fuel >= ts_descendant_count(node@.0, node@.1, node@.2) && rows_fit_below(node@.0, node@.1, node@.2, line_count as nat)
            ==> (r.0 matches Some((idx, rest)) && rest + ts_descendant_count(node@.0, node@.1, node@.2) >= fuel),
    decreases fuel,
{
    let ghost l = node@.0;
    let ghost src = node@.1;
    let ghost p = node@.2;
    let ghost ok = fuel >= ts_descendant_count(l, src, p) && rows_fit_below(l, src, p, line_count as nat);
    let desc = node_descendant_count(node);
    proof {
        assert(old(nodes)@.take(old(nodes)@.len() as int) =~= old(nodes)@);
        assert(paths0.take(paths0.len() as int) =~= paths0);
        if ok {
            assert(path_prefix(p, p)) by {
                assert(p.take(p.len() as int) =~= p);
            }
            assert(row_fits(l, src, p, line_count as nat));
        }
    }
    if fuel == 0 {
        return (None, Ghost(paths0));
    }
    let row = node_row(node);
    if row == usize::MAX || row > line_count {
        return (None, Ghost(paths0));
    }
    let idx = nodes.len();
    let kind = node_kind(node);
    let start = node_start_byte(node);
    let end = node_end_byte(node);
    let text = match crate::text::byte_span_chars(chars, offs, start, end) {
        Some(cs) => Some(crate::text::string_of(&cs)),
        None => None,
    };
    proof {
        if text is Some {
            assert(crate::text::byte_span(chars@, start as nat, end as nat) == Some(text->0@));
        }
    }
    let placeholder = SyntaxNode { kind: String::new(), text: None, row, field: None, children: Vec::new() };
    let ghost ph = placeholder;
    nodes.push(placeholder);
    let ghost mut paths = paths0.push(p);
    proof {
        assert forall|n: int, j: int| 0 <= n < nodes@.len() && 0 <= j < nodes@[n].children@.len()
            implies n < #[trigger] nodes@[n].children@[j] < nodes@.len() by {
            if n < idx {
                assert(nodes@[n] == old(nodes)@[n]);
            }
        }
        assert forall|n: int| 0 <= n < nodes@.len() implies #[trigger] nodes@[n].row < usize::MAX && nodes@[n].row <= line_count by {
            if n < idx {
                assert(nodes@[n] == old(nodes)@[n]);
            }
        }
        assert forall|n: int| 0 <= n < nodes@.len() implies span_text(#[trigger] nodes@[n].text, chars@) by {
            if n < idx {
                assert(nodes@[n] == old(nodes)@[n]);
            }
        }
        assert(nodes@.take(idx as int) =~= old(nodes)@);
        assert(paths.take(idx as int) =~= paths0);
    }
    let count = node_child_count(node);
    let mut kids: Vec<usize> = Vec::new();
    let mut left: usize = fuel - 1;
    let mut i: u32 = 0;
    while i < count
        invariant
            offs@.len() == chars@.len() + 1,
            forall|k: int| 0 <= k <= chars@.len() ==> #[trigger] offs@[k] == crate::text::utf8_len(chars@.take(k)),
            chars@ == src,
            node@ == (l, src, p),
            valid_path(l, src, p),
            span_text(text, chars@),
            partial_ok(nodes@, line_count as nat, chars@),
            idx < nodes@.len(),
            idx == old(nodes)@.len(),
            nodes@.take(idx as int) == old(nodes)@,
            nodes@[idx as int] == ph,
            paths.len() == nodes@.len(),
            paths.take(idx as int) == paths0,
            paths[idx as int] == p,
            count == ts_child_count(l, src, p),
            i <= count,
            kids@.len() == i,
            left < fuel,
            desc == ts_descendant_count(l, src, p),
            desc >= 1 + child_descendants(l, src, p, count as nat),
            ok == (fuel >= desc && rows_fit_below(l, src, p, line_count as nat)),
            ok ==> left + child_descendants(l, src, p, i as nat) >= fuel - 1,
            forall|j: int| 0 <= j < kids@.len() ==> idx < #[trigger] kids@[j] < nodes@.len() && paths[kids@[j] as int] == p.push(j as u32)
                && crate::extract::opt_view(nodes@[kids@[j] as int].field) == ts_field_name(l, src, p, j as u32),
            forall|n: int| idx < n < nodes@.len() ==> #[trigger] node_mirrors(nodes@, paths, l, src, n),
        decreases count - i,
    {
        let c = match node_child(node, i) {
            Some(c) => c,
            None => {
                proof {
                    assert(false);
                }
                return (None, Ghost(paths));
            },
        };
        let f = node_field_name(node, i);
        let ghost len0 = nodes@.len();
        let ghost nb = nodes@;
        let ghost pb = paths;
        proof {
            lemma_valid_child(l, src, p, i);
            if ok {
                lemma_rows_fit_child(l, src, p, i, line_count as nat);
                lemma_child_descendants_split(l, src, p, i as nat, count as nat);
            }
        }
        let (res, Ghost(np)) = copy_subtree(&c, f, chars, offs, line_count, nodes, left, Ghost(paths));
        match res {
            Some((cidx, rest)) => {
                proof {
                    assert forall|m: int| 0 <= m < len0 implies #[trigger] nodes@[m] == nb[m] && np[m] == pb[m] by {
                        assert(nodes@.take(len0 as int)[m] == nodes@[m]);
                        assert(np.take(len0 as int)[m] == np[m]);
                    }
                    lemma_mirrors_stable(nb, pb, nodes@, np, l, src, idx + 1, len0 as int);
                    assert(nodes@.take(idx as int) =~= old(nodes)@) by {
                        assert forall|m: int| 0 <= m < idx implies nodes@.take(idx as int)[m] == old(nodes)@[m] by {
                            assert(nb.take(idx as int)[m] == old(nodes)@[m]);
                        }
                    }
                    assert(np.take(idx as int) =~= paths0) by {
                        assert forall|m: int| 0 <= m < idx implies np.take(idx as int)[m] == paths0[m] by {
                            assert(pb.take(idx as int)[m] == paths0[m]);
                        }
                    }
                }
                let ghost kb = kids@;
                kids.push(cidx);
                left = rest;
                proof {
                    paths = np;
                    assert forall|j: int| 0 <= j < kids@.len() implies idx < #[trigger] kids@[j] < nodes@.len() && paths[kids@[j] as int] == p.push(j as u32)
                        && crate::extract::opt_view(nodes@[kids@[j] as int].field) == ts_field_name(l, src, p, j as u32) by {
                        if j < kb.len() {
                            assert(kids@[j] == kb[j]);
                        }
                    }
                    assert forall|n: int| idx < n < nodes@.len() implies #[trigger] node_mirrors(nodes@, paths, l, src, n) by {
                        if n >= len0 {
                        }
                    }
                }
            },
            None => {
                return (None, Ghost(np));
            },
        }
        i += 1;
    }
    let ghost before = nodes@;
    let node_now = SyntaxNode { kind, text, row, field, children: kids };
    nodes.set(idx, node_now);
    proof {
        assert forall|m: int| idx + 1 <= m < nodes@.len() implies #[trigger] nodes@[m] == before[m] && paths[m] == paths[m] by {}
        lemma_mirrors_stable(before, paths, nodes@, paths, l, src, idx + 1, nodes@.len() as int);
        assert(node_mirrors(nodes@, paths, l, src, idx as int));
        assert forall|n: int, j: int| 0 <= n < nodes@.len() && 0 <= j < nodes@[n].children@.len()
            implies n < #[trigger] nodes@[n].children@[j] < nodes@.len() by {
            if n != idx {
                assert(nodes@[n] == before[n]);
            }
        }
        assert forall|n: int| 0 <= n < nodes@.len() implies #[trigger] nodes@[n].row < usize::MAX && nodes@[n].row <= line_count by {
            if n != idx {
                assert(nodes@[n] == before[n]);
            }
        }
        assert forall|n: int| 0 <= n < nodes@.len() implies span_text(#[trigger] nodes@[n].text, chars@) by {
            if n != idx {
                assert(nodes@[n] == before[n]);
            }
        }
        assert(nodes@.take(idx as int) =~= before.take(idx as int));
        assert(paths.take(idx as int) == paths0);
    }
    (Some((idx, left)), Ghost(paths))
}

/// Each path through existing children leads to a copied node.
proof fn lemma_path_copied(t: SyntaxTree, language: Seq<char>, source: Seq<char>, paths: Seq<Seq<u32>>, q: Seq<u32>)
    requires
        mirrored_by(t, language, source, paths),
        well_formed(t),
        valid_path(language, source, q),
    ensures
        exists|n: int| 0 <= n < t.nodes@.len() && #[trigger] paths[n] == q,
    decreases q.len(),
{
    if q.len() == 0 {
        assert(paths[0] == q);
    } else {
        let q0 = q.drop_last();
        let i = q.last();
        assert forall|k: int| 0 <= k < q0.len() implies #[trigger] q0[k] < ts_child_count(language, source, q0.take(k)) by {
            assert(q0.take(k) =~= q.take(k));
            assert(q0[k] == q[k]);
            assert(q[k] < ts_child_count(language, source, q.take(k)));
        }
        lemma_path_copied(t, language, source, paths, q0);
        let n0 = choose|n: int| 0 <= n < t.nodes@.len() && #[trigger] paths[n] == q0;
        assert(node_mirrors(t.nodes@, paths, language, source, n0));
        assert(q.take(q.len() - 1) =~= q0);
        assert(i < ts_child_count(language, source, q.take(q.len() - 1)));
        let c = t.nodes@[n0].children@[i as int] as int;
        assert(paths[c] == q0.push(i as u32));
        assert(q0.push(i) =~= q);
        assert(n0 < c < t.nodes@.len());
    }
}

/// The syntax tree tree-sitter builds for `source` with `language`, copied as plain
/// values: node for node, with texts taken from the source. None when the source's length
/// in bytes does not fit a `usize` or a node starts past the last line.
fn copy_tree(tree: &TsTree, source: &str) -> (r: Option<SyntaxTree>)
    requires
        tree@.1 == source@,
    ensures
        r matches Some(t) ==> well_formed(t) && fits_source(t, source@) && texts_from(t, source@) && mirrors(t, tree@.0, source@),
        (r is Some) == parse_fits(tree@.0, source@),
{
    let text = crate::text::chars_of(source);
    let offs = match crate::text::char_starts(&text) {
        Some(o) => o,
        None => {
            return None;
        },
    };
    let ls = crate::text::split_lines(&text);
    let line_count = ls.len();
    assert(crate::order::views(ls@).len() == crate::text::lines(source@).len());
    let root = root_of(tree);
    let fuel = node_descendant_count(&root);
    let mut nodes: Vec<SyntaxNode> = Vec::new();
    proof {
        assert(valid_path(tree@.0, source@, Seq::<u32>::empty()));
    }
    let (res, Ghost(paths)) = copy_subtree(&root, None, &text, &offs, line_count, &mut nodes, fuel, Ghost(Seq::empty()));
    match res {
        Some(_) => {
            let t = SyntaxTree { nodes };
            proof {
                assert forall|n: int| 0 <= n < t.nodes@.len() implies #[trigger] t.nodes@[n].row < usize::MAX by {
                    assert(t.nodes@[n].row < usize::MAX && t.nodes@[n].row <= line_count);
                }
                assert forall|n: int| 0 <= n < t.nodes@.len() implies #[trigger] t.nodes@[n].row <= crate::text::lines(source@).len() by {
                    assert(t.nodes@[n].row < usize::MAX && t.nodes@[n].row <= line_count);
                }
                assert(mirrored_by(t, tree@.0, source@, paths));
                assert forall|q: Seq<u32>| #[trigger] valid_path(tree@.0, source@, q) && path_prefix(Seq::<u32>::empty(), q)
                    implies row_fits(tree@.0, source@, q, crate::text::lines(source@).len()) by {
                    lemma_path_copied(t, tree@.0, source@, paths, q);
                    let n = choose|n: int| 0 <= n < t.nodes@.len() && #[trigger] paths[n] == q;
                    assert(node_mirrors(t.nodes@, paths, tree@.0, source@, n));
                    assert(t.nodes@[n].row < usize::MAX && t.nodes@[n].row <= line_count);
                }
            }
            Some(t)
        },
        None => None,
    }
}

/// The languages tree-sitter has a grammar for here: `typescript`, `tsx`, `javascript`,
/// `rust`, `ruby` and `elixir`.
pub open spec fn has_grammar(language: Seq<char>) -> bool {
    ||| language == "typescript"@
    ||| language == "tsx"@
    ||| language == "javascript"@
    ||| language == "rust"@
    ||| language == "ruby"@
    ||| language == "elixir"@
}

/// Why parsing a text failed.
pub enum ParseError {
    /// No grammar for the language.
    UnknownLanguage,
    /// The parser refused the grammar; its message.
    Language(String),
    /// The parser built no tree, or one that cannot be copied (a node past the last line).
    NoTree,
}

/// Parses `source` as `language` with tree-sitter and copies the tree. Fails for a
/// language without a grammar, and where tree-sitter refuses the grammar; otherwise gives
/// the copy of the tree tree-sitter builds, whenever that tree fits the text.
pub fn parse_syntax(language: &str, source: &str) -> (r: Result<SyntaxTree, ParseError>)
    ensures
        !has_grammar(language@) <==> r matches Err(ParseError::UnknownLanguage),
        has_grammar(language@) ==> ((r matches Err(ParseError::Language(_))) <==> !ts_accepts(language@)),
        has_grammar(language@) && ts_accepts(language@) ==> ((r is Ok) <==> parse_fits(language@, source@)),
        r matches Ok(t) ==> well_formed(t) && fits_source(t, source@) && texts_from(t, source@)
            && mirrors(t, language@, source@),
{
    let grammar = if crate::syntax::same_text(language, "typescript") {
        typescript_language()
    } else if crate::syntax::same_text(language, "tsx") {
        tsx_language()
    } else if crate::syntax::same_text(language, "javascript") {
        javascript_language()
    } else if crate::syntax::same_text(language, "rust") {
        rust_language()
    } else if crate::syntax::same_text(language, "ruby") {
        ruby_language()
    } else if crate::syntax::same_text(language, "elixir") {
        elixir_language()
    } else {
        return Err(ParseError::UnknownLanguage);
    };
    let mut parser = new_parser();
    match set_parser_language(&mut parser, &grammar) {
        Ok(()) => {},
        Err(e) => {
            return Err(ParseError::Language(e));
        },
    }
    let tree = match parse_text(&mut parser, source) {
        Some(t) => t,
        None => {
            return Err(ParseError::NoTree);
        },
    };
    match copy_tree(&tree, source) {
        Some(t) => Ok(t),
        None => Err(ParseError::NoTree),
    }
}

} // verus!
