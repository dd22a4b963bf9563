use cartographer::graph::{
    find_cycles, relevant_file, resolve_entry_points, walk_import_graph, GraphEdge, Reason,
};
use cartographer::types::{RelevantFile, Symbol, SymbolKind, Visibility};

fn edge(source: &str, target: &str) -> GraphEdge {
    GraphEdge { source: source.to_string(), target: target.to_string() }
}

fn make_symbol(name: &str, kind: SymbolKind) -> Symbol {
    Symbol {
        name: name.to_string(),
        kind,
        signature: format!("fn {name}()"),
        doc_comment: None,
        visibility: Visibility::Exported,
        line: 1,
    }
}

/// A diamond-shaped graph:
///   A → B → D
///   A → C → D
fn seed_diamond() -> Vec<GraphEdge> {
    vec![
        edge("/proj/a.ts", "/proj/b.ts"),
        edge("/proj/a.ts", "/proj/c.ts"),
        edge("/proj/b.ts", "/proj/d.ts"),
        edge("/proj/c.ts", "/proj/d.ts"),
    ]
}

/// Walks the graph and reports each file reached, with the symbols `symbols_of` gives it.
fn walk(
    project: &str,
    edges: &Vec<GraphEdge>,
    entries: &[&str],
    max_depth: Option<i64>,
    max_results: Option<i64>,
    symbols_of: &dyn Fn(&str) -> Vec<Symbol>,
) -> Vec<RelevantFile> {
    let entries: Vec<String> = entries.iter().map(|e| e.to_string()).collect();
    walk_import_graph(&entries, edges, max_depth, max_results)
        .iter()
        .map(|e| relevant_file(project, e, symbols_of(&e.path)))
        .collect()
}

fn no_symbols(_: &str) -> Vec<Symbol> {
    Vec::new()
}

#[test]
fn test_graph_walk_entry_only() {
    let edges = seed_diamond();
    let results = walk("/proj", &edges, &["/proj/a.ts"], Some(0), Some(20), &no_symbols);

    assert_eq!(results.len(), 1);
    assert_eq!(results[0].file_path, "/proj/a.ts");
    assert_eq!(results[0].reason, "entry");
    assert_eq!(results[0].depth, 0);
}

#[test]
fn test_graph_walk_depth_1() {
    let edges = seed_diamond();
    let results = walk("/proj", &edges, &["/proj/a.ts"], Some(1), Some(20), &no_symbols);

    assert_eq!(results.len(), 3);

    let entry = results.iter().find(|r| r.reason == "entry").unwrap();
    assert_eq!(entry.file_path, "/proj/a.ts");

    let deps: Vec<&str> = results
        .iter()
        .filter(|r| r.reason == "dependency")
        .map(|r| r.file_path.as_str())
        .collect();
    assert!(deps.contains(&"/proj/b.ts"));
    assert!(deps.contains(&"/proj/c.ts"));
}

#[test]
fn test_graph_walk_depth_2_reaches_d() {
    let edges = seed_diamond();
    let results = walk("/proj", &edges, &["/proj/a.ts"], Some(2), Some(20), &no_symbols);

    assert_eq!(results.len(), 4);
    let d = results.iter().find(|r| r.file_path == "/proj/d.ts").unwrap();
    assert_eq!(d.reason, "dependency");
    assert_eq!(d.depth, 2);
}

#[test]
fn test_graph_walk_dependents() {
    let edges = seed_diamond();
    let results = walk("/proj", &edges, &["/proj/d.ts"], Some(1), Some(20), &no_symbols);

    assert_eq!(results.len(), 3);
    let dependents: Vec<&str> = results
        .iter()
        .filter(|r| r.reason == "dependent")
        .map(|r| r.file_path.as_str())
        .collect();
    assert!(dependents.contains(&"/proj/b.ts"));
    assert!(dependents.contains(&"/proj/c.ts"));
}

#[test]
fn test_graph_walk_bidirectional() {
    let edges = seed_diamond();
    let results = walk("/proj", &edges, &["/proj/b.ts"], Some(1), Some(20), &no_symbols);

    let paths: Vec<&str> = results.iter().map(|r| r.file_path.as_str()).collect();
    assert!(paths.contains(&"/proj/b.ts"));
    assert!(paths.contains(&"/proj/a.ts"));
    assert!(paths.contains(&"/proj/d.ts"));
}

#[test]
fn test_graph_walk_max_results_limit() {
    let edges = seed_diamond();
    let results = walk("/proj", &edges, &["/proj/a.ts"], Some(5), Some(2), &no_symbols);

    assert_eq!(results.len(), 2);
}

#[test]
fn test_graph_walk_empty_entry_points() {
    let edges: Vec<GraphEdge> = Vec::new();
    let results = walk("/proj", &edges, &[], Some(2), Some(20), &no_symbols);
    assert!(results.is_empty());
}

#[test]
fn test_graph_walk_relative_path() {
    let edges: Vec<GraphEdge> = Vec::new();
    let results = walk("/proj", &edges, &["/proj/src/a.ts"], Some(0), Some(20), &no_symbols);

    assert_eq!(results[0].relative_path, "src/a.ts");
}

#[test]
fn test_graph_walk_preserves_symbols() {
    let edges: Vec<GraphEdge> = Vec::new();
    let symbols_of = |path: &str| -> Vec<Symbol> {
        if path == "/p/a.ts" {
            vec![make_symbol("validate", SymbolKind::Function), make_symbol("Config", SymbolKind::Interface)]
        } else {
            Vec::new()
        }
    };
    let results = walk("/p", &edges, &["/p/a.ts"], Some(0), Some(20), &symbols_of);

    assert_eq!(results[0].symbols.len(), 2);
    assert!(results[0].symbols.iter().any(|s| s.name == "validate"));
    assert!(results[0].symbols.iter().any(|s| s.name == "Config"));
}

#[test]
fn test_find_cycles_simple() {
    let edges = vec![edge("/p/a.ts", "/p/b.ts"), edge("/p/b.ts", "/p/c.ts"), edge("/p/c.ts", "/p/a.ts")];

    let cycles = find_cycles(&edges);
    assert_eq!(cycles.len(), 1);
    assert_eq!(cycles[0].len(), 4);
    assert_eq!(cycles[0].first(), cycles[0].last());
}

#[test]
fn test_find_cycles_none() {
    let edges = seed_diamond();
    let cycles = find_cycles(&edges);
    assert!(cycles.is_empty());
}

#[test]
fn test_find_cycles_self_loop() {
    let edges = vec![edge("/p/a.ts", "/p/a.ts")];

    let cycles = find_cycles(&edges);
    assert_eq!(cycles.len(), 1);
}

#[test]
fn walk_defaults_reach_two_hops() {
    let edges = vec![edge("/p/a", "/p/b"), edge("/p/b", "/p/c"), edge("/p/c", "/p/d")];
    let entries = vec!["/p/a".to_string()];
    let r = walk_import_graph(&entries, &edges, None, None);
    let got: Vec<(&str, usize)> = r.iter().map(|e| (e.path.as_str(), e.depth)).collect();
    assert_eq!(got, vec![("/p/a", 0), ("/p/b", 1), ("/p/c", 2)]);
    assert_eq!(r[1].reason, Reason::Dependency);
}

#[test]
fn walk_keeps_first_reason_and_depth() {
    let edges = vec![edge("/p/a", "/p/b"), edge("/p/b", "/p/a")];
    let entries = vec!["/p/a".to_string(), "/p/a".to_string()];
    let r = walk_import_graph(&entries, &edges, Some(3), Some(10));
    assert_eq!(r.len(), 2);
    assert_eq!(r[0].reason, Reason::Entry);
    assert_eq!(r[1].path, "/p/b");
    assert_eq!(r[1].reason, Reason::Dependency);
}

#[test]
fn cycles_are_rotated_to_their_smallest_file() {
    let edges = vec![edge("/p/b", "/p/c"), edge("/p/c", "/p/a"), edge("/p/a", "/p/b")];
    let cycles = find_cycles(&edges);
    assert_eq!(cycles, vec![vec!["/p/a".to_string(), "/p/b".to_string(), "/p/c".to_string(), "/p/a".to_string()]]);
}

#[test]
fn two_cycles_through_one_file() {
    let edges = vec![edge("/p/a", "/p/b"), edge("/p/b", "/p/a"), edge("/p/a", "/p/c"), edge("/p/c", "/p/a")];
    let cycles = find_cycles(&edges);
    assert_eq!(cycles.len(), 2);
    assert!(cycles.contains(&vec!["/p/a".to_string(), "/p/b".to_string(), "/p/a".to_string()]));
    assert!(cycles.contains(&vec!["/p/a".to_string(), "/p/c".to_string(), "/p/a".to_string()]));
}

#[test]
fn relevant_file_reports_reason_and_relative_path() {
    let e = cartographer::graph::WalkEntry { path: "/proj/src/x.ts".to_string(), depth: 1, reason: Reason::Dependent };
    let f = relevant_file("/proj", &e, Vec::new());
    assert_eq!(f.relative_path, "src/x.ts");
    assert_eq!(f.reason, "dependent");
    assert_eq!(f.depth, 1);
}

#[test]
fn entry_points_expand_search_terms() {
    let entries = vec!["/abs/a.ts".to_string(), "auth".to_string()];
    let found = vec![vec!["ignored".to_string()], vec!["/p/auth.ts".to_string(), "/p/auth/mw.ts".to_string()]];
    let r = resolve_entry_points(&entries, &found);
    assert_eq!(r, vec!["/abs/a.ts".to_string(), "/p/auth.ts".to_string(), "/p/auth/mw.ts".to_string()]);
}

#[test]
fn truncated_walk_keeps_every_closer_file() {
    let edges = vec![
        edge("/p/a", "/p/b"),
        edge("/p/a", "/p/c"),
        edge("/p/b", "/p/d"),
        edge("/p/c", "/p/e"),
    ];
    let entries = vec!["/p/a".to_string()];
    let r = walk_import_graph(&entries, &edges, Some(5), Some(4));
    assert_eq!(r.len(), 4);
    let last = r[3].depth;
    assert_eq!(last, 2);
    let kept: Vec<&str> = r.iter().map(|e| e.path.as_str()).collect();
    for p in ["/p/a", "/p/b", "/p/c"] {
        assert!(kept.contains(&p));
    }
    assert!(r.iter().all(|e| e.depth <= last));
}

#[test]
fn self_import_and_mutual_import_are_both_reported() {
    let edges = vec![edge("/p/b", "/p/a"), edge("/p/a", "/p/a"), edge("/p/a", "/p/b")];
    let cycles = find_cycles(&edges);
    assert_eq!(cycles.len(), 2);
    assert!(cycles.contains(&vec!["/p/a".to_string(), "/p/a".to_string()]));
    assert!(cycles.contains(&vec!["/p/a".to_string(), "/p/b".to_string(), "/p/a".to_string()]));
}

#[test]
fn walk_depths_are_hop_distances() {
    let edges = vec![edge("/p/a", "/p/b"), edge("/p/b", "/p/c"), edge("/p/a", "/p/c"), edge("/p/d", "/p/c")];
    let entries = vec!["/p/a".to_string()];
    let r = walk_import_graph(&entries, &edges, Some(5), Some(20));
    let depth_of = |p: &str| r.iter().find(|e| e.path == p).map(|e| e.depth);
    assert_eq!(depth_of("/p/a"), Some(0));
    assert_eq!(depth_of("/p/b"), Some(1));
    assert_eq!(depth_of("/p/c"), Some(1));
    assert_eq!(depth_of("/p/d"), Some(2));
    assert_eq!(r.len(), 4);
}

#[test]
fn every_simple_cycle_is_reported_once() {
    let edges = vec![
        edge("/p/a", "/p/b"),
        edge("/p/a", "/p/c"),
        edge("/p/b", "/p/a"),
        edge("/p/b", "/p/c"),
        edge("/p/c", "/p/a"),
        edge("/p/c", "/p/b"),
    ];
    let cycles = find_cycles(&edges);
    assert_eq!(cycles.len(), 5);
    let c = |xs: &[&str]| xs.iter().map(|x| format!("/p/{x}")).collect::<Vec<String>>();
    for expected in [c(&["a", "b", "a"]), c(&["a", "c", "a"]), c(&["b", "c", "b"]), c(&["a", "b", "c", "a"]), c(&["a", "c", "b", "a"])] {
        assert!(cycles.contains(&expected));
    }
}

#[test]
fn walk_reason_comes_from_the_first_file_next_to_it() {
    // c imports a and is imported by b; a is expanded first, so c is a dependent.
    let edges = vec![edge("/p/c", "/p/a"), edge("/p/a", "/p/b"), edge("/p/b", "/p/c"), edge("/p/b", "/p/a")];
    let entries = vec!["/p/a".to_string()];
    let r = walk_import_graph(&entries, &edges, Some(3), Some(10));
    let got: Vec<(&str, usize, Reason)> = r.iter().map(|e| (e.path.as_str(), e.depth, e.reason)).collect();
    assert_eq!(
        got,
        vec![("/p/a", 0, Reason::Entry), ("/p/b", 1, Reason::Dependency), ("/p/c", 1, Reason::Dependent)]
    );
}
