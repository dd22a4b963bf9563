use cartographer::constants::{is_skip_dir, is_supported_extension, language_config};
use cartographer::indexer::{
    classify_entry, diff_git_status, diff_statuses, hash_unchanged, parse_git_status, parse_numstat, searchable_text,
    tally_outcomes, IndexOutcome, WalkAction,
};
use cartographer::paths::dotted_extension_string;
use cartographer::types::{Symbol, SymbolKind, Visibility};

fn rows(v: &[(&str, &str)]) -> Vec<(String, String)> {
    v.iter().map(|(a, b)| (a.to_string(), b.to_string())).collect()
}

#[test]
fn languages_by_extension() {
    assert_eq!(language_config(".ts").unwrap().language, "typescript");
    assert_eq!(language_config(".tsx").unwrap().language, "tsx");
    assert_eq!(language_config(".mjs").unwrap().language, "javascript");
    assert_eq!(language_config(".rs").unwrap().language, "rust");
    assert_eq!(language_config(".exs").unwrap().language, "elixir");
    assert!(language_config(".py").is_none());
    assert!(is_supported_extension(".rb"));
    assert!(!is_supported_extension("rb"));
    assert!(is_skip_dir("node_modules"));
    assert!(!is_skip_dir("src"));
}

#[test]
fn dotted_extensions() {
    assert_eq!(dotted_extension_string("/a/b.test.ts"), ".ts");
    assert_eq!(dotted_extension_string("/a/.bashrc"), "");
    assert_eq!(dotted_extension_string("/a/noext"), "");
    assert_eq!(dotted_extension_string("/a/b.rs/"), ".rs");
}

#[test]
fn numstat_lines() {
    let out = "3\t1\tsrc/a.ts\n-\t-\timg.png\nbad line\n10\t0\tb.rs\n";
    assert_eq!(
        parse_numstat(out),
        vec![
            ("3".to_string(), "1".to_string(), "src/a.ts".to_string()),
            ("10".to_string(), "0".to_string(), "b.rs".to_string()),
        ]
    );
}

#[test]
fn porcelain_status() {
    let raw = " M src/a.ts\n?? notes.txt\nD  old.rs\nA  new.tsx\nM  src/a.ts\n\nab\n";
    let mut got = parse_git_status("/p", raw);
    got.sort();
    assert_eq!(
        got,
        rows(&[("/p/new.tsx", "A"), ("/p/old.rs", "D"), ("/p/src/a.ts", "M")])
    );
}

#[test]
fn status_diff_with_presence() {
    let last = rows(&[("/p/a.ts", "M"), ("/p/b.ts", "M"), ("/p/c.ts", "A")]);
    let current = rows(&[("/p/a.ts", "M"), ("/p/c.ts", "M"), ("/p/d.ts", "D"), ("/p/e.ts", "D ")]);
    let (modified, deleted) = diff_statuses(&last, &current, &vec![true, false, true]);
    assert_eq!(modified, vec!["/p/c.ts".to_string()]);
    assert_eq!(deleted, vec!["/p/d.ts".to_string(), "/p/e.ts".to_string(), "/p/b.ts".to_string()]);
}

#[test]
fn status_diff_on_disk() {
    let last = rows(&[("/nonexistent/cartographer/x.ts", "M")]);
    let current = rows(&[("/p/new.ts", "??")]);
    let (modified, deleted, answers) = diff_git_status(&last, &current);
    assert_eq!(modified, vec!["/p/new.ts".to_string()]);
    assert_eq!(deleted, vec!["/nonexistent/cartographer/x.ts".to_string()]);
    assert_eq!(answers.len(), 1);
    assert!(!answers[0].as_ref().unwrap().present());
}

#[test]
fn walk_decisions() {
    assert_eq!(classify_entry("src", "/p/src", true, false), WalkAction::Descend);
    assert_eq!(classify_entry("node_modules", "/p/node_modules", true, false), WalkAction::Skip);
    assert_eq!(classify_entry(".hidden", "/p/.hidden", true, false), WalkAction::Skip);
    assert_eq!(classify_entry("a.ts", "/p/a.ts", false, true), WalkAction::Index);
    assert_eq!(classify_entry("a.py", "/p/a.py", false, true), WalkAction::Skip);
    assert_eq!(classify_entry("a.ts", "/p/a.ts", false, false), WalkAction::Skip);
}

#[test]
fn searchable_text_joins_names() {
    let s = |n: &str| Symbol {
        name: n.to_string(),
        kind: SymbolKind::Function,
        signature: String::new(),
        doc_comment: None,
        visibility: Visibility::Private,
        line: 1,
    };
    let (names, text) = searchable_text("/p/a.ts", &vec![s("foo"), s("Bar")]);
    assert_eq!(names, "foo Bar");
    assert_eq!(text, "/p/a.ts foo Bar");
    let (names, text) = searchable_text("/p/b.ts", &Vec::new());
    assert_eq!(names, "");
    assert_eq!(text, "/p/b.ts ");
}

#[test]
fn unchanged_hash_skips_the_file() {
    assert!(hash_unchanged(&Some("abc".to_string()), "abc"));
    assert!(!hash_unchanged(&Some("abc".to_string()), "abd"));
    assert!(!hash_unchanged(&None, "abc"));
}

#[test]
fn outcomes_are_counted_by_kind() {
    let o = vec![
        IndexOutcome::Removed,
        IndexOutcome::Indexed,
        IndexOutcome::Failed,
        IndexOutcome::Indexed,
        IndexOutcome::Removed,
        IndexOutcome::Indexed,
    ];
    assert_eq!(tally_outcomes(&o), (3, 2, 1));
    assert_eq!(tally_outcomes(&Vec::new()), (0, 0, 0));
}

#[test]
fn no_file_is_both_parsed_again_and_dropped() {
    let last = rows(&[("/p/a.ts", "M"), ("/p/b.ts", "M"), ("/p/gone.ts", "M")]);
    let current = rows(&[("/p/a.ts", "D"), ("/p/b.ts", "A"), ("/p/c.ts", "D ")]);
    let (modified, deleted) = diff_statuses(&last, &current, &vec![true, true, false]);
    assert_eq!(modified, vec!["/p/b.ts".to_string()]);
    assert_eq!(deleted, vec!["/p/a.ts".to_string(), "/p/c.ts".to_string(), "/p/gone.ts".to_string()]);
    assert!(modified.iter().all(|f| !deleted.contains(f)));
}
