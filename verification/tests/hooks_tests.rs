use cartographer::mentions::extract_file_mentions;

#[test]
fn test_extract_file_mentions_basic() {
    let mentions = extract_file_mentions("look at src/main.rs and src/server.rs");
    assert!(mentions.contains(&"src/main.rs".to_string()));
    assert!(mentions.contains(&"src/server.rs".to_string()));
}

#[test]
fn test_extract_file_mentions_backticks() {
    let mentions = extract_file_mentions("check `src/parser/mod.rs` for the issue");
    assert!(mentions.contains(&"src/parser/mod.rs".to_string()));
}

#[test]
fn test_extract_file_mentions_no_false_positives() {
    let mentions = extract_file_mentions("the version is 1.2.3 and we should upgrade");
    assert!(mentions.is_empty());
}

#[test]
fn test_extract_file_mentions_typescript() {
    let mentions = extract_file_mentions("update components/Button.tsx and utils/helpers.ts");
    assert!(mentions.contains(&"components/Button.tsx".to_string()));
    assert!(mentions.contains(&"utils/helpers.ts".to_string()));
}

#[test]
fn test_extract_file_mentions_dedup() {
    let mentions = extract_file_mentions("src/main.rs and src/main.rs again");
    assert_eq!(mentions.len(), 1);
}

#[test]
fn mentions_are_sorted_and_trimmed() {
    let mentions = extract_file_mentions("see (b/z.ts), \"a/y.rs\" and a/y.rs; README.md! x.unknown");
    assert_eq!(mentions, vec!["README.md".to_string(), "a/y.rs".to_string(), "b/z.ts".to_string()]);
}

use cartographer::graph::FileDetail;
use cartographer::hooks::{
    format_compact_file_context, format_path_list, format_prompt_file_context, format_tool_file_context,
    hook_context, hook_post_compact, hook_post_edit, hook_pre_edit, hook_pre_read, hook_prompt, prompt_mentions,
    rel_path, resolve_abs_path, session_context, tool_file_path, SESSION_GUIDE,
};
use cartographer::types::{Symbol, SymbolKind, Visibility};

fn sym(name: &str, vis: Visibility, doc: Option<&str>) -> Symbol {
    Symbol {
        name: name.to_string(),
        kind: SymbolKind::Function,
        signature: format!("fn {name}()"),
        doc_comment: doc.map(|d| d.to_string()),
        visibility: vis,
        line: 1,
    }
}

fn entries(paths: &[&str]) -> Vec<(String, Vec<String>)> {
    paths.iter().map(|p| (p.to_string(), Vec::new())).collect()
}

fn detail(path: &str, symbols: Vec<Symbol>, imports: &[&str], dependents: &[&str]) -> FileDetail {
    FileDetail {
        file_path: path.to_string(),
        language: "typescript".to_string(),
        symbols,
        imports: entries(imports),
        dependents: entries(dependents),
    }
}

#[test]
fn relative_and_absolute_paths() {
    assert_eq!(rel_path("/proj/src/a.ts", "/proj"), "src/a.ts");
    assert_eq!(rel_path("/other/a.ts", "/proj"), "other/a.ts");
    assert_eq!(rel_path("//proj//x", "/proj"), "proj//x");
    assert_eq!(rel_path("/proj//x", "/proj"), "x");
    assert_eq!(resolve_abs_path("src/a.ts", "/proj"), "/proj/src/a.ts");
    assert_eq!(resolve_abs_path("/abs/a.ts", "/proj"), "/abs/a.ts");
    assert_eq!(tool_file_path(&Some("a.ts".to_string()), "/p"), Some("/p/a.ts".to_string()));
    assert_eq!(tool_file_path(&Some(String::new()), "/p"), None);
    assert_eq!(tool_file_path(&None, "/p"), None);
}

#[test]
fn path_list_is_cut_at_limit() {
    let e = entries(&["/p/a.ts", "/p/b.ts", "/p/c.ts"]);
    assert_eq!(format_path_list(&e, "/p", usize::MAX), "a.ts, b.ts, c.ts");
    assert_eq!(format_path_list(&e, "/p", 2), "a.ts, b.ts");
    assert_eq!(format_path_list(&e, "/p", 0), "");
}

#[test]
fn prompt_context_for_known_file() {
    let d = detail("/p/src/a.ts", vec![sym("f", Visibility::Exported, None)], &["/p/src/b.ts"], &["/p/c.ts"]);
    assert_eq!(
        format_prompt_file_context("/p", &d),
        Some("### src/a.ts\n**Note:** 1 symbols, none documented\n**Imports:** src/b.ts\n**Imported by:** c.ts".to_string())
    );
    let empty = detail("/p/x.ts", Vec::new(), &[], &[]);
    assert_eq!(format_prompt_file_context("/p", &empty), None);
}

#[test]
fn prompt_context_warns_on_fan_in() {
    let d = detail(
        "/p/a.ts",
        vec![sym("f", Visibility::Exported, Some("doc"))],
        &[],
        &["/p/1.ts", "/p/2.ts", "/p/3.ts", "/p/4.ts", "/p/5.ts", "/p/6.ts"],
    );
    assert_eq!(
        format_prompt_file_context("/p", &d),
        Some(
            "### a.ts\n**Warning:** High fan-in (6 dependents) — changes here have wide impact\n**Imported by:** 1.ts, 2.ts, 3.ts, 4.ts, 5.ts, 6.ts"
                .to_string()
        )
    );
}

#[test]
fn tool_context_lists_eight_importers() {
    let deps = ["/p/1.ts", "/p/2.ts", "/p/3.ts", "/p/4.ts", "/p/5.ts", "/p/6.ts", "/p/7.ts", "/p/8.ts", "/p/9.ts", "/p/10.ts"];
    let d = detail("/p/a.ts", Vec::new(), &["/p/b.ts"], &deps);
    assert_eq!(
        format_tool_file_context("/p", &d, "Reading"),
        Some(
            "## [cartographer] Reading `a.ts`\n**Warning:** High fan-in (10 dependents) — changes here have wide impact\n**Imports:** b.ts\n**Imported by:** 1.ts, 2.ts, 3.ts, 4.ts, 5.ts, 6.ts, 7.ts, 8.ts + 2 more"
                .to_string()
        )
    );
}

#[test]
fn tool_context_needs_imports_or_importers() {
    let only_symbols = detail("/p/a.ts", vec![sym("f", Visibility::Private, None)], &[], &[]);
    assert_eq!(format_tool_file_context("/p", &only_symbols, "Editing"), None);
    let one_dep = detail("/p/a.ts", Vec::new(), &[], &["/p/b.ts"]);
    assert_eq!(
        hook_pre_edit("/p", &one_dep),
        Some(("PreToolUse".to_string(), "## [cartographer] Editing `a.ts`\n**Dependents:** 1\n**Imported by:** b.ts".to_string()))
    );
    assert_eq!(
        hook_pre_read("/p", &one_dep),
        Some(("PreToolUse".to_string(), "## [cartographer] Reading `a.ts`\n**Dependents:** 1\n**Imported by:** b.ts".to_string()))
    );
}

#[test]
fn compact_context_counts_public_symbols() {
    let d = detail(
        "/p/a.ts",
        vec![
            sym("a", Visibility::Exported, None),
            sym("b", Visibility::Private, None),
            sym("c", Visibility::PubCrate, None),
            sym("d", Visibility::PubSuper, None),
        ],
        &["/p/x.ts"],
        &["/p/1.ts", "/p/2.ts", "/p/3.ts", "/p/4.ts", "/p/5.ts", "/p/6.ts", "/p/7.ts"],
    );
    assert_eq!(
        format_compact_file_context("/p", &d, "3", "1"),
        "### a.ts (+3/-1)\n**Dependents (7):** 1.ts, 2.ts, 3.ts, 4.ts, 5.ts + 2 more\n**Imports:** x.ts\n**Symbols:** 4 total, 2 public"
    );
}

#[test]
fn prompt_hook_joins_known_files() {
    assert_eq!(prompt_mentions(&None), None);
    assert_eq!(prompt_mentions(&Some(String::new())), None);
    assert_eq!(prompt_mentions(&Some("fix a.ts".to_string())), Some(vec!["a.ts".to_string()]));
    let ds = vec![detail("/p/a.ts", Vec::new(), &["/p/b.ts"], &[]), detail("/p/z.ts", Vec::new(), &[], &[])];
    assert_eq!(
        hook_prompt("/p", &ds),
        Some((
            "UserPromptSubmit".to_string(),
            "## Relevant files\n### a.ts\n**Imports:** b.ts\n\nUse `cartographer_query` for deeper dependency analysis.".to_string()
        ))
    );
    assert_eq!(hook_prompt("/p", &vec![detail("/p/z.ts", Vec::new(), &[], &[])]), None);
}

#[test]
fn edit_hook_lists_changed_files() {
    let changed = vec![
        ("4".to_string(), "2".to_string(), "src/a.ts".to_string(), 3usize),
        ("1".to_string(), "0".to_string(), "b.rs".to_string(), 0usize),
    ];
    assert_eq!(
        hook_post_edit(&changed),
        Some((
            "PostToolUse".to_string(),
            "## [cartographer] Modified files\n- `src/a.ts` (+4/-2) — 3 dependents\n- `b.rs` (+1/-0)\n\nRun `cartographer_detect_changes` to update the import graph.".to_string()
        ))
    );
    assert_eq!(hook_post_edit(&Vec::new()), None);
}

#[test]
fn compact_hook_joins_summaries() {
    let files = vec![("1".to_string(), "2".to_string(), detail("/p/a.ts", Vec::new(), &[], &[]))];
    let r = hook_post_compact("/p", &files).unwrap();
    assert_eq!(r.0, "PostCompact");
    assert_eq!(
        r.1,
        "# [cartographer] Structural context for modified files\n\nThese files have been modified during this session. Preserve awareness of their graph relationships.\n\n### a.ts (+1/-2)\n\nUse `cartographer_query` to explore deeper dependency chains."
    );
    assert_eq!(hook_post_compact("/p", &Vec::new()), None);
}

#[test]
fn session_context_reports_index_status() {
    assert_eq!(session_context("/p", None), SESSION_GUIDE);
    assert_eq!(session_context("", Some((3, 4))), SESSION_GUIDE);
    assert!(SESSION_GUIDE.starts_with("# [cartographer] codebase structure\n\n## Graph-First Navigation\n"));
    assert_eq!(
        session_context("/p", Some((0, 0))),
        format!("{SESSION_GUIDE}\n\n## Index Status\n- Project not yet indexed. Run `cartographer_index_project` with project path `/p` to build the import graph.")
    );
    let (event, text) = hook_context("/p", Some((12, -3)));
    assert_eq!(event, "SessionStart");
    assert_eq!(
        text,
        format!("{SESSION_GUIDE}\n\n## Index Status\n- **Project**: /p\n- **Files indexed**: 12\n- **Import edges**: -3\n- Run `cartographer_detect_changes` if files have changed since last index")
    );
}
