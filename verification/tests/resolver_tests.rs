use cartographer::resolver::{
    append_ext, is_relative_import, normalize_path, pick_elixir_target, resolve_elixir_module, resolve_rust_mod_decl, resolve_rust_module,
    resolve_ts_js_import, to_snake_case, ts_js_import_candidates,
};
use std::io::Write;
use std::path::{Path, PathBuf};
use tempfile::TempDir;

/// Creates the directory `parent/name` (kept until the enclosing temporary directory goes).
fn make_dir(parent: &Path, name: &str) -> PathBuf {
    tempfile::Builder::new()
        .prefix(name)
        .rand_bytes(0)
        .keep(true)
        .tempdir_in(parent)
        .unwrap()
        .path()
        .to_path_buf()
}

/// Creates the file `parent/name` with the given contents.
fn write_file(parent: &Path, name: &str, contents: &str) -> PathBuf {
    let mut f = tempfile::Builder::new()
        .prefix(name)
        .rand_bytes(0)
        .keep(true)
        .tempfile_in(parent)
        .unwrap();
    f.write_all(contents.as_bytes()).unwrap();
    f.path().to_path_buf()
}

#[test]
fn test_resolve_ts_import_with_extension() {
    let dir = TempDir::new().unwrap();
    let src = make_dir(dir.path(), "src");
    write_file(&src, "utils.ts", "export const x = 1;");
    let from_file = write_file(&src, "index.ts", "");

    let result = resolve_ts_js_import("./utils.ts", from_file.to_str().unwrap()).0;
    assert!(result.is_some());
    assert!(result.unwrap().ends_with("utils.ts"));
}

#[test]
fn test_resolve_ts_import_without_extension() {
    let dir = TempDir::new().unwrap();
    let src = make_dir(dir.path(), "src");
    write_file(&src, "utils.ts", "export const x = 1;");
    let from_file = write_file(&src, "index.ts", "");

    let result = resolve_ts_js_import("./utils", from_file.to_str().unwrap()).0;
    assert!(result.is_some());
    assert!(result.unwrap().ends_with("utils.ts"));
}

#[test]
fn test_resolve_ts_import_index_file() {
    let dir = TempDir::new().unwrap();
    let src = make_dir(dir.path(), "src");
    let components = make_dir(&src, "components");
    write_file(&components, "index.ts", "export {};");
    let from_file = write_file(&src, "index.ts", "");

    let result = resolve_ts_js_import("./components", from_file.to_str().unwrap()).0;
    assert!(result.is_some());
    assert!(result.unwrap().ends_with("components/index.ts"));
}

#[test]
fn test_bare_import_returns_none() {
    let result = resolve_ts_js_import("lodash", "/some/file.ts").0;
    assert!(result.is_none());
}

#[test]
fn test_resolve_rust_crate_module() {
    let dir = TempDir::new().unwrap();
    let src = make_dir(dir.path(), "src");
    write_file(&src, "auth.rs", "pub fn check() {}");

    let result = resolve_rust_module(
        "crate::auth",
        src.join("main.rs").to_str().unwrap(),
        src.to_str().unwrap(),
    ).0;
    assert!(result.is_some());
    assert!(result.unwrap().ends_with("auth.rs"));
}

#[test]
fn test_resolve_rust_mod_decl() {
    let dir = TempDir::new().unwrap();
    let src = make_dir(dir.path(), "src");
    write_file(&src, "db.rs", "pub fn query() {}");

    let result = resolve_rust_mod_decl("db", src.join("main.rs").to_str().unwrap()).0;
    assert!(result.is_some());
    assert!(result.unwrap().ends_with("db.rs"));
}

#[test]
fn test_external_crate_returns_none() {
    let result = resolve_rust_module("tokio::runtime", "/src/main.rs", "/src").0;
    assert!(result.is_none());
}

#[test]
fn relative_specifiers() {
    assert!(is_relative_import("./a"));
    assert!(is_relative_import("../a"));
    assert!(!is_relative_import("a/b"));
    assert!(!is_relative_import(".a"));
}

#[test]
fn ts_candidates_in_order() {
    let c = ts_js_import_candidates("../lib/./x", "/p/src/a.ts");
    assert_eq!(
        c,
        vec![
            "/p/lib/x.ts", "/p/lib/x.tsx", "/p/lib/x.js", "/p/lib/x.jsx", "/p/lib/x.mjs",
            "/p/lib/x/index.ts", "/p/lib/x/index.tsx", "/p/lib/x/index.js", "/p/lib/x/index.jsx",
            "/p/lib/x/index.mjs",
        ]
    );
    let c = ts_js_import_candidates("./y.ts", "/p/a.ts");
    assert_eq!(c[0], "/p/y.ts");
    assert_eq!(c.len(), 11);
}

#[test]
fn snake_case_and_ext() {
    assert_eq!(to_snake_case("MyApp"), "my_app");
    assert_eq!(to_snake_case("HTTPServer"), "h_t_t_p_server");
    assert_eq!(append_ext("/a/b", ".rb"), "/a/b.rb");
}

#[test]
fn normalize_matches_components() {
    for p in ["/a/./b/../c", "a/../..", "/..", "./x/y/", "//a//b", "", ".", "a/b/.."] {
        let expected: std::path::PathBuf = {
            let mut comps = Vec::new();
            for c in std::path::Path::new(p).components() {
                match c {
                    std::path::Component::ParentDir => {
                        comps.pop();
                    }
                    std::path::Component::CurDir => {}
                    other => comps.push(other),
                }
            }
            comps.iter().collect()
        };
        assert_eq!(normalize_path(p), expected.to_str().unwrap(), "normalizing {p}");
    }
}

#[test]
fn normalizing_twice_changes_nothing() {
    for p in ["/a/./b/../c", "../x/./y/..", "a//b/", "/..", "./"] {
        let once = normalize_path(p);
        assert_eq!(normalize_path(&once), once);
    }
    assert_eq!(normalize_path("/a/./b/../c"), "/a/c");
    assert_eq!(normalize_path("/.."), "");
}

#[test]
fn elixir_root_is_the_nearest_directory_holding_mix_exs() {
    // Directories above the file, nearest first: /p/lib/my_app, /p/lib, /p, /.
    let r = pick_elixir_target("MyApp.Foo.Bar", "/p/lib/my_app/x.ex", &vec![false, false, true], &vec![true]);
    assert_eq!(r, Some("/p/lib/my_app/foo/bar.ex".to_string()));
    let r = pick_elixir_target("MyApp.Foo.Bar", "/p/lib/my_app/x.ex", &vec![false, true], &vec![false, true]);
    assert_eq!(r, Some("/p/lib/lib/foo/bar.ex".to_string()));
    let r = pick_elixir_target("MyApp.Foo.Bar", "/p/lib/my_app/x.ex", &vec![false, false, false, false], &vec![]);
    assert_eq!(r, None);
}

#[test]
fn resolver_reports_the_answers_it_got() {
    let dir = TempDir::new().unwrap();
    let src = make_dir(dir.path(), "src");
    write_file(&src, "utils.js", "export const x = 1;");
    let from_file = write_file(&src, "index.ts", "");

    // ./utils: asked about utils.ts and utils.tsx (absent), then utils.js (present).
    let (target, answers) = resolve_ts_js_import("./utils", from_file.to_str().unwrap());
    assert!(target.unwrap().ends_with("utils.js"));
    let flags: Vec<bool> = answers.iter().map(|a| a.present()).collect();
    assert_eq!(flags, vec![false, false, true]);

    let (none, asked) = resolve_ts_js_import("./missing", from_file.to_str().unwrap());
    assert!(none.is_none());
    assert_eq!(asked.len(), 10);
    assert!(asked.iter().all(|a| !a.present()));
}

#[test]
fn elixir_module_resolves_below_the_nearest_mix_project() {
    let dir = TempDir::new().unwrap();
    let p = make_dir(dir.path(), "proj");
    write_file(&p, "mix.exs", "");
    let lib = make_dir(&p, "lib");
    let app = make_dir(&lib, "my_app");
    let foo = make_dir(&app, "foo");
    write_file(&foo, "bar.ex", "defmodule MyApp.Foo.Bar do end");
    let from_file = write_file(&app, "x.ex", "");

    let (target, mix, cands) = resolve_elixir_module("MyApp.Foo.Bar", from_file.to_str().unwrap());
    assert_eq!(target, Some(foo.join("bar.ex").to_str().unwrap().to_string()));
    // my_app/mix.exs and lib/mix.exs are absent, proj/mix.exs is present.
    let mix_flags: Vec<bool> = mix.iter().map(|a| a.present()).collect();
    assert_eq!(mix_flags, vec![false, false, true]);
    assert!(cands.last().unwrap().present());
}
