//! The languages the index knows by file extension, and the directories it never enters.
use vstd::prelude::*;
use crate::text::{chars_of, eq_chars};

verus! {

/// Default number of hops a graph query walks from its entry points.
pub const DEFAULT_MAX_DEPTH: i64 = 2;

/// Default number of files a graph query returns.
pub const DEFAULT_MAX_RESULTS: i64 = 20;

/// The language a file extension is parsed as.
pub struct LanguageConfig {
    pub language: &'static str,
}

/// The language of an extension written with its dot (`.ts`, `.rs`, ...), if it is one
/// the index supports.
pub open spec fn language_of(ext: Seq<char>) -> Option<Seq<char>> {
    if ext == seq!['.', 't', 's'] {
        Some(seq!['t', 'y', 'p', 'e', 's', 'c', 'r', 'i', 'p', 't'])
    } else if ext == seq!['.', 't', 's', 'x'] {
        Some(seq!['t', 's', 'x'])
    } else if ext == seq!['.', 'j', 's'] || ext == seq!['.', 'j', 's', 'x'] || ext == seq!['.', 'm', 'j', 's']
        || ext == seq!['.', 'c', 'j', 's'] {
        Some(seq!['j', 'a', 'v', 'a', 's', 'c', 'r', 'i', 'p', 't'])
    } else if ext == seq!['.', 'r', 's'] {
        Some(seq!['r', 'u', 's', 't'])
    } else if ext == seq!['.', 'r', 'b'] {
        Some(seq!['r', 'u', 'b', 'y'])
    } else if ext == seq!['.', 'e', 'x'] || ext == seq!['.', 'e', 'x', 's'] {
        Some(seq!['e', 'l', 'i', 'x', 'i', 'r'])
    } else {
        None
    }
}

fn is(s: &Vec<char>, lit: Vec<char>) -> (r: bool)
    ensures
        r == (s@ == lit@),
{
    eq_chars(s, &lit)
}

/// The language configuration of an extension written with its dot.
pub fn language_config(ext: &str) -> (r: Option<LanguageConfig>)
    ensures
        match language_of(ext@) {
            Some(l) => r is Some && r->0.language@ == l,
            None => r is None,
        },
{
    let e = chars_of(ext);
    let language: &'static str = if is(&e, vec!['.', 't', 's']) {
        "typescript"
    } else if is(&e, vec!['.', 't', 's', 'x']) {
        "tsx"
    } else if is(&e, vec!['.', 'j', 's']) || is(&e, vec!['.', 'j', 's', 'x']) || is(&e, vec!['.', 'm', 'j', 's'])
        || is(&e, vec!['.', 'c', 'j', 's']) {
        "javascript"
    } else if is(&e, vec!['.', 'r', 's']) {
        "rust"
    } else if is(&e, vec!['.', 'r', 'b']) {
        "ruby"
    } else if is(&e, vec!['.', 'e', 'x']) || is(&e, vec!['.', 'e', 'x', 's']) {
        "elixir"
    } else {
        return None;
    };
    proof {
        reveal_strlit("typescript");
        reveal_strlit("tsx");
        reveal_strlit("javascript");
        reveal_strlit("rust");
        reveal_strlit("ruby");
        reveal_strlit("elixir");
    }
    Some(LanguageConfig { language })
}

/// The extension (with its dot) is one the index parses.
pub fn is_supported_extension(ext: &str) -> (r: bool)
    ensures
        r == language_of(ext@) is Some,
{
    language_config(ext).is_some()
}

/// The directories a project walk never enters.
pub open spec fn skip_dirs() -> Seq<Seq<char>> {
    seq![
        seq!['n', 'o', 'd', 'e', '_', 'm', 'o', 'd', 'u', 'l', 'e', 's'],
        seq!['.', 'g', 'i', 't'],
        seq!['d', 'i', 's', 't'],
        seq!['b', 'u', 'i', 'l', 'd'],
        seq!['.', 'n', 'e', 'x', 't'],
        seq!['.', 'n', 'u', 'x', 't'],
        seq!['c', 'o', 'v', 'e', 'r', 'a', 'g', 'e'],
        seq!['.', 't', 'u', 'r', 'b', 'o'],
        seq!['.', 'c', 'a', 'c', 'h', 'e'],
        seq!['.', 'o', 'u', 't', 'p', 'u', 't'],
        seq!['t', 'a', 'r', 'g', 'e', 't'],
        seq!['_', 'b', 'u', 'i', 'l', 'd'],
        seq!['d', 'e', 'p', 's'],
        seq!['.', 'e', 'l', 'i', 'x', 'i', 'r', '_', 'l', 's'],
        seq!['v', 'e', 'n', 'd', 'o', 'r'],
        seq!['.', 'b', 'u', 'n', 'd', 'l', 'e'],
    ]
}

fn skip_dir_list() -> (r: Vec<Vec<char>>)
    ensures
        crate::order::views(r@) == skip_dirs(),
{
    let r = vec![
        vec!['n', 'o', 'd', 'e', '_', 'm', 'o', 'd', 'u', 'l', 'e', 's'],
        vec!['.', 'g', 'i', 't'],
        vec!['d', 'i', 's', 't'],
        vec!['b', 'u', 'i', 'l', 'd'],
        vec!['.', 'n', 'e', 'x', 't'],
        vec!['.', 'n', 'u', 'x', 't'],
        vec!['c', 'o', 'v', 'e', 'r', 'a', 'g', 'e'],
        vec!['.', 't', 'u', 'r', 'b', 'o'],
        vec!['.', 'c', 'a', 'c', 'h', 'e'],
        vec!['.', 'o', 'u', 't', 'p', 'u', 't'],
        vec!['t', 'a', 'r', 'g', 'e', 't'],
        vec!['_', 'b', 'u', 'i', 'l', 'd'],
        vec!['d', 'e', 'p', 's'],
        vec!['.', 'e', 'l', 'i', 'x', 'i', 'r', '_', 'l', 's'],
        vec!['v', 'e', 'n', 'd', 'o', 'r'],
        vec!['.', 'b', 'u', 'n', 'd', 'l', 'e'],
    ];
    assert(crate::order::views(r@) =~~= skip_dirs());
    r
}

/// The directory name is one of those a project walk never enters.
pub fn is_skip_dir(name: &str) -> (r: bool)
    ensures
        r == skip_dirs().contains(name@),
{
    let n = chars_of(name);
    let dirs = skip_dir_list();
    let mut k: usize = 0;
    while k < dirs.len()
        invariant
            k <= dirs.len(),
            crate::order::views(dirs@) == skip_dirs(),
            n@ == name@,
            forall|m: int| 0 <= m < k ==> skip_dirs()[m] != name@,
        decreases dirs.len() - k,
    {
        if eq_chars(&dirs[k], &n) {
            assert(skip_dirs()[k as int] == name@);
            return true;
        }
        assert(crate::order::views(dirs@)[k as int] == dirs@[k as int]@);
        k += 1;
    }
    false
}

/// A working directory looks like a project worth indexing on start: not the root, not the
/// home directory, not under `/tmp`, and longer than one byte.
pub open spec fn looks_like_project(cwd: Seq<char>, home: Seq<char>) -> bool {
    cwd != seq!['/'] && cwd != home && !crate::text::starts_with(cwd, seq!['/', 't', 'm', 'p']) && crate::text::utf8_len(cwd) > 1
}

/// Whether the server indexes its working directory `cwd` on start (`home` being the
/// user's home directory).
pub fn is_project_dir(cwd: &str, home: &str) -> (r: bool)
    ensures
        r == looks_like_project(cwd@, home@),
{
    let c = chars_of(cwd);
    let h = chars_of(home);
    let root = vec!['/'];
    let tmp = vec!['/', 't', 'm', 'p'];
    assert(root@ =~= seq!['/'] && tmp@ =~= seq!['/', 't', 'm', 'p']);
    !eq_chars(&c, &root) && !eq_chars(&c, &h) && !crate::text::has_prefix(&c, &tmp) && crate::text::utf8_len_at_least(&c, 2)
}


/// The languages the index parses, by extension: .ts is TypeScript, .tsx is TSX, .js,
/// .jsx, .mjs and .cjs are JavaScript, .rs is Rust, .rb is Ruby, .ex and .exs are
/// Elixir; no other extension has a language.
pub proof fn law_language_table(ext: Seq<char>)
    ensures
        language_of(".ts"@) == Some("typescript"@),
        language_of(".tsx"@) == Some("tsx"@),
        language_of(".js"@) == Some("javascript"@),
        language_of(".jsx"@) == Some("javascript"@),
        language_of(".mjs"@) == Some("javascript"@),
        language_of(".cjs"@) == Some("javascript"@),
        language_of(".rs"@) == Some("rust"@),
        language_of(".rb"@) == Some("ruby"@),
        language_of(".ex"@) == Some("elixir"@),
        language_of(".exs"@) == Some("elixir"@),
        language_of(ext) is Some ==> (ext == ".ts"@ || ext == ".tsx"@ || ext == ".js"@ || ext == ".jsx"@ || ext == ".mjs"@ || ext == ".cjs"@ || ext == ".rs"@ || ext == ".rb"@ || ext == ".ex"@ || ext == ".exs"@),
{
    reveal_strlit(".cjs");
    reveal_strlit(".ex");
    reveal_strlit(".exs");
    reveal_strlit(".js");
    reveal_strlit(".jsx");
    reveal_strlit(".mjs");
    reveal_strlit(".rb");
    reveal_strlit(".rs");
    reveal_strlit(".ts");
    reveal_strlit(".tsx");
    reveal_strlit("elixir");
    reveal_strlit("javascript");
    reveal_strlit("ruby");
    reveal_strlit("rust");
    reveal_strlit("tsx");
    reveal_strlit("typescript");
    assert(".cjs"@ =~= seq!['.', 'c', 'j', 's']);
    assert(".ex"@ =~= seq!['.', 'e', 'x']);
    assert(".exs"@ =~= seq!['.', 'e', 'x', 's']);
    assert(".js"@ =~= seq!['.', 'j', 's']);
    assert(".jsx"@ =~= seq!['.', 'j', 's', 'x']);
    assert(".mjs"@ =~= seq!['.', 'm', 'j', 's']);
    assert(".rb"@ =~= seq!['.', 'r', 'b']);
    assert(".rs"@ =~= seq!['.', 'r', 's']);
    assert(".ts"@ =~= seq!['.', 't', 's']);
    assert(".tsx"@ =~= seq!['.', 't', 's', 'x']);
    assert("elixir"@ =~= seq!['e', 'l', 'i', 'x', 'i', 'r']);
    assert("javascript"@ =~= seq!['j', 'a', 'v', 'a', 's', 'c', 'r', 'i', 'p', 't']);
    assert("ruby"@ =~= seq!['r', 'u', 'b', 'y']);
    assert("rust"@ =~= seq!['r', 'u', 's', 't']);
    assert("tsx"@ =~= seq!['t', 's', 'x']);
    assert("typescript"@ =~= seq!['t', 'y', 'p', 'e', 's', 'c', 'r', 'i', 'p', 't']);
}


/// The directories a project walk never enters are exactly node_modules, .git, dist,
/// build, .next, .nuxt, coverage, .turbo, .cache, .output, target, _build, deps,
/// .elixir_ls, vendor and .bundle.
pub proof fn law_skip_dirs(name: Seq<char>)
    ensures
        skip_dirs().contains(name) <==> (name == "node_modules"@ || name == ".git"@ || name == "dist"@ || name == "build"@ || name == ".next"@ || name == ".nuxt"@ || name == "coverage"@ || name == ".turbo"@ || name == ".cache"@ || name == ".output"@ || name == "target"@ || name == "_build"@ || name == "deps"@ || name == ".elixir_ls"@ || name == "vendor"@ || name == ".bundle"@),
{
    reveal_strlit("node_modules");
    reveal_strlit(".git");
    reveal_strlit("dist");
    reveal_strlit("build");
    reveal_strlit(".next");
    reveal_strlit(".nuxt");
    reveal_strlit("coverage");
    reveal_strlit(".turbo");
    reveal_strlit(".cache");
    reveal_strlit(".output");
    reveal_strlit("target");
    reveal_strlit("_build");
    reveal_strlit("deps");
    reveal_strlit(".elixir_ls");
    reveal_strlit("vendor");
    reveal_strlit(".bundle");
    let d = skip_dirs();
    if d.contains(name) {
        let k = choose|k: int| 0 <= k < d.len() && d[k] == name;
        assert(0 <= k < 16);
    }
    assert("node_modules"@ =~= d[0]);
    assert(".git"@ =~= d[1]);
    assert("dist"@ =~= d[2]);
    assert("build"@ =~= d[3]);
    assert(".next"@ =~= d[4]);
    assert(".nuxt"@ =~= d[5]);
    assert("coverage"@ =~= d[6]);
    assert(".turbo"@ =~= d[7]);
    assert(".cache"@ =~= d[8]);
    assert(".output"@ =~= d[9]);
    assert("target"@ =~= d[10]);
    assert("_build"@ =~= d[11]);
    assert("deps"@ =~= d[12]);
    assert(".elixir_ls"@ =~= d[13]);
    assert("vendor"@ =~= d[14]);
    assert(".bundle"@ =~= d[15]);
}

} // verus!
