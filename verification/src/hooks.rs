//! What the assistant hooks add to a session: the text built from the index for a
//! prompt, a file about to be read or edited, and the files changed in the work tree.
use vstd::prelude::*;
use vstd::string::*;
use crate::graph::FileDetail;
use crate::paths::{relative, relative_path};
use crate::text::{decimal, decimal_string, join_by, join_strings, signed_decimal, signed_decimal_string, string_views};
use crate::types::{is_public, is_public_visibility, Symbol};

verus! {

/// The text a session starts with, before anything about the project.
pub const SESSION_GUIDE: &'static str = "# [cartographer] codebase structure\n\n## Graph-First Navigation\n\nWhen you need to understand file relationships, dependencies, or the blast radius of changes:\n- **Use `cartographer_query` BEFORE using Grep or Glob** for structural questions\n- Use `cartographer_query` with `entry_points` to find dependencies and dependents\n- Use `cartographer_search` to find files by name or symbol\n- Only fall back to Grep/Glob when searching for specific string literals or patterns\n\n## When to Query the Graph\n- \"What does X depend on?\" → `cartographer_query`\n- \"What would break if I change X?\" → `cartographer_query`\n- \"Where is X defined/exported?\" → `cartographer_search`\n- \"How are these modules connected?\" → `cartographer_query` from both files\n- Understanding architecture or module boundaries → `cartographer_query`\n\n## When Grep/Glob is Still Better\n- Searching for specific error messages or string literals\n- Finding TODO/FIXME comments\n- Pattern matching across file contents (not structure)";

/// An absolute path for a file named by a tool: kept when it starts with `/`, else
/// taken relative to `cwd`.
pub open spec fn abs_path(file: Seq<char>, cwd: Seq<char>) -> Seq<char> {
    if file.len() > 0 && file[0] == '/' {
        file
    } else {
        cwd + seq!['/'] + file
    }
}

/// An absolute path for a file named by a tool.
pub fn resolve_abs_path(file: &str, cwd: &str) -> (r: String)
    ensures
        r@ == abs_path(file@, cwd@),
{
    let f = crate::text::chars_of(file);
    if f.len() > 0 && f[0] == '/' {
        String::from_str(file)
    } else {
        let mut r = String::from_str(cwd);
        r.append("/");
        r.append(file);
        proof {
            reveal_strlit("/");
        }
        r
    }
}

/// `path` relative to `cwd`.
pub fn rel_path(path: &str, cwd: &str) -> (r: String)
    ensures
        r@ == relative(path@, cwd@),
{
    relative_path(path, cwd)
}

/// The file a read or edit tool names, made absolute; none when it names none.
pub open spec fn tool_path(file_path: Option<String>, cwd: Seq<char>) -> Option<Seq<char>> {
    match file_path {
        Some(p) => if p@.len() > 0 {
            Some(abs_path(p@, cwd))
        } else {
            None
        },
        None => None,
    }
}

/// The file a read or edit tool names (its `file_path` argument), made absolute.
pub fn tool_file_path(file_path: &Option<String>, cwd: &str) -> (r: Option<String>)
    ensures
        match tool_path(*file_path, cwd@) {
            Some(p) => r is Some && r->0@ == p,
            None => r is None,
        },
{
    match file_path {
        Some(p) => {
            if !p.as_str().is_empty() {
                Some(resolve_abs_path(p.as_str(), cwd))
            } else {
                None
            }
        },
        None => None,
    }
}

/// The first `limit` entries' paths, relative to `cwd`, joined by `, `.
pub open spec fn path_list(entries: Seq<(String, Vec<String>)>, cwd: Seq<char>, limit: nat) -> Seq<char> {
    let n = if limit < entries.len() {
        limit
    } else {
        entries.len()
    };
    join_by(rel_paths(entries.take(n as int), cwd), seq![',', ' '])
}

/// The entries' paths, relative to `cwd`.
pub open spec fn rel_paths(entries: Seq<(String, Vec<String>)>, cwd: Seq<char>) -> Seq<Seq<char>> {
    entries.map_values(|e: (String, Vec<String>)| relative(e.0@, cwd))
}

/// The first `limit` entries' paths, relative to `cwd`, joined by `, `.
pub fn format_path_list(entries: &Vec<(String, Vec<String>)>, cwd: &str, limit: usize) -> (r: String)
    ensures
        r@ == path_list(entries@, cwd@, limit as nat),
{
    let n = if limit < entries.len() {
        limit
    } else {
        entries.len()
    };
    let mut rels: Vec<String> = Vec::new();
    let mut i: usize = 0;
    while i < n
        invariant
            i <= n,
            n <= entries.len(),
            string_views(rels@) == rel_paths(entries@.take(i as int), cwd@),
        decreases n - i,
    {
        let ghost before = string_views(rels@);
        let x = rel_path(entries[i].0.as_str(), cwd);
        rels.push(x);
        proof {
            assert(entries@.take(i + 1) =~= entries@.take(i as int).push(entries@[i as int]));
            assert(string_views(rels@) =~= before.push(x@));
            assert(rel_paths(entries@.take(i + 1), cwd@) =~= rel_paths(entries@.take(i as int), cwd@).push(x@));
        }
        i += 1;
    }
    let r = join_strings(&rels, ", ");
    proof {
        reveal_strlit(", ");
        assert(", "@ =~= seq![',', ' ']);
    }
    r
}

/// No symbol of the list carries a doc comment.
pub open spec fn undocumented(symbols: Seq<Symbol>) -> bool {
    forall|i: int| 0 <= i < symbols.len() ==> #[trigger] symbols[i].doc_comment is None
}

fn all_undocumented(symbols: &Vec<Symbol>) -> (r: bool)
    ensures
        r == undocumented(symbols@),
{
    let mut i: usize = 0;
    while i < symbols.len()
        invariant
            i <= symbols.len(),
            forall|j: int| 0 <= j < i ==> #[trigger] symbols@[j].doc_comment is None,
        decreases symbols.len() - i,
    {
        if symbols[i].doc_comment.is_some() {
            return false;
        }
        i += 1;
    }
    true
}

/// `pre`, the decimal rendering of `n`, then `post`.
pub open spec fn counted(pre: Seq<char>, n: nat, post: Seq<char>) -> Seq<char> {
    pre + decimal(n) + post
}

/// Appends `pre`, the decimal rendering of `n`, then `post`.
fn append_counted(s: &mut String, pre: &str, n: usize, post: &str)
    ensures
        final(s)@ == old(s)@ + counted(pre@, n as nat, post@),
{
    s.append(pre);
    s.append(decimal_string(n).as_str());
    s.append(post);
    assert(s@ =~= old(s)@ + counted(pre@, n as nat, post@));
}

/// `label` followed by the first `limit` paths, when there are any.
pub open spec fn list_line(label: Seq<char>, entries: Seq<(String, Vec<String>)>, cwd: Seq<char>, limit: nat) -> Seq<char> {
    if entries.len() > 0 {
        label + path_list(entries, cwd, limit)
    } else {
        seq![]
    }
}

fn append_list_line(s: &mut String, label: &str, entries: &Vec<(String, Vec<String>)>, cwd: &str, limit: usize)
    ensures
        final(s)@ == old(s)@ + list_line(label@, entries@, cwd@, limit as nat),
{
    if entries.len() > 0 {
        s.append(label);
        s.append(format_path_list(entries, cwd, limit).as_str());
        assert(s@ =~= old(s)@ + list_line(label@, entries@, cwd@, limit as nat));
    } else {
        assert(s@ =~= old(s)@ + list_line(label@, entries@, cwd@, limit as nat));
    }
}

/// The high fan-in warning of a prompt summary, for more than 5 importers.
pub open spec fn prompt_warning(deps: nat) -> Seq<char> {
    if deps > 5 {
        counted("\n**Warning:** High fan-in ("@, deps, " dependents) — changes here have wide impact"@)
    } else {
        seq![]
    }
}

/// The note of a prompt summary on a file whose symbols carry no doc comment.
pub open spec fn prompt_note(symbols: Seq<Symbol>) -> Seq<char> {
    if symbols.len() > 0 && undocumented(symbols) {
        counted("\n**Note:** "@, symbols.len(), " symbols, none documented"@)
    } else {
        seq![]
    }
}

/// The text a prompt gets for one file it mentions; none for a file the index knows
/// nothing about (no imports, no dependents, no symbols).
pub open spec fn prompt_file_context(cwd: Seq<char>, d: FileDetail) -> Option<Seq<char>> {
    if d.imports@.len() == 0 && d.dependents@.len() == 0 && d.symbols@.len() == 0 {
        None
    } else {
        Some(
            "### "@ + relative(d.file_path@, cwd) + prompt_warning(d.dependents@.len()) + prompt_note(d.symbols@)
                + list_line("\n**Imports:** "@, d.imports@, cwd, usize::MAX as nat)
                + list_line("\n**Imported by:** "@, d.dependents@, cwd, usize::MAX as nat),
        )
    }
}

/// The text a prompt gets for one file it mentions.
pub fn format_prompt_file_context(cwd: &str, detail: &FileDetail) -> (r: Option<String>)
    ensures
        match prompt_file_context(cwd@, *detail) {
            Some(t) => r is Some && r->0@ == t,
            None => r is None,
        },
{
    let deps = detail.dependents.len();
    let syms = detail.symbols.len();
    if detail.imports.len() == 0 && deps == 0 && syms == 0 {
        return None;
    }
    let mut part = String::from_str("### ");
    part.append(rel_path(detail.file_path.as_str(), cwd).as_str());
    let ghost p0 = part@;
    if deps > 5 {
        append_counted(&mut part, "\n**Warning:** High fan-in (", deps, " dependents) — changes here have wide impact");
    }
    assert(part@ =~= p0 + prompt_warning(deps as nat));
    let ghost p1 = part@;
    if syms > 0 && all_undocumented(&detail.symbols) {
        append_counted(&mut part, "\n**Note:** ", syms, " symbols, none documented");
    }
    assert(part@ =~= p1 + prompt_note(detail.symbols@));
    let ghost p2 = part@;
    append_list_line(&mut part, "\n**Imports:** ", &detail.imports, cwd, usize::MAX);
    let ghost p3 = part@;
    append_list_line(&mut part, "\n**Imported by:** ", &detail.dependents, cwd, usize::MAX);
    proof {
        let t = prompt_file_context(cwd@, *detail);
        assert(part@ =~= t->0);
    }
    Some(part)
}

/// The fan-in line of a read or edit notice.
pub open spec fn fan_in_part(n: nat) -> Seq<Seq<char>> {
    if n > 5 {
        seq![counted("**Warning:** High fan-in ("@, n, " dependents) — changes here have wide impact"@)]
    } else if n > 0 {
        seq![counted("**Dependents:** "@, n, ""@)]
    } else {
        seq![]
    }
}

/// `" + {n} more"` for a list cut to `shown` of `n` entries.
pub open spec fn more_suffix(n: nat, shown: nat) -> Seq<char> {
    if n > shown {
        counted(" + "@, (n - shown) as nat, " more"@)
    } else {
        seq![]
    }
}

/// The importers line of a read or edit notice: the first 8 importers, and how many more.
pub open spec fn importers_part(cwd: Seq<char>, d: FileDetail) -> Seq<Seq<char>> {
    let n = d.dependents@.len();
    if n > 0 {
        seq!["**Imported by:** "@ + path_list(d.dependents@, cwd, 8) + more_suffix(n, 8)]
    } else {
        seq![]
    }
}

/// The lines of a read or edit notice: fan-in, imports, and the first 8 importers.
pub open spec fn tool_parts(cwd: Seq<char>, d: FileDetail) -> Seq<Seq<char>> {
    fan_in_part(d.dependents@.len()) + (if d.imports@.len() > 0 {
        seq!["**Imports:** "@ + path_list(d.imports@, cwd, usize::MAX as nat)]
    } else {
        seq![]
    }) + importers_part(cwd, d)
}

/// The notice shown before a file is read or edited (`action` says which); none when the
/// index knows nothing of the file's imports or importers.
pub open spec fn tool_file_context(cwd: Seq<char>, d: FileDetail, action: Seq<char>) -> Option<Seq<char>> {
    if d.imports@.len() == 0 && d.dependents@.len() == 0 && d.symbols@.len() == 0 {
        None
    } else {
        let parts = tool_parts(cwd, d);
        if parts.len() == 0 {
            None
        } else {
            Some("## [cartographer] "@ + action + " `"@ + relative(d.file_path@, cwd) + "`\n"@ + join_by(parts, "\n"@))
        }
    }
}

fn append_more(s: &mut String, n: usize, shown: usize)
    ensures
        final(s)@ == old(s)@ + more_suffix(n as nat, shown as nat),
{
    if n > shown {
        append_counted(s, " + ", n - shown, " more");
    } else {
        assert(s@ =~= old(s)@ + more_suffix(n as nat, shown as nat));
    }
}

/// The notice shown before a file is read or edited.
pub fn format_tool_file_context(cwd: &str, detail: &FileDetail, action: &str) -> (r: Option<String>)
    ensures
        match tool_file_context(cwd@, *detail, action@) {
            Some(t) => r is Some && r->0@ == t,
            None => r is None,
        },
{
    if detail.imports.len() == 0 && detail.dependents.len() == 0 && detail.symbols.len() == 0 {
        return None;
    }
    let rp = rel_path(detail.file_path.as_str(), cwd);
    let n = detail.dependents.len();
    let mut parts: Vec<String> = Vec::new();
    if n > 5 {
        let mut w = String::new();
        append_counted(&mut w, "**Warning:** High fan-in (", n, " dependents) — changes here have wide impact");
        parts.push(w);
        assert(string_views(parts@) =~= seq![w@]);
    } else if n > 0 {
        let mut w = String::new();
        append_counted(&mut w, "**Dependents:** ", n, "");
        parts.push(w);
        assert(string_views(parts@) =~= seq![w@]);
    }
    let ghost q0 = string_views(parts@);
    assert(q0 =~= fan_in_part(n as nat));
    if detail.imports.len() > 0 {
        let mut w = String::from_str("**Imports:** ");
        w.append(format_path_list(&detail.imports, cwd, usize::MAX).as_str());
        parts.push(w);
        assert(string_views(parts@) =~= q0.push(w@));
    }
    let ghost q1 = string_views(parts@);
    if n > 0 {
        let mut w = String::from_str("**Imported by:** ");
        w.append(format_path_list(&detail.dependents, cwd, 8).as_str());
        append_more(&mut w, n, 8);
        parts.push(w);
        assert(string_views(parts@) =~= q1.push(w@));
        assert(importers_part(cwd@, *detail) =~= seq![w@]);
    } else {
        assert(importers_part(cwd@, *detail) =~= Seq::<Seq<char>>::empty());
    }
    proof {
        assert(string_views(parts@) =~= tool_parts(cwd@, *detail));
    }
    if parts.len() == 0 {
        return None;
    }
    let mut out = String::from_str("## [cartographer] ");
    out.append(action);
    out.append(" `");
    out.append(rp.as_str());
    out.append("`\n");
    out.append(join_strings(&parts, "\n").as_str());
    Some(out)
}

/// How many symbols of the list count as public.
pub open spec fn public_count(symbols: Seq<Symbol>) -> nat
    decreases symbols.len(),
{
    if symbols.len() == 0 {
        0
    } else {
        public_count(symbols.drop_last()) + if is_public(symbols.last().visibility) {
            1nat
        } else {
            0nat
        }
    }
}

proof fn lemma_public_count_bound(symbols: Seq<Symbol>)
    ensures
        public_count(symbols) <= symbols.len(),
    decreases symbols.len(),
{
    if symbols.len() > 0 {
        lemma_public_count_bound(symbols.drop_last());
    }
}

fn count_public(symbols: &Vec<Symbol>) -> (r: usize)
    ensures
        r == public_count(symbols@),
{
    let mut c: usize = 0;
    let mut i: usize = 0;
    while i < symbols.len()
        invariant
            i <= symbols.len(),
            c == public_count(symbols@.take(i as int)),
        decreases symbols.len() - i,
    {
        proof {
            assert(symbols@.take(i + 1).drop_last() =~= symbols@.take(i as int));
            lemma_public_count_bound(symbols@.take(i as int));
        }
        if is_public_visibility(symbols[i].visibility) {
            c += 1;
        }
        i += 1;
    }
    proof {
        assert(symbols@.take(symbols.len() as int) =~= symbols@);
    }
    c
}

/// The importers line of a compacted summary: the first 5 importers, and how many more.
pub open spec fn compact_dependents(cwd: Seq<char>, d: FileDetail) -> Seq<char> {
    let n = d.dependents@.len();
    if n > 0 {
        counted("\n**Dependents ("@, n, "):** "@) + path_list(d.dependents@, cwd, 5) + more_suffix(n, 5)
    } else {
        seq![]
    }
}

/// The symbols line of a compacted summary: how many, and how many are public.
pub open spec fn compact_symbols(symbols: Seq<Symbol>) -> Seq<char> {
    if symbols.len() > 0 {
        counted("\n**Symbols:** "@, symbols.len(), " total, "@) + counted(""@, public_count(symbols), " public"@)
    } else {
        seq![]
    }
}

/// The summary of one changed file after the context was compacted: its line counts,
/// its first 5 importers, its imports, and its symbol counts.
pub open spec fn compact_file_context(cwd: Seq<char>, d: FileDetail, added: Seq<char>, removed: Seq<char>) -> Seq<char> {
    "### "@ + relative(d.file_path@, cwd) + " (+"@ + added + "/-"@ + removed + ")"@ + compact_dependents(cwd, d)
        + list_line("\n**Imports:** "@, d.imports@, cwd, usize::MAX as nat) + compact_symbols(d.symbols@)
}

/// The summary of one changed file after the context was compacted.
pub fn format_compact_file_context(cwd: &str, detail: &FileDetail, added: &str, removed: &str) -> (r: String)
    ensures
        r@ == compact_file_context(cwd@, *detail, added@, removed@),
{
    let mut part = String::from_str("### ");
    part.append(rel_path(detail.file_path.as_str(), cwd).as_str());
    part.append(" (+");
    part.append(added);
    part.append("/-");
    part.append(removed);
    part.append(")");
    let ghost p0 = part@;
    let n = detail.dependents.len();
    if n > 0 {
        append_counted(&mut part, "\n**Dependents (", n, "):** ");
        part.append(format_path_list(&detail.dependents, cwd, 5).as_str());
        append_more(&mut part, n, 5);
    }
    assert(part@ =~= p0 + compact_dependents(cwd@, *detail));
    let ghost p1 = part@;
    append_list_line(&mut part, "\n**Imports:** ", &detail.imports, cwd, usize::MAX);
    let ghost p2 = part@;
    let syms = detail.symbols.len();
    if syms > 0 {
        let pubs = count_public(&detail.symbols);
        append_counted(&mut part, "\n**Symbols:** ", syms, " total, ");
        append_counted(&mut part, "", pubs, " public");
    }
    assert(part@ =~= p2 + compact_symbols(detail.symbols@));
    proof {
        assert(part@ =~= compact_file_context(cwd@, *detail, added@, removed@));
    }
    part
}

/// A hook's answer: the event it answers and the text it adds, as specified.
pub open spec fn answers(r: Option<(String, String)>, s: Option<(Seq<char>, Seq<char>)>) -> bool {
    match s {
        Some(t) => match r {
            Some(x) => x.0@ == t.0 && x.1@ == t.1,
            None => false,
        },
        None => r is None,
    }
}

/// The file mentions a prompt is searched for; none when there is no prompt or it is empty.
pub fn prompt_mentions(prompt: &Option<String>) -> (r: Option<Vec<String>>)
    ensures
        r is None <==> (prompt is None || prompt->0@.len() == 0),
        r is Some ==> crate::order::strictly_sorted(string_views(r->0@)),
        r is Some ==> forall|w: Seq<char>| #[trigger] string_views(r->0@).contains(w)
            <==> crate::mentions::mention_words(prompt->0@).contains(w),
{
    match prompt {
        Some(p) => {
            if p.as_str().is_empty() {
                None
            } else {
                Some(crate::mentions::extract_file_mentions(p.as_str()))
            }
        },
        None => None,
    }
}

/// The summaries of the files a prompt mentions, skipping files the index knows nothing of.
pub open spec fn prompt_parts(cwd: Seq<char>, details: Seq<FileDetail>) -> Seq<Seq<char>>
    decreases details.len(),
{
    if details.len() == 0 {
        seq![]
    } else {
        prompt_parts(cwd, details.drop_last()) + match prompt_file_context(cwd, details.last()) {
            Some(t) => seq![t],
            None => seq![],
        }
    }
}

/// What a prompt is answered with, given the index entries of the files it mentions
/// (in the order they were found): their summaries, or nothing when there are none.
pub open spec fn prompt_answer(cwd: Seq<char>, details: Seq<FileDetail>) -> Option<(Seq<char>, Seq<char>)> {
    let parts = prompt_parts(cwd, details);
    if parts.len() == 0 {
        None
    } else {
        Some(("UserPromptSubmit"@, "## Relevant files\n"@ + join_by(parts, "\n"@)
            + "\n\nUse `cartographer_query` for deeper dependency analysis."@))
    }
}

/// Answers a submitted prompt from the index entries of the files it mentions.
pub fn hook_prompt(cwd: &str, details: &Vec<FileDetail>) -> (r: Option<(String, String)>)
    ensures
        answers(r, prompt_answer(cwd@, details@)),
{
    let mut parts: Vec<String> = Vec::new();
    let mut i: usize = 0;
    while i < details.len()
        invariant
            i <= details.len(),
            string_views(parts@) == prompt_parts(cwd@, details@.take(i as int)),
        decreases details.len() - i,
    {
        let ghost before = string_views(parts@);
        proof {
            assert(details@.take(i + 1).drop_last() =~= details@.take(i as int));
        }
        match format_prompt_file_context(cwd, &details[i]) {
            Some(t) => {
                parts.push(t);
                assert(string_views(parts@) =~= before + seq![t@]);
            },
            None => {
                assert(string_views(parts@) =~= before + Seq::<Seq<char>>::empty());
            },
        }
        i += 1;
    }
    proof {
        assert(details@.take(details.len() as int) =~= details@);
    }
    if parts.len() == 0 {
        return None;
    }
    let mut context = String::from_str("## Relevant files\n");
    context.append(join_strings(&parts, "\n").as_str());
    context.append("\n\nUse `cartographer_query` for deeper dependency analysis.");
    Some((String::from_str("UserPromptSubmit"), context))
}

/// What a read or edit of a file is answered with: the file's notice, if it has one.
pub open spec fn tool_answer(cwd: Seq<char>, d: FileDetail, action: Seq<char>) -> Option<(Seq<char>, Seq<char>)> {
    match tool_file_context(cwd, d, action) {
        Some(t) => Some(("PreToolUse"@, t)),
        None => None,
    }
}

/// Answers a read or edit of a file from its index entry; `action` names the tool.
pub fn hook_file_tool(cwd: &str, detail: &FileDetail, action: &str) -> (r: Option<(String, String)>)
    ensures
        answers(r, tool_answer(cwd@, *detail, action@)),
{
    match format_tool_file_context(cwd, detail, action) {
        Some(t) => Some((String::from_str("PreToolUse"), t)),
        None => None,
    }
}

/// Answers a file about to be read, from its index entry.
pub fn hook_pre_read(cwd: &str, detail: &FileDetail) -> (r: Option<(String, String)>)
    ensures
        answers(r, tool_answer(cwd@, *detail, "Reading"@)),
{
    hook_file_tool(cwd, detail, "Reading")
}

/// Answers a file about to be edited, from its index entry.
pub fn hook_pre_edit(cwd: &str, detail: &FileDetail) -> (r: Option<(String, String)>)
    ensures
        answers(r, tool_answer(cwd@, *detail, "Editing"@)),
{
    hook_file_tool(cwd, detail, "Editing")
}

/// The line for one changed file `(added, removed, file, dependents)`: its path and line
/// counts, and its number of importers when it has any.
pub open spec fn edit_line(f: (String, String, String, usize)) -> Seq<char> {
    "- `"@ + f.2@ + "` (+"@ + f.0@ + "/-"@ + f.1@ + ")"@ + if f.3 > 0 {
        counted(" — "@, f.3 as nat, " dependents"@)
    } else {
        seq![]
    }
}

/// What an edit is answered with, given the changed files of the work tree: one line per
/// file, or nothing when no file changed.
pub open spec fn edit_answer(changed: Seq<(String, String, String, usize)>) -> Option<(Seq<char>, Seq<char>)> {
    if changed.len() == 0 {
        None
    } else {
        Some(("PostToolUse"@, "## [cartographer] Modified files\n"@ + join_by(changed.map_values(|f: (String, String, String, usize)| edit_line(f)), "\n"@)
            + "\n\nRun `cartographer_detect_changes` to update the import graph."@))
    }
}

fn format_edit_line(f: &(String, String, String, usize)) -> (r: String)
    ensures
        r@ == edit_line(*f),
{
    let mut s = String::from_str("- `");
    s.append(f.2.as_str());
    s.append("` (+");
    s.append(f.0.as_str());
    s.append("/-");
    s.append(f.1.as_str());
    s.append(")");
    let ghost s0 = s@;
    if f.3 > 0 {
        append_counted(&mut s, " — ", f.3, " dependents");
    }
    assert(s@ =~= edit_line(*f));
    s
}

/// Answers an edit with the files changed in the work tree: `(added, removed, file,
/// dependents)` for each, in the order `git diff --numstat` lists them.
pub fn hook_post_edit(changed: &Vec<(String, String, String, usize)>) -> (r: Option<(String, String)>)
    ensures
        answers(r, edit_answer(changed@)),
{
    if changed.len() == 0 {
        return None;
    }
    let mut lines: Vec<String> = Vec::new();
    let mut i: usize = 0;
    while i < changed.len()
        invariant
            i <= changed.len(),
            string_views(lines@) == changed@.take(i as int).map_values(|f: (String, String, String, usize)| edit_line(f)),
        decreases changed.len() - i,
    {
        let ghost before = string_views(lines@);
        let l = format_edit_line(&changed[i]);
        lines.push(l);
        proof {
            assert(changed@.take(i + 1) =~= changed@.take(i as int).push(changed@[i as int]));
            assert(string_views(lines@) =~= before.push(l@));
            assert(string_views(lines@) =~= changed@.take(i + 1).map_values(|f: (String, String, String, usize)| edit_line(f)));
        }
        i += 1;
    }
    proof {
        assert(changed@.take(changed.len() as int) =~= changed@);
    }
    let mut context = String::from_str("## [cartographer] Modified files\n");
    context.append(join_strings(&lines, "\n").as_str());
    context.append("\n\nRun `cartographer_detect_changes` to update the import graph.");
    Some((String::from_str("PostToolUse"), context))
}

/// The summaries of the changed files the index knows, each `(added, removed, entry)`.
pub open spec fn compact_parts(cwd: Seq<char>, files: Seq<(String, String, FileDetail)>) -> Seq<Seq<char>> {
    files.map_values(|f: (String, String, FileDetail)| compact_file_context(cwd, f.2, f.0@, f.1@))
}

/// What a compaction of the context is answered with: the summaries of the changed files
/// the index knows, or nothing when there are none.
pub open spec fn compact_answer(cwd: Seq<char>, files: Seq<(String, String, FileDetail)>) -> Option<(Seq<char>, Seq<char>)> {
    if files.len() == 0 {
        None
    } else {
        Some(("PostCompact"@, "# [cartographer] Structural context for modified files\n\nThese files have been modified during this session. Preserve awareness of their graph relationships.\n\n"@
            + join_by(compact_parts(cwd, files), "\n\n"@) + "\n\nUse `cartographer_query` to explore deeper dependency chains."@))
    }
}

/// Answers a compaction of the context with the changed files the index knows, each with
/// its line counts, in the order `git diff --numstat` lists them.
pub fn hook_post_compact(cwd: &str, files: &Vec<(String, String, FileDetail)>) -> (r: Option<(String, String)>)
    ensures
        answers(r, compact_answer(cwd@, files@)),
{
    if files.len() == 0 {
        return None;
    }
    let mut parts: Vec<String> = Vec::new();
    let mut i: usize = 0;
    while i < files.len()
        invariant
            i <= files.len(),
            string_views(parts@) == compact_parts(cwd@, files@.take(i as int)),
        decreases files.len() - i,
    {
        let ghost before = string_views(parts@);
        let f = &files[i];
        let t = format_compact_file_context(cwd, &f.2, f.0.as_str(), f.1.as_str());
        parts.push(t);
        proof {
            assert(files@.take(i + 1) =~= files@.take(i as int).push(files@[i as int]));
            assert(string_views(parts@) =~= before.push(t@));
            assert(string_views(parts@) =~= compact_parts(cwd@, files@.take(i + 1)));
        }
        i += 1;
    }
    proof {
        assert(files@.take(files.len() as int) =~= files@);
    }
    let mut context = String::from_str("# [cartographer] Structural context for modified files\n\nThese files have been modified during this session. Preserve awareness of their graph relationships.\n\n");
    context.append(join_strings(&parts, "\n\n").as_str());
    context.append("\n\nUse `cartographer_query` to explore deeper dependency chains.");
    Some((String::from_str("PostCompact"), context))
}

/// The text a session starts with: the guide, then, when the project is known
/// (`counts` holds its file and import counts), its index status.
pub open spec fn session_text(cwd: Seq<char>, counts: Option<(i64, i64)>) -> Seq<char> {
    SESSION_GUIDE@ + match counts {
        None => seq![],
        Some(c) => if cwd.len() == 0 {
            seq![]
        } else if c.0 == 0 {
            "\n\n## Index Status\n- Project not yet indexed. Run `cartographer_index_project` with project path `"@ + cwd
                + "` to build the import graph."@
        } else {
            "\n\n## Index Status\n- **Project**: "@ + cwd + "\n- **Files indexed**: "@ + signed_decimal(c.0 as int)
                + "\n- **Import edges**: "@ + signed_decimal(c.1 as int)
                + "\n- Run `cartographer_detect_changes` if files have changed since last index"@
        },
    }
}

/// The text a session starts with, given the project's file and import counts when the
/// index could be opened.
pub fn session_context(cwd: &str, counts: Option<(i64, i64)>) -> (r: String)
    ensures
        r@ == session_text(cwd@, counts),
{
    let mut context = String::from_str(SESSION_GUIDE);
    match counts {
        None => {},
        Some(c) => {
            if !cwd.is_empty() {
                if c.0 == 0 {
                    context.append("\n\n## Index Status\n- Project not yet indexed. Run `cartographer_index_project` with project path `");
                    context.append(cwd);
                    context.append("` to build the import graph.");
                } else {
                    context.append("\n\n## Index Status\n- **Project**: ");
                    context.append(cwd);
                    context.append("\n- **Files indexed**: ");
                    context.append(signed_decimal_string(c.0).as_str());
                    context.append("\n- **Import edges**: ");
                    context.append(signed_decimal_string(c.1).as_str());
                    context.append("\n- Run `cartographer_detect_changes` if files have changed since last index");
                }
            }
        },
    }
    assert(context@ =~= session_text(cwd@, counts));
    context
}

/// What a session start is answered with.
pub fn hook_context(cwd: &str, counts: Option<(i64, i64)>) -> (r: (String, String))
    ensures
        r.0@ == "SessionStart"@,
        r.1@ == session_text(cwd@, counts),
{
    (String::from_str("SessionStart"), session_context(cwd, counts))
}

/// A file named relative to `cwd` and made absolute by `resolve_abs_path` is given back
/// unchanged by `rel_path`.
pub proof fn law_rel_path_undoes_abs_path(file: Seq<char>, cwd: Seq<char>)
    requires
        file.len() == 0 || file[0] != '/',
    ensures
        relative(abs_path(file, cwd), cwd) == file,
{
    let a = abs_path(file, cwd);
    assert(a == cwd + seq!['/'] + file);
    assert(a.take(cwd.len() as int) =~= cwd);
    let rest = a.skip(cwd.len() as int);
    assert(rest =~= seq!['/'] + file);
    assert(rest.drop_first() =~= file);
    assert(crate::text::lead_count(rest, '/') == 1 + crate::text::lead_count(file, '/'));
    assert(crate::text::lead_count(file, '/') == 0);
    assert(rest.skip(1) =~= file);
}


/// A read or edit notice is given exactly when the index knows of the file's imports or
/// importers: symbols alone give none.
pub proof fn law_tool_notice_needs_links(cwd: Seq<char>, d: FileDetail, action: Seq<char>)
    ensures
        (tool_file_context(cwd, d, action) is Some) <==> (d.imports@.len() > 0 || d.dependents@.len() > 0),
{
    let parts = tool_parts(cwd, d);
    if d.dependents@.len() > 0 {
        assert(parts.len() >= fan_in_part(d.dependents@.len()).len());
    } else if d.imports@.len() > 0 {
        assert(fan_in_part(d.dependents@.len()).len() == 0);
        assert(importers_part(cwd, d).len() == 0);
    } else {
        assert(parts.len() == 0);
    }
}


/// A prompt summary carries the note "n symbols, none documented" exactly when the file
/// has symbols and none of them carries a doc comment; one documented symbol is enough to
/// leave the note out.
pub proof fn law_note_only_without_docs(cwd: Seq<char>, d: FileDetail)
    ensures
        (exists|i: int| 0 <= i < d.symbols@.len() && (#[trigger] d.symbols@[i]).doc_comment is Some) ==> prompt_file_context(cwd, d) == Some(
            "### "@ + relative(d.file_path@, cwd) + prompt_warning(d.dependents@.len())
                + list_line("\n**Imports:** "@, d.imports@, cwd, usize::MAX as nat)
                + list_line("\n**Imported by:** "@, d.dependents@, cwd, usize::MAX as nat),
        ),
        (d.symbols@.len() > 0 && forall|i: int| 0 <= i < d.symbols@.len() ==> (#[trigger] d.symbols@[i]).doc_comment is None) ==> prompt_file_context(cwd, d) == Some(
            "### "@ + relative(d.file_path@, cwd) + prompt_warning(d.dependents@.len())
                + "\n**Note:** "@ + decimal(d.symbols@.len()) + " symbols, none documented"@
                + list_line("\n**Imports:** "@, d.imports@, cwd, usize::MAX as nat)
                + list_line("\n**Imported by:** "@, d.dependents@, cwd, usize::MAX as nat),
        ),
{
    let head = "### "@ + relative(d.file_path@, cwd) + prompt_warning(d.dependents@.len());
    let tail = list_line("\n**Imports:** "@, d.imports@, cwd, usize::MAX as nat)
        + list_line("\n**Imported by:** "@, d.dependents@, cwd, usize::MAX as nat);
    if exists|i: int| 0 <= i < d.symbols@.len() && (#[trigger] d.symbols@[i]).doc_comment is Some {
        let i = choose|i: int| 0 <= i < d.symbols@.len() && (#[trigger] d.symbols@[i]).doc_comment is Some;
        assert(!undocumented(d.symbols@));
        assert(prompt_note(d.symbols@) =~= Seq::<char>::empty());
        assert(head + prompt_note(d.symbols@) =~= head);
    }
    if d.symbols@.len() > 0 && forall|i: int| 0 <= i < d.symbols@.len() ==> (#[trigger] d.symbols@[i]).doc_comment is None {
        assert(undocumented(d.symbols@));
    }
}


/// The fan-in lines: a prompt summary warns of high fan-in exactly above 5 importers; a
/// read or edit notice warns above 5 importers, counts them from 1 to 5, and says nothing
/// of fan-in without importers. Lists are cut after 8 importers in a notice and after 5
/// in a compacted summary, naming how many more there are.
pub proof fn law_fan_in_lines(n: nat, cwd: Seq<char>, d: FileDetail)
    ensures
        (prompt_warning(n).len() > 0) <==> n > 5,
        n > 5 ==> fan_in_part(n) == seq!["**Warning:** High fan-in ("@ + decimal(n) + " dependents) — changes here have wide impact"@],
        1 <= n <= 5 ==> fan_in_part(n) == seq!["**Dependents:** "@ + decimal(n)],
        n == 0 ==> fan_in_part(n).len() == 0,
        d.dependents@.len() > 8 ==> importers_part(cwd, d) == seq![
            "**Imported by:** "@ + join_by(rel_paths(d.dependents@.take(8), cwd), ", "@) + " + "@ + decimal((d.dependents@.len() - 8) as nat) + " more"@,
        ],
        1 <= d.dependents@.len() <= 8 ==> importers_part(cwd, d) == seq![
            "**Imported by:** "@ + join_by(rel_paths(d.dependents@, cwd), ", "@),
        ],
        d.dependents@.len() > 5 ==> compact_dependents(cwd, d) == "\n**Dependents ("@ + decimal(d.dependents@.len()) + "):** "@
            + join_by(rel_paths(d.dependents@.take(5), cwd), ", "@) + " + "@ + decimal((d.dependents@.len() - 5) as nat) + " more"@,
{
    reveal_strlit(", ");
    assert(", "@ =~= seq![',', ' ']);
    if n > 5 {
        assert(prompt_warning(n).len() > 0) by {
            reveal_strlit("\n**Warning:** High fan-in (");
        }
    }
    let m = d.dependents@.len();
    if 1 <= m <= 8 {
        assert(d.dependents@.take(m as int) =~= d.dependents@);
        assert(more_suffix(m, 8) =~= Seq::<char>::empty());
        assert("**Imported by:** "@ + path_list(d.dependents@, cwd, 8) + more_suffix(m, 8) =~= "**Imported by:** "@ + join_by(rel_paths(d.dependents@, cwd), ", "@));
    }
    if m > 8 {
        assert("**Imported by:** "@ + path_list(d.dependents@, cwd, 8) + more_suffix(m, 8) =~= "**Imported by:** "@ + join_by(rel_paths(d.dependents@.take(8), cwd), ", "@) + " + "@ + decimal((m - 8) as nat) + " more"@);
    }
    if n > 0 && n <= 5 {
        assert("**Dependents:** "@ + decimal(n) + ""@ =~= "**Dependents:** "@ + decimal(n)) by {
            reveal_strlit("");
        }
    }
}

} // verus!
