//! Deciding what to index: which files a project walk takes, which files `git` reports
//! as changed, and which of them must be parsed again or dropped.
use vstd::prelude::*;
use vstd::string::*;
use crate::disk::{ask_exists, DiskAnswer};
use crate::constants::{is_skip_dir, is_supported_extension, language_of, skip_dirs};
use crate::paths::{dotted_extension, dotted_extension_string, join, join_path};
use crate::text::{
    char_index_at_byte, char_index_of_byte, chars_of, lines, slice_chars, split_char, split_chars,
    split_lines, string_of, string_views, trim, trim_chars, utf8_len, utf8_len_at_least,
};

verus! {

/// A status is a deletion: `D`, or `D` followed by a blank.
pub open spec fn is_deletion(status: Seq<char>) -> bool {
    status == seq!['D'] || status == seq!['D', ' ']
}

/// The value of `key` in a list of `(key, value)` rows (the first row with that key).
pub open spec fn lookup(rows: Seq<(String, String)>, key: Seq<char>) -> Option<Seq<char>>
    decreases rows.len(),
{
    if rows.len() == 0 {
        None
    } else if rows[0].0@ == key {
        Some(rows[0].1@)
    } else {
        lookup(rows.drop_first(), key)
    }
}

/// No two rows share a key.
pub open spec fn distinct_keys(rows: Seq<(String, String)>) -> bool {
    forall|i: int, j: int| 0 <= i < j < rows.len() ==> #[trigger] rows[i].0@ != #[trigger] rows[j].0@
}

/// The rows read as a map from key to value.
pub open spec fn as_map(rows: Seq<(String, String)>) -> Map<Seq<char>, Seq<char>>
    decreases rows.len(),
{
    if rows.len() == 0 {
        Map::empty()
    } else {
        as_map(rows.drop_last()).insert(rows.last().0@, rows.last().1@)
    }
}

/// The files of `current` whose status is not a deletion and differs from `last`.
pub open spec fn modified_files(last: Seq<(String, String)>, current: Seq<(String, String)>) -> Seq<Seq<char>>
    decreases current.len(),
{
    if current.len() == 0 {
        seq![]
    } else {
        let e = current.last();
        modified_files(last, current.drop_last()) + if !is_deletion(e.1@) && lookup(last, e.0@) != Some(e.1@) {
            seq![e.0@]
        } else {
            seq![]
        }
    }
}

/// The files of `current` whose status is a deletion.
pub open spec fn deleted_files(current: Seq<(String, String)>) -> Seq<Seq<char>>
    decreases current.len(),
{
    if current.len() == 0 {
        seq![]
    } else {
        let e = current.last();
        deleted_files(current.drop_last()) + if is_deletion(e.1@) {
            seq![e.0@]
        } else {
            seq![]
        }
    }
}

/// The files of `last` that `current` no longer lists and that are gone from the disk,
/// `present[i]` telling whether the file of `last[i]` still exists.
pub open spec fn vanished_files(last: Seq<(String, String)>, current: Seq<(String, String)>, present: Seq<bool>) -> Seq<Seq<char>>
    decreases last.len(),
{
    if last.len() == 0 {
        seq![]
    } else {
        let e = last.last();
        vanished_files(last.drop_last(), current, present.drop_last()) + if lookup(current, e.0@) is None
            && !present.last() {
            seq![e.0@]
        } else {
            seq![]
        }
    }
}

/// The changes between two git status snapshots: the files to parse again, and the files
/// to drop (deleted now, then gone since the last snapshot).
pub open spec fn status_diff(last: Seq<(String, String)>, current: Seq<(String, String)>, present: Seq<bool>) -> (Seq<Seq<char>>, Seq<Seq<char>>) {
    (modified_files(last, current), deleted_files(current) + vanished_files(last, current, present))
}

fn lookup_exec(rows: &Vec<(String, String)>, key: &String) -> (r: Option<usize>)
    ensures
        match lookup(rows@, key@) {
            Some(v) => r is Some && r->0 < rows@.len() && rows@[r->0 as int].1@ == v && rows@[r->0 as int].0@ == key@,
            None => r is None,
        },
{
    let mut i: usize = 0;
    assert(rows@.skip(0) =~= rows@);
    while i < rows.len()
        invariant
            i <= rows.len(),
            lookup(rows@, key@) == lookup(rows@.skip(i as int), key@),
        decreases rows.len() - i,
    {
        proof {
            assert(rows@.skip(i as int).drop_first() =~= rows@.skip(i + 1));
            assert(rows@.skip(i as int)[0] == rows@[i as int]);
        }
        if rows[i].0 == *key {
            return Some(i);
        }
        i += 1;
    }
    assert(rows@.skip(i as int) =~= Seq::<(String, String)>::empty());
    None
}

fn is_deletion_exec(status: &String) -> (r: bool)
    ensures
        r == is_deletion(status@),
{
    let s = chars_of(status.as_str());
    let r = (s.len() == 1 && s[0] == 'D') || (s.len() == 2 && s[0] == 'D' && s[1] == ' ');
    proof {
        if s.len() == 1 && s[0] == 'D' {
            assert(s@ =~= seq!['D']);
        }
        if s.len() == 2 && s[0] == 'D' && s[1] == ' ' {
            assert(s@ =~= seq!['D', ' ']);
        }
        if s@ == seq!['D'] {
            assert(s@[0] == 'D');
        }
        if s@ == seq!['D', ' '] {
            assert(s@[0] == 'D' && s@[1] == ' ');
        }
    }
    r
}

/// The changes between the last git status snapshot and the current one, `present[i]`
/// telling whether the file of `last[i]` still exists on disk.
pub fn diff_statuses(last: &Vec<(String, String)>, current: &Vec<(String, String)>, present: &Vec<bool>) -> (r: (Vec<String>, Vec<String>))
    requires
        present@.len() == last@.len(),
    ensures
        string_views(r.0@) == status_diff(last@, current@, present@).0,
        string_views(r.1@) == status_diff(last@, current@, present@).1,
{
    let mut modified: Vec<String> = Vec::new();
    let mut deleted: Vec<String> = Vec::new();
    let mut i: usize = 0;
    while i < current.len()
        invariant
            i <= current.len(),
            string_views(modified@) == modified_files(last@, current@.take(i as int)),
            string_views(deleted@) == deleted_files(current@.take(i as int)),
        decreases current.len() - i,
    {
        let ghost m0 = string_views(modified@);
        let ghost d0 = string_views(deleted@);
        proof {
            assert(current@.take(i + 1).drop_last() =~= current@.take(i as int));
        }
        let e = &current[i];
        if is_deletion_exec(&e.1) {
            deleted.push(e.0.clone());
            assert(string_views(deleted@) =~= d0 + seq![e.0@]);
            assert(string_views(modified@) =~= m0 + Seq::<Seq<char>>::empty());
        } else {
            let same = match lookup_exec(last, &e.0) {
                Some(k) => last[k].1 == e.1,
                None => false,
            };
            if !same {
                modified.push(e.0.clone());
                assert(string_views(modified@) =~= m0 + seq![e.0@]);
            } else {
                assert(string_views(modified@) =~= m0 + Seq::<Seq<char>>::empty());
            }
            assert(string_views(deleted@) =~= d0 + Seq::<Seq<char>>::empty());
        }
        i += 1;
    }
    proof {
        assert(current@.take(current.len() as int) =~= current@);
    }
    let ghost d1 = string_views(deleted@);
    let mut j: usize = 0;
    while j < last.len()
        invariant
            j <= last.len(),
            present@.len() == last@.len(),
            string_views(deleted@) == d1 + vanished_files(last@.take(j as int), current@, present@.take(j as int)),
        decreases last.len() - j,
    {
        let ghost d0 = string_views(deleted@);
        proof {
            assert(last@.take(j + 1).drop_last() =~= last@.take(j as int));
            assert(present@.take(j + 1).drop_last() =~= present@.take(j as int));
        }
        let e = &last[j];
        if lookup_exec(current, &e.0).is_none() && !present[j] {
            deleted.push(e.0.clone());
            assert(string_views(deleted@) =~= d0 + seq![e.0@]);
        } else {
            assert(string_views(deleted@) =~= d0 + Seq::<Seq<char>>::empty());
        }
        j += 1;
    }
    proof {
        assert(last@.take(last.len() as int) =~= last@);
        assert(present@.take(last.len() as int) =~= present@);
    }
    (modified, deleted)
}

/// Whether each file of the last snapshot still exists, by the answers: a file the
/// current snapshot lists is not asked about and counts as present.
pub open spec fn presence(answers: Seq<Option<DiskAnswer>>) -> Seq<bool> {
    answers.map_values(|a: Option<DiskAnswer>| match a {
        None => true,
        Some(x) => x.is_present(),
    })
}

/// The disk was asked, one answer per row of `last` in order, about exactly the files
/// that `current` no longer lists, each answer about its row's file.
pub open spec fn vanished_asked(last: Seq<(String, String)>, current: Seq<(String, String)>, answers: Seq<Option<DiskAnswer>>) -> bool {
    &&& answers.len() == last.len()
    &&& forall|j: int| 0 <= j < last.len() ==> ((#[trigger] answers[j]) is None <==> lookup(current, last[j].0@) is Some)
    &&& forall|j: int| 0 <= j < last.len() && #[trigger] answers[j] is Some ==> answers[j]->0.asked() == last[j].0@
}

/// The changes between the last git status snapshot and the current one (each a map from
/// file to status, so no file is listed twice): the files to parse again, and the files
/// to drop. Whether a file that only the last snapshot lists still exists is asked of the
/// disk; the answers come back too, one per row of the last snapshot (none for a file the
/// current snapshot lists).
pub fn diff_git_status(last_status: &Vec<(String, String)>, current_status: &Vec<(String, String)>) -> (r: (Vec<String>, Vec<String>, Vec<Option<DiskAnswer>>))
    requires
        distinct_keys(last_status@),
        distinct_keys(current_status@),
    ensures
        vanished_asked(last_status@, current_status@, r.2@),
        string_views(r.0@) == status_diff(last_status@, current_status@, presence(r.2@)).0,
        string_views(r.1@) == status_diff(last_status@, current_status@, presence(r.2@)).1,
{
    let mut answers: Vec<Option<DiskAnswer>> = Vec::new();
    let mut present: Vec<bool> = Vec::new();
    let mut j: usize = 0;
    while j < last_status.len()
        invariant
            j <= last_status.len(),
            answers@.len() == j,
            present@ == presence(answers@),
            forall|i: int| 0 <= i < j ==> ((#[trigger] answers@[i]) is None <==> lookup(current_status@, last_status@[i].0@) is Some),
            forall|i: int| 0 <= i < j && #[trigger] answers@[i] is Some ==> answers@[i]->0.asked() == last_status@[i].0@,
        decreases last_status.len() - j,
    {
        let listed = lookup_exec(current_status, &last_status[j].0).is_some();
        if listed {
            answers.push(None);
            present.push(true);
        } else {
            let a = ask_exists(last_status[j].0.as_str());
            present.push(a.present());
            answers.push(Some(a));
        }
        assert(present@ =~= presence(answers@));
        j += 1;
    }
    let r = diff_statuses(last_status, current_status, &present);
    (r.0, r.1, answers)
}

/// A line of `git status --porcelain=v1` that can be read: shorter than 4 bytes, or with
/// its second and third bytes starting characters (where the status and path are cut).
pub open spec fn readable_status_line(line: Seq<char>) -> bool {
    utf8_len(line) < 4 || (char_index_at_byte(line, 2) is Some && char_index_at_byte(line, 3) is Some)
}

/// The file and status a porcelain line reports, when it names a file of a supported
/// language: the status is the first two bytes trimmed, the path what follows the third
/// byte, joined to `root`.
pub open spec fn status_entry(root: Seq<char>, line: Seq<char>) -> Option<(Seq<char>, Seq<char>)> {
    if line.len() == 0 || utf8_len(line) < 4 {
        None
    } else {
        let status = trim(line.take(char_index_at_byte(line, 2)->0 as int));
        let path = join(root, line.skip(char_index_at_byte(line, 3)->0 as int));
        if language_of(dotted_extension(path)) is Some {
            Some((path, status))
        } else {
            None
        }
    }
}

/// The status of each file the porcelain lines report, a later line for the same file
/// replacing an earlier one.
pub open spec fn status_map(root: Seq<char>, ls: Seq<Seq<char>>) -> Map<Seq<char>, Seq<char>>
    decreases ls.len(),
{
    if ls.len() == 0 {
        Map::empty()
    } else {
        let m = status_map(root, ls.drop_last());
        match status_entry(root, ls.last()) {
            Some(e) => m.insert(e.0, e.1),
            None => m,
        }
    }
}

proof fn lemma_as_map_push(rows: Seq<(String, String)>, e: (String, String))
    requires
        distinct_keys(rows),
        forall|i: int| 0 <= i < rows.len() ==> #[trigger] rows[i].0@ != e.0@,
    ensures
        distinct_keys(rows.push(e)),
        as_map(rows.push(e)) == as_map(rows).insert(e.0@, e.1@),
{
    assert(rows.push(e).drop_last() =~= rows);
    assert forall|i: int, j: int| 0 <= i < j < rows.push(e).len() implies #[trigger] rows.push(e)[i].0@ != #[trigger] rows.push(e)[j].0@ by {
        if j == rows.len() {
            assert(rows.push(e)[i] == rows[i]);
        } else {
            assert(rows.push(e)[i] == rows[i] && rows.push(e)[j] == rows[j]);
        }
    }
}

proof fn lemma_as_map_set(rows: Seq<(String, String)>, k: int, v: String)
    requires
        distinct_keys(rows),
        0 <= k < rows.len(),
    ensures
        distinct_keys(rows.update(k, (rows[k].0, v))),
        as_map(rows.update(k, (rows[k].0, v))) == as_map(rows).insert(rows[k].0@, v@),
    decreases rows.len(),
{
    let nr = rows.update(k, (rows[k].0, v));
    assert forall|i: int, j: int| 0 <= i < j < nr.len() implies #[trigger] nr[i].0@ != #[trigger] nr[j].0@ by {
        assert(nr[i].0 == rows[i].0 && nr[j].0 == rows[j].0);
    }
    let d = rows.drop_last();
    if k == rows.len() - 1 {
        assert(nr.drop_last() =~= d);
        assert(as_map(rows).insert(rows[k].0@, v@) =~= as_map(d).insert(rows[k].0@, v@));
    } else {
        assert(nr.drop_last() =~= d.update(k, (d[k].0, v)));
        assert forall|i: int, j: int| 0 <= i < j < d.len() implies #[trigger] d[i].0@ != #[trigger] d[j].0@ by {
            assert(d[i] == rows[i] && d[j] == rows[j]);
        }
        lemma_as_map_set(d, k, v);
        assert(rows.last().0@ != rows[k].0@);
        assert(as_map(nr) =~= as_map(rows).insert(rows[k].0@, v@));
    }
}

/// Parses the output of `git status --porcelain=v1` run in `root`: the status of each
/// changed file of a supported language, by absolute path, one row per file.
pub fn parse_git_status(root: &str, raw: &str) -> (r: Vec<(String, String)>)
    requires
        forall|i: int| 0 <= i < lines(raw@).len() ==> readable_status_line(#[trigger] lines(raw@)[i]),
    ensures
        distinct_keys(r@),
        as_map(r@) == status_map(root@, lines(raw@)),
{
    let text = chars_of(raw);
    let ls = split_lines(&text);
    let rootc = chars_of(root);
    let mut out: Vec<(String, String)> = Vec::new();
    let mut i: usize = 0;
    while i < ls.len()
        invariant
            i <= ls.len(),
            ls@.len() == lines(raw@).len(),
            forall|k: int| 0 <= k < ls@.len() ==> #[trigger] ls@[k]@ == lines(raw@)[k],
            forall|k: int| 0 <= k < lines(raw@).len() ==> readable_status_line(#[trigger] lines(raw@)[k]),
            rootc@ == root@,
            distinct_keys(out@),
            as_map(out@) == status_map(root@, lines(raw@).take(i as int)),
        decreases ls.len() - i,
    {
        let line = &ls[i];
        let ghost l = lines(raw@)[i as int];
        proof {
            assert(lines(raw@).take(i + 1).drop_last() =~= lines(raw@).take(i as int));
            assert(line@ == l);
            assert(readable_status_line(l));
        }
        if line.len() > 0 && utf8_len_at_least(line, 4) {
            let k2 = char_index_of_byte(line, 2).unwrap();
            let k3 = char_index_of_byte(line, 3).unwrap();
            proof {
                crate::text::lemma_char_index_bound(l, 2);
                crate::text::lemma_char_index_bound(l, 3);
            }
            let status = trim_chars(&slice_chars(line, 0, k2));
            let rel = slice_chars(line, k3, line.len());
            let pathc = join_path(&rootc, &rel);
            proof {
                assert(line@.subrange(0, k2 as int) == l.take(k2 as int));
                assert(line@.subrange(k3 as int, line@.len() as int) == l.skip(k3 as int));
            }
            let path = string_of(&pathc);
            let ext = dotted_extension_string(path.as_str());
            if is_supported_extension(ext.as_str()) {
                let st = string_of(&status);
                match lookup_exec(&out, &path) {
                    Some(k) => {
                        proof {
                            lemma_as_map_set(out@, k as int, st);
                        }
                        let key = out[k].0.clone();
                        out.set(k, (key, st));
                        proof {
                            assert(out@[k as int].0@ == path@);
                        }
                    },
                    None => {
                        proof {
                            assert forall|m: int| 0 <= m < out@.len() implies #[trigger] out@[m].0@ != path@ by {
                                lemma_lookup_absent(out@, path@, m);
                            }
                            lemma_as_map_push(out@, (path, st));
                        }
                        out.push((path, st));
                    },
                }
            }
        }
        i += 1;
    }
    proof {
        assert(lines(raw@).take(ls@.len() as int) =~= lines(raw@));
    }
    out
}

proof fn lemma_lookup_absent(rows: Seq<(String, String)>, key: Seq<char>, m: int)
    requires
        lookup(rows, key) is None,
        0 <= m < rows.len(),
    ensures
        rows[m].0@ != key,
    decreases rows.len(),
{
    if m > 0 {
        assert(rows.drop_first()[m - 1] == rows[m]);
        lemma_lookup_absent(rows.drop_first(), key, m - 1);
    }
}

/// The change a `git diff --numstat` line reports, `(added, removed, file)`: its first
/// three tab-separated fields, when there are three and the first is not `-` (a binary file).
pub open spec fn numstat_entry(line: Seq<char>) -> Option<(Seq<char>, Seq<char>, Seq<char>)> {
    let p = split_char(line, '\t');
    if p.len() >= 3 && p[0] != seq!['-'] {
        Some((p[0], p[1], p[2]))
    } else {
        None
    }
}

/// The changes the lines report, in order.
pub open spec fn numstat_entries(ls: Seq<Seq<char>>) -> Seq<(Seq<char>, Seq<char>, Seq<char>)>
    decreases ls.len(),
{
    if ls.len() == 0 {
        seq![]
    } else {
        numstat_entries(ls.drop_last()) + match numstat_entry(ls.last()) {
            Some(e) => seq![e],
            None => seq![],
        }
    }
}

/// The triples of strings read as text.
pub open spec fn triple_views(v: Seq<(String, String, String)>) -> Seq<(Seq<char>, Seq<char>, Seq<char>)> {
    v.map_values(|t: (String, String, String)| (t.0@, t.1@, t.2@))
}

/// Parses the output of `git diff --numstat HEAD`: `(added, removed, file)` for each
/// changed text file, in order.
pub fn parse_numstat(out: &str) -> (r: Vec<(String, String, String)>)
    ensures
        triple_views(r@) == numstat_entries(lines(out@)),
{
    let text = chars_of(out);
    let ls = split_lines(&text);
    let mut res: Vec<(String, String, String)> = Vec::new();
    let mut i: usize = 0;
    while i < ls.len()
        invariant
            i <= ls.len(),
            ls@.len() == lines(out@).len(),
            forall|k: int| 0 <= k < ls@.len() ==> #[trigger] ls@[k]@ == lines(out@)[k],
            triple_views(res@) == numstat_entries(lines(out@).take(i as int)),
        decreases ls.len() - i,
    {
        let ghost before = triple_views(res@);
        proof {
            assert(lines(out@).take(i + 1).drop_last() =~= lines(out@).take(i as int));
            assert(ls@[i as int]@ == lines(out@)[i as int]);
        }
        let p = split_chars(&ls[i], '\t');
        let ghost pv = crate::order::views(p@);
        let dash = p.len() >= 1 && p[0].len() == 1 && p[0][0] == '-';
        proof {
            if p@.len() >= 1 {
                assert(pv[0] == p@[0]@);
                if pv[0] == seq!['-'] {
                    assert(p@[0]@[0] == '-');
                }
                if dash {
                    assert(p@[0]@ =~= seq!['-']);
                }
            }
        }
        if p.len() >= 3 && !dash {
            let t = (string_of(&p[0]), string_of(&p[1]), string_of(&p[2]));
            res.push(t);
            proof {
                assert(pv[0] == p@[0]@ && pv[1] == p@[1]@ && pv[2] == p@[2]@);
                assert(triple_views(res@) =~= before + seq![(t.0@, t.1@, t.2@)]);
            }
        } else {
            assert(triple_views(res@) =~= before + Seq::<(Seq<char>, Seq<char>, Seq<char>)>::empty());
        }
        i += 1;
    }
    proof {
        assert(lines(out@).take(ls@.len() as int) =~= lines(out@));
    }
    res
}

/// What a project walk does with a directory entry.
#[derive(Clone, Copy, Debug, PartialEq, Eq, Structural)]
pub enum WalkAction {
    /// Walk into the directory.
    Descend,
    /// Index the file.
    Index,
    /// Leave the entry alone.
    Skip,
}

/// What a project walk does with an entry named `name` at `path`: it walks into every
/// directory but hidden ones and those it never enters, and indexes every file of a
/// supported language.
pub open spec fn walk_action(name: Seq<char>, path: Seq<char>, is_dir: bool, is_file: bool) -> WalkAction {
    if is_dir {
        if skip_dirs().contains(name) || (name.len() > 0 && name[0] == '.') {
            WalkAction::Skip
        } else {
            WalkAction::Descend
        }
    } else if is_file && language_of(dotted_extension(path)) is Some {
        WalkAction::Index
    } else {
        WalkAction::Skip
    }
}

/// What a project walk does with a directory entry.
pub fn classify_entry(name: &str, path: &str, is_dir: bool, is_file: bool) -> (r: WalkAction)
    ensures
        r == walk_action(name@, path@, is_dir, is_file),
{
    if is_dir {
        let n = chars_of(name);
        if is_skip_dir(name) || (n.len() > 0 && n[0] == '.') {
            WalkAction::Skip
        } else {
            WalkAction::Descend
        }
    } else if is_file && is_supported_extension(dotted_extension_string(path).as_str()) {
        WalkAction::Index
    } else {
        WalkAction::Skip
    }
}

/// The names of the symbols joined by blanks.
pub open spec fn symbol_names(symbols: Seq<crate::types::Symbol>) -> Seq<char> {
    crate::text::join_by(names_of(symbols), seq![' '])
}

/// The names of the symbols, in order.
pub open spec fn names_of(symbols: Seq<crate::types::Symbol>) -> Seq<Seq<char>> {
    symbols.map_values(|s: crate::types::Symbol| s.name@)
}

/// The text a file is found by in a search: its path, a blank, and its symbols' names
/// joined by blanks.
pub fn searchable_text(file_path: &str, symbols: &Vec<crate::types::Symbol>) -> (r: (String, String))
    ensures
        r.0@ == symbol_names(symbols@),
        r.1@ == file_path@ + seq![' '] + symbol_names(symbols@),
{
    let mut names: Vec<String> = Vec::new();
    let mut i: usize = 0;
    while i < symbols.len()
        invariant
            i <= symbols.len(),
            string_views(names@) == names_of(symbols@.take(i as int)),
        decreases symbols.len() - i,
    {
        let ghost before = string_views(names@);
        let n = symbols[i].name.clone();
        names.push(n);
        proof {
            assert(symbols@.take(i + 1) =~= symbols@.take(i as int).push(symbols@[i as int]));
            assert(string_views(names@) =~= before.push(n@));
            assert(names_of(symbols@.take(i + 1)) =~= names_of(symbols@.take(i as int)).push(n@));
        }
        i += 1;
    }
    proof {
        assert(symbols@.take(symbols.len() as int) =~= symbols@);
        reveal_strlit(" ");
    }
    let joined = crate::text::join_strings(&names, " ");
    assert(" "@ =~= seq![' ']);
    let mut searchable = String::from_str(file_path);
    searchable.append(" ");
    searchable.append(joined.as_str());
    (joined, searchable)
}

proof fn lemma_lookup_own_key(rows: Seq<(String, String)>, i: int)
    requires
        distinct_keys(rows),
        0 <= i < rows.len(),
    ensures
        lookup(rows, rows[i].0@) == Some(rows[i].1@),
    decreases rows.len(),
{
    if i > 0 {
        assert(rows[0].0@ != rows[i].0@);
        let d = rows.drop_first();
        assert forall|a: int, b: int| 0 <= a < b < d.len() implies #[trigger] d[a].0@ != #[trigger] d[b].0@ by {
            assert(d[a] == rows[a + 1] && d[b] == rows[b + 1]);
        }
        assert(d[i - 1] == rows[i]);
        lemma_lookup_own_key(d, i - 1);
    }
}

/// Comparing a status snapshot with itself finds nothing to parse again, and drops only
/// the files whose status is a deletion.
pub proof fn law_same_snapshot(rows: Seq<(String, String)>, present: Seq<bool>)
    requires
        distinct_keys(rows),
        present.len() == rows.len(),
    ensures
        status_diff(rows, rows, present).0 == Seq::<Seq<char>>::empty(),
        status_diff(rows, rows, present).1 == deleted_files(rows),
{
    lemma_no_modified(rows, rows.len() as int);
    lemma_none_vanished(rows, rows.len() as int, present);
    assert(rows.take(rows.len() as int) =~= rows);
    assert(present.take(rows.len() as int) =~= present);
    assert(deleted_files(rows) + Seq::<Seq<char>>::empty() =~= deleted_files(rows));
}

proof fn lemma_no_modified(rows: Seq<(String, String)>, j: int)
    requires
        distinct_keys(rows),
        0 <= j <= rows.len(),
    ensures
        modified_files(rows, rows.take(j)) == Seq::<Seq<char>>::empty(),
    decreases j,
{
    if j > 0 {
        lemma_no_modified(rows, j - 1);
        assert(rows.take(j).drop_last() =~= rows.take(j - 1));
        assert(rows.take(j).last() == rows[j - 1]);
        lemma_lookup_own_key(rows, j - 1);
        assert(modified_files(rows, rows.take(j)) =~= Seq::<Seq<char>>::empty());
    }
}

proof fn lemma_none_vanished(rows: Seq<(String, String)>, j: int, present: Seq<bool>)
    requires
        distinct_keys(rows),
        0 <= j <= rows.len(),
        present.len() == rows.len(),
    ensures
        vanished_files(rows.take(j), rows, present.take(j)) == Seq::<Seq<char>>::empty(),
    decreases j,
{
    if j > 0 {
        lemma_none_vanished(rows, j - 1, present);
        assert(rows.take(j).drop_last() =~= rows.take(j - 1));
        assert(present.take(j).drop_last() =~= present.take(j - 1));
        assert(rows.take(j).last() == rows[j - 1]);
        lemma_lookup_own_key(rows, j - 1);
        assert(vanished_files(rows.take(j), rows, present.take(j)) =~= Seq::<Seq<char>>::empty());
    }
}


/// A file whose stored content hash equals its current one has not changed, and is not
/// parsed again.
pub fn hash_unchanged(stored: &Option<String>, hash: &str) -> (r: bool)
    ensures
        r == (stored matches Some(s) && s@ == hash@),
{
    match stored {
        Some(s) => crate::syntax::same_text(s.as_str(), hash),
        None => false,
    }
}

/// What indexing did with one file.
#[derive(Clone, Copy, Debug, PartialEq, Eq, Structural)]
pub enum IndexOutcome {
    /// The file was parsed and stored (or found unchanged).
    Indexed,
    /// The file was dropped from the index.
    Removed,
    /// The file could not be indexed.
    Failed,
}

/// How many of the outcomes are `Indexed`.
pub open spec fn indexed_count(o: Seq<IndexOutcome>) -> nat
    decreases o.len(),
{
    if o.len() == 0 {
        0
    } else {
        indexed_count(o.drop_last()) + if o.last() is Indexed { 1nat } else { 0nat }
    }
}

/// How many of the outcomes are `Removed`.
pub open spec fn removed_count(o: Seq<IndexOutcome>) -> nat
    decreases o.len(),
{
    if o.len() == 0 {
        0
    } else {
        removed_count(o.drop_last()) + if o.last() is Removed { 1nat } else { 0nat }
    }
}

/// How many of the outcomes are `Failed`.
pub open spec fn failed_count(o: Seq<IndexOutcome>) -> nat
    decreases o.len(),
{
    if o.len() == 0 {
        0
    } else {
        failed_count(o.drop_last()) + if o.last() is Failed { 1nat } else { 0nat }
    }
}

proof fn lemma_counts_sum(o: Seq<IndexOutcome>)
    ensures
        indexed_count(o) + removed_count(o) + failed_count(o) == o.len(),
    decreases o.len(),
{
    if o.len() > 0 {
        lemma_counts_sum(o.drop_last());
    }
}

/// The counts an indexing run reports: files indexed, files removed, files that failed.
pub fn tally_outcomes(outcomes: &Vec<IndexOutcome>) -> (r: (usize, usize, usize))
    ensures
        r.0 == indexed_count(outcomes@),
        r.1 == removed_count(outcomes@),
        r.2 == failed_count(outcomes@),
{
    let mut ok: usize = 0;
    let mut gone: usize = 0;
    let mut bad: usize = 0;
    let mut i: usize = 0;
    while i < outcomes.len()
        invariant
            i <= outcomes.len(),
            ok == indexed_count(outcomes@.take(i as int)),
            gone == removed_count(outcomes@.take(i as int)),
            bad == failed_count(outcomes@.take(i as int)),
        decreases outcomes.len() - i,
    {
        proof {
            assert(outcomes@.take(i + 1).drop_last() =~= outcomes@.take(i as int));
            lemma_counts_sum(outcomes@.take(i as int));
        }
        match outcomes[i] {
            IndexOutcome::Indexed => ok += 1,
            IndexOutcome::Removed => gone += 1,
            IndexOutcome::Failed => bad += 1,
        }
        i += 1;
    }
    proof {
        assert(outcomes@.take(outcomes.len() as int) =~= outcomes@);
    }
    (ok, gone, bad)
}


proof fn lemma_modified_member(last: Seq<(String, String)>, current: Seq<(String, String)>, f: Seq<char>)
    requires
        modified_files(last, current).contains(f),
    ensures
        exists|i: int| 0 <= i < current.len() && #[trigger] current[i].0@ == f && !is_deletion(current[i].1@),
    decreases current.len(),
{
    let d = current.drop_last();
    if modified_files(last, d).contains(f) {
        lemma_modified_member(last, d, f);
        let i = choose|i: int| 0 <= i < d.len() && #[trigger] d[i].0@ == f && !is_deletion(d[i].1@);
        assert(current[i] == d[i]);
    } else {
        let n = current.len() - 1;
        assert(current[n].0@ == f);
    }
}

proof fn lemma_deleted_member(current: Seq<(String, String)>, f: Seq<char>)
    requires
        deleted_files(current).contains(f),
    ensures
        exists|i: int| 0 <= i < current.len() && #[trigger] current[i].0@ == f && is_deletion(current[i].1@),
    decreases current.len(),
{
    let d = current.drop_last();
    if deleted_files(d).contains(f) {
        lemma_deleted_member(d, f);
        let i = choose|i: int| 0 <= i < d.len() && #[trigger] d[i].0@ == f && is_deletion(d[i].1@);
        assert(current[i] == d[i]);
    } else {
        let n = current.len() - 1;
        assert(current[n].0@ == f);
    }
}

proof fn lemma_vanished_member(last: Seq<(String, String)>, current: Seq<(String, String)>, present: Seq<bool>, f: Seq<char>)
    requires
        vanished_files(last, current, present).contains(f),
    ensures
        lookup(current, f) is None,
    decreases last.len(),
{
    let d = last.drop_last();
    if vanished_files(d, current, present.drop_last()).contains(f) {
        lemma_vanished_member(d, current, present.drop_last(), f);
    } else {
        assert(last.last().0@ == f);
    }
}

proof fn lemma_lookup_listed(rows: Seq<(String, String)>, i: int)
    requires
        0 <= i < rows.len(),
    ensures
        lookup(rows, rows[i].0@) is Some,
    decreases i,
{
    if i > 0 && rows[0].0@ != rows[i].0@ {
        assert(rows.drop_first()[i - 1] == rows[i]);
        lemma_lookup_listed(rows.drop_first(), i - 1);
    }
}

/// No file is both parsed again and dropped: a file the current snapshot lists has one
/// status, a deletion or not, and a file dropped because it vanished is not listed.
pub proof fn law_changes_disjoint(last: Seq<(String, String)>, current: Seq<(String, String)>, present: Seq<bool>, f: Seq<char>)
    requires
        distinct_keys(current),
    ensures
        !(status_diff(last, current, present).0.contains(f) && status_diff(last, current, present).1.contains(f)),
{
    let (m, del) = status_diff(last, current, present);
    if m.contains(f) && del.contains(f) {
        lemma_modified_member(last, current, f);
        let i = choose|i: int| 0 <= i < current.len() && #[trigger] current[i].0@ == f && !is_deletion(current[i].1@);
        let df = deleted_files(current);
        let vf = vanished_files(last, current, present);
        let k = choose|k: int| 0 <= k < del.len() && del[k] == f;
        if k < df.len() {
            assert(df[k] == f);
            lemma_deleted_member(current, f);
            let j = choose|j: int| 0 <= j < current.len() && #[trigger] current[j].0@ == f && is_deletion(current[j].1@);
            if i < j {
                assert(current[i].0@ != current[j].0@);
            } else if j < i {
                assert(current[j].0@ != current[i].0@);
            }
        } else {
            assert(vf[k - df.len()] == f);
            lemma_vanished_member(last, current, present, f);
            lemma_lookup_listed(current, i);
        }
    }
}

} // verus!
