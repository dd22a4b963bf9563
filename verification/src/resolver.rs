//! Resolving import specifiers to the files they name.
//!
//! Each resolver computes, without touching the disk, the ordered list of paths that
//! could be meant, and then returns the first of them that exists.
use vstd::prelude::*;
use crate::disk::{about, ask_exists, flags, DiskAnswer};
use crate::order::views;
use crate::paths::{
    join, join_path, normalize, normalize_chars, parent, parent_of, root_len, with_extension,
    with_extension_chars,
};
use crate::text::{
    chars_of, concat, first_index_of, find_char, has_prefix, has_suffix, slice_chars, starts_with,
    ends_with, string_of, string_views,
};

verus! {


/// Whether a character is uppercase in Unicode (`char::is_uppercase`).
pub uninterp spec fn unicode_is_uppercase(c: char) -> bool;

/// The first character of a character's Unicode lowercase mapping.
pub uninterp spec fn unicode_lower_first(c: char) -> char;

/// `char::is_uppercase`. Claimed: the result is `unicode_is_uppercase(c)`, and for ASCII
/// characters it holds exactly of `A-Z`.
#[verifier::external_body]
pub(crate) fn char_is_uppercase(c: char) -> (r: bool)
    ensures
        r == unicode_is_uppercase(c),
        (c as u32) < 128 ==> (r <==> ('A' <= c && c <= 'Z')),
{
    c.is_uppercase()
}

/// `char::to_lowercase`, first character of the mapping (the mapping is never empty).
/// Claimed: the result is `unicode_lower_first(c)`; ASCII `A-Z` map to `a-z` and every
/// other ASCII character maps to itself.
#[verifier::external_body]
pub(crate) fn char_lower_first(c: char) -> (r: char)
    ensures
        r == unicode_lower_first(c),
        ('A' <= c && c <= 'Z') ==> (r as u32) == (c as u32) + 32,
        ((c as u32) < 128 && !('A' <= c && c <= 'Z')) ==> r == c,
{
    c.to_lowercase().next().unwrap_or(c)
}

pub open spec fn dot_slash() -> Seq<char> {
    seq!['.', '/']
}

pub open spec fn dot_dot_slash() -> Seq<char> {
    seq!['.', '.', '/']
}

/// A specifier written relative to the importing file (`./…` or `../…`).
pub open spec fn is_relative(s: Seq<char>) -> bool {
    starts_with(s, dot_slash()) || starts_with(s, dot_dot_slash())
}

/// Whether `specifier` starts with `./` or `../`.
pub fn is_relative_import(specifier: &str) -> (r: bool)
    ensures
        r == is_relative(specifier@),
{
    let s = chars_of(specifier);
    let a = vec!['.', '/'];
    let b = vec!['.', '.', '/'];
    assert(a@ == dot_slash() && b@ == dot_dot_slash());
    has_prefix(&s, &a) || has_prefix(&s, &b)
}

/// The extensions tried for TypeScript/JavaScript imports, in order.
pub open spec fn ts_js_extensions() -> Seq<Seq<char>> {
    seq![
        seq!['.', 't', 's'],
        seq!['.', 't', 's', 'x'],
        seq!['.', 'j', 's'],
        seq!['.', 'j', 's', 'x'],
        seq!['.', 'm', 'j', 's'],
    ]
}

fn ts_js_extension_list() -> (r: Vec<Vec<char>>)
    ensures
        views(r@) == ts_js_extensions(),
{
    let r = vec![
        vec!['.', 't', 's'],
        vec!['.', 't', 's', 'x'],
        vec!['.', 'j', 's'],
        vec!['.', 'j', 's', 'x'],
        vec!['.', 'm', 'j', 's'],
    ];
    assert(views(r@) =~~= ts_js_extensions());
    r
}

pub open spec fn index_name(ext: Seq<char>) -> Seq<char> {
    seq!['i', 'n', 'd', 'e', 'x'] + ext
}

/// Paths tried for a TypeScript/JavaScript import, in order: the normalised target
/// itself when it already ends with a known extension, then the target with each
/// extension appended, then an `index` file with each extension inside it.
pub open spec fn ts_js_candidates(specifier: Seq<char>, from_file: Seq<char>) -> Seq<Seq<char>> {
    if !is_relative(specifier) {
        seq![]
    } else {
        match parent(from_file) {
            None => seq![],
            Some(dir) => {
                let c = normalize(join(dir, specifier));
                let exts = ts_js_extensions();
                (if exists|k: int| 0 <= k < exts.len() && ends_with(c, #[trigger] exts[k]) {
                    seq![c]
                } else {
                    seq![]
                }) + exts.map_values(|e: Seq<char>| c + e) + exts.map_values(
                    |e: Seq<char>| join(c, index_name(e)),
                )
            },
        }
    }
}

/// The paths `resolve_ts_js_import` tries, in order.
pub fn ts_js_import_candidates(specifier: &str, from_file: &str) -> (r: Vec<String>)
    ensures
        string_views(r@) == ts_js_candidates(specifier@, from_file@),
{
    let mut out: Vec<String> = Vec::new();
    if !is_relative_import(specifier) {
        assert(string_views(out@) =~= Seq::<Seq<char>>::empty());
        return out;
    }
    let from = chars_of(from_file);
    let dir = match parent_of(&from) {
        None => {
            assert(string_views(out@) =~= Seq::<Seq<char>>::empty());
            return out;
        },
        Some(d) => d,
    };
    let spec_chars = chars_of(specifier);
    let c = normalize_chars(&join_path(&dir, &spec_chars));
    let exts = ts_js_extension_list();
    let ghost e = ts_js_extensions();
    let mut matched = false;
    let mut k: usize = 0;
    while k < exts.len()
        invariant
            k <= exts.len(),
            views(exts@) == e,
            matched == exists|m: int| 0 <= m < k && ends_with(c@, #[trigger] e[m]),
        decreases exts.len() - k,
    {
        assert(views(exts@)[k as int] == exts@[k as int]@);
        if has_suffix(&c, &exts[k]) {
            matched = true;
        }
        k += 1;
    }
    if matched {
        out.push(string_of(&c));
    }
    let ghost first = string_views(out@);
    assert(first == (if exists|m: int| 0 <= m < e.len() && ends_with(c@, #[trigger] e[m]) {
        seq![c@]
    } else {
        seq![]
    })) by {
        if matched {
            assert(first =~= seq![c@]);
        } else {
            assert(first =~= Seq::<Seq<char>>::empty());
        }
    }
    let mut k: usize = 0;
    while k < exts.len()
        invariant
            k <= exts.len(),
            views(exts@) == e,
            string_views(out@) == first + e.take(k as int).map_values(|x: Seq<char>| c@ + x),
        decreases exts.len() - k,
    {
        let ghost before = string_views(out@);
        out.push(string_of(&concat(&c, &exts[k])));
        proof {
            assert(e.take(k + 1).map_values(|x: Seq<char>| c@ + x) =~= e.take(k as int).map_values(
                |x: Seq<char>| c@ + x,
            ).push(c@ + e[k as int]));
            assert(string_views(out@) =~= before.push(c@ + e[k as int]));
        }
        k += 1;
    }
    let ghost second = string_views(out@);
    assert(e.take(5) =~= e);
    let mut k: usize = 0;
    while k < exts.len()
        invariant
            k <= exts.len(),
            views(exts@) == e,
            string_views(out@) == second + e.take(k as int).map_values(
                |x: Seq<char>| join(c@, index_name(x)),
            ),
        decreases exts.len() - k,
    {
        let ghost before = string_views(out@);
        let idx = vec!['i', 'n', 'd', 'e', 'x'];
        let name = concat(&idx, &exts[k]);
        assert(name@ == index_name(e[k as int]));
        out.push(string_of(&join_path(&c, &name)));
        proof {
            assert(e.take(k + 1).map_values(|x: Seq<char>| join(c@, index_name(x))) =~= e.take(
                k as int,
            ).map_values(|x: Seq<char>| join(c@, index_name(x))).push(
                join(c@, index_name(e[k as int])),
            ));
            assert(string_views(out@) =~= before.push(join(c@, index_name(e[k as int]))));
        }
        k += 1;
    }
    proof {
        assert(string_views(out@) =~= ts_js_candidates(specifier@, from_file@));
    }
    out
}

/// The first of `candidates` that `present` marks as existing (`present[i]` answering
/// for `candidates[i]`); none when no answered candidate is marked.
pub open spec fn first_present(candidates: Seq<Seq<char>>, present: Seq<bool>) -> Option<Seq<char>>
    decreases candidates.len(),
{
    if candidates.len() == 0 || present.len() == 0 {
        None
    } else if present[0] {
        Some(candidates[0])
    } else {
        first_present(candidates.drop_first(), present.drop_first())
    }
}

/// The first of `candidates` that the answers `present` mark as existing.
pub fn pick_first_present(candidates: &Vec<String>, present: &Vec<bool>) -> (r: Option<String>)
    ensures
        match first_present(string_views(candidates@), present@) {
            Some(p) => r is Some && r->0@ == p,
            None => r is None,
        },
{
    let ghost c = string_views(candidates@);
    let mut k: usize = 0;
    assert(c.skip(0) =~= c && present@.skip(0) =~= present@);
    while k < candidates.len() && k < present.len()
        invariant
            k <= candidates.len(),
            k <= present@.len(),
            c == string_views(candidates@),
            first_present(c, present@) == first_present(c.skip(k as int), present@.skip(k as int)),
        decreases candidates.len() - k,
    {
        assert(c.skip(k as int)[0] == candidates@[k as int]@);
        assert(present@.skip(k as int)[0] == present@[k as int]);
        if present[k] {
            let x = candidates[k].clone();
            assert(first_present(c.skip(k as int), present@.skip(k as int)) == Some(c[k as int]));
            return Some(x);
        }
        assert(c.skip(k as int).drop_first() =~= c.skip(k + 1));
        assert(present@.skip(k as int).drop_first() =~= present@.skip(k + 1));
        k += 1;
    }
    assert(c.skip(k as int).len() == 0 || present@.skip(k as int).len() == 0);
    None
}

/// `target` is what some answers of the disk about `candidates`, one each, give: the first
/// one answered present, none when every one is answered absent. This says no more than
/// that the target is none or one of the candidates; `found_by` ties a target to the
/// answers actually received.
pub open spec fn first_found(candidates: Seq<Seq<char>>, target: Option<Seq<char>>) -> bool {
    exists|present: Seq<bool>| present.len() == candidates.len() && #[trigger] first_present(candidates, present) == target
}

/// A candidate answered present after only absent ones is the one picked.
proof fn lemma_first_present_at(c: Seq<Seq<char>>, p: Seq<bool>, k: int)
    requires
        0 <= k < c.len(),
        k < p.len(),
        p[k],
        forall|i: int| 0 <= i < k ==> !p[i],
    ensures
        first_present(c, p) == Some(c[k]),
    decreases k,
{
    if k > 0 {
        assert forall|i: int| 0 <= i < k - 1 implies !p.drop_first()[i] by {
            assert(!p[i + 1]);
        }
        assert(!p[0]);
        lemma_first_present_at(c.drop_first(), p.drop_first(), k - 1);
    }
}

/// No candidate answered present: none is picked.
proof fn lemma_first_present_none(c: Seq<Seq<char>>, p: Seq<bool>)
    requires
        forall|i: int| 0 <= i < p.len() ==> !p[i],
    ensures
        first_present(c, p) is None,
    decreases c.len(),
{
    if c.len() > 0 && p.len() > 0 {
        assert(!p[0]);
        assert forall|i: int| 0 <= i < p.drop_first().len() implies !p.drop_first()[i] by {
            assert(!p[i + 1]);
        }
        lemma_first_present_none(c.drop_first(), p.drop_first());
    }
}

/// Answers gathered by asking about `n` paths in order until one is present: all but
/// the last answer are absent, and fewer than `n` were asked only when the last is present.
pub open spec fn asked_in_order(n: nat, a: Seq<bool>) -> bool {
    &&& a.len() <= n
    &&& forall|i: int| 0 <= i < a.len() - 1 ==> !#[trigger] a[i]
    &&& a.len() < n ==> a.len() > 0 && a.last()
}

/// Answers asked in order pick what a full set of answers, one per path, picks.
proof fn lemma_asked_in_order(c: Seq<Seq<char>>, a: Seq<bool>)
    requires
        asked_in_order(c.len(), a),
    ensures
        exists|full: Seq<bool>| full.len() == c.len() && #[trigger] first_present(c, full) == first_present(c, a),
{
    if a.len() < c.len() {
        let k = a.len() - 1;
        assert forall|i: int| 0 <= i < k implies !a[i] by {}
        lemma_first_present_at(c, a, k);
        let full = a + Seq::new((c.len() - a.len()) as nat, |i: int| false);
        assert(full[k] == a[k]);
        assert forall|i: int| 0 <= i < k implies !full[i] by {
            assert(full[i] == a[i]);
        }
        lemma_first_present_at(c, full, k);
        assert(full.len() == c.len());
    } else if a.len() > 0 && a.last() {
        let k = a.len() - 1;
        assert forall|i: int| 0 <= i < k implies !a[i] by {}
        lemma_first_present_at(c, a, k);
    } else {
        lemma_first_present_none(c, a);
        assert(a.len() == c.len());
    }
}

/// Asks the disk about each path in order, stopping at the first that exists: answer
/// `i` is about `paths[i]`.
pub fn probe_in_order(paths: &Vec<String>) -> (a: Vec<DiskAnswer>)
    ensures
        about(a@, string_views(paths@)),
        asked_in_order(paths@.len() as nat, flags(a@)),
{
    let mut a: Vec<DiskAnswer> = Vec::new();
    let mut k: usize = 0;
    let mut found = false;
    while k < paths.len() && !found
        invariant
            k <= paths.len(),
            forall|i: int| 0 <= i < k ==> !(#[trigger] a@[i]).is_present(),
            found ==> k < paths.len() && a@.len() == k + 1 && a@[k as int].is_present(),
            !found ==> a@.len() == k,
            forall|i: int| 0 <= i < a@.len() ==> #[trigger] a@[i].asked() == paths@[i]@,
        decreases paths.len() - k + if found { 0int } else { 1int },
    {
        let answer = ask_exists(paths[k].as_str());
        let here = answer.present();
        a.push(answer);
        if here {
            found = true;
        } else {
            k += 1;
        }
    }
    proof {
        let f = flags(a@);
        assert forall|i: int| 0 <= i < f.len() - 1 implies !#[trigger] f[i] by {
            assert(f[i] == a@[i].is_present());
        }
        if a@.len() > 0 {
            assert(f.last() == a@[a@.len() - 1].is_present());
        }
        assert forall|i: int| 0 <= i < a@.len() implies #[trigger] a@[i].asked() == string_views(paths@)[i] by {
            assert(string_views(paths@)[i] == paths@[i]@);
        }
    }
    a
}

/// `target` is what the answers `answers` give for `candidates`: they are about the
/// candidates, one each in order, asked until one was present, and `target` is the first
/// candidate answered present, none when none was.
pub open spec fn found_by(candidates: Seq<Seq<char>>, answers: Seq<DiskAnswer>, target: Option<Seq<char>>) -> bool {
    &&& about(answers, candidates)
    &&& asked_in_order(candidates.len(), flags(answers))
    &&& target == first_present(candidates, flags(answers))
}

/// What the answers give is something some full set of answers gives too, and is one of
/// the candidates.
proof fn lemma_found_by(candidates: Seq<Seq<char>>, answers: Seq<DiskAnswer>, target: Option<Seq<char>>)
    requires
        found_by(candidates, answers, target),
    ensures
        first_found(candidates, target),
        target matches Some(p) ==> candidates.contains(p),
{
    let f = flags(answers);
    lemma_first_present_in(candidates, f);
    lemma_asked_in_order(candidates, f);
    let full = choose|full: Seq<bool>| full.len() == candidates.len() && #[trigger] first_present(candidates, full) == first_present(candidates, f);
    assert(first_present(candidates, full) == target);
}

/// The first of `candidates` that exists on disk, asked in order until one does, with
/// the answers received.
fn first_existing(candidates: Vec<String>) -> (r: (Option<String>, Vec<DiskAnswer>))
    ensures
        found_by(string_views(candidates@), r.1@, crate::extract::opt_view(r.0)),
        first_found(string_views(candidates@), crate::extract::opt_view(r.0)),
        r.0 matches Some(p) ==> string_views(candidates@).contains(p@),
{
    let answers = probe_in_order(&candidates);
    let present = flags_of(&answers);
    let r = pick_first_present(&candidates, &present);
    proof {
        lemma_found_by(string_views(candidates@), answers@, crate::extract::opt_view(r));
    }
    (r, answers)
}

proof fn lemma_first_present_in(c: Seq<Seq<char>>, p: Seq<bool>)
    ensures
        first_present(c, p) matches Some(x) ==> c.contains(x),
    decreases c.len(),
{
    if c.len() > 0 && p.len() > 0 {
        if p[0] {
            assert(c[0] == c[0]);
        } else {
            lemma_first_present_in(c.drop_first(), p.drop_first());
            if first_present(c, p) is Some {
                let x = first_present(c, p)->0;
                let i = choose|i: int| 0 <= i < c.drop_first().len() && c.drop_first()[i] == x;
                assert(c[i + 1] == x);
            }
        }
    }
}

/// Resolves a relative TypeScript/JavaScript import to the first existing file among
/// `ts_js_candidates`; bare specifiers (packages) resolve to nothing. Gives the answers
/// the disk gave, one per candidate asked about, in order.
pub fn resolve_ts_js_import(specifier: &str, from_file: &str) -> (r: (Option<String>, Vec<DiskAnswer>))
    ensures
        !is_relative(specifier@) ==> r.0 is None,
        found_by(ts_js_candidates(specifier@, from_file@), r.1@, crate::extract::opt_view(r.0)),
        first_found(ts_js_candidates(specifier@, from_file@), crate::extract::opt_view(r.0)),
        r.0 matches Some(p) ==> ts_js_candidates(specifier@, from_file@).contains(p@),
{
    first_existing(ts_js_import_candidates(specifier, from_file))
}

/// Pieces of `s` separated by `::`, `cur` being the piece read so far
/// (`str::split("::")`: leftmost, non-overlapping matches).
pub open spec fn split_path_sep(s: Seq<char>, cur: Seq<char>) -> Seq<Seq<char>>
    decreases s.len(),
{
    if s.len() == 0 {
        seq![cur]
    } else if s.len() >= 2 && s[0] == ':' && s[1] == ':' {
        seq![cur] + split_path_sep(s.skip(2), seq![])
    } else {
        split_path_sep(s.drop_first(), cur.push(s[0]))
    }
}

/// `base` joined with each segment in turn.
pub open spec fn join_all(base: Seq<char>, segs: Seq<Seq<char>>) -> Seq<char>
    decreases segs.len(),
{
    if segs.len() == 0 {
        base
    } else {
        join(join_all(base, segs.drop_last()), segs.last())
    }
}

pub open spec fn crate_prefix() -> Seq<char> {
    seq!['c', 'r', 'a', 't', 'e', ':', ':']
}

pub open spec fn self_prefix() -> Seq<char> {
    seq!['s', 'e', 'l', 'f', ':', ':']
}

pub open spec fn super_prefix() -> Seq<char> {
    seq!['s', 'u', 'p', 'e', 'r', ':', ':']
}

/// The directory a Rust module path starts from, with the rest of the path:
/// `crate::` starts at the crate root, `self::` at the importing file's directory,
/// `super::` one directory above it; other paths name outside crates.
pub open spec fn rust_base(use_path: Seq<char>, from_file: Seq<char>, crate_root: Seq<char>) -> Option<(Seq<char>, Seq<char>)> {
    if starts_with(use_path, crate_prefix()) {
        Some((use_path.skip(7), crate_root))
    } else if starts_with(use_path, self_prefix()) {
        match parent(from_file) {
            Some(d) => Some((use_path.skip(6), d)),
            None => None,
        }
    } else if starts_with(use_path, super_prefix()) {
        match parent(from_file) {
            Some(d) => match parent(d) {
                Some(d2) => Some((use_path.skip(7), d2)),
                None => None,
            },
            None => None,
        }
    } else {
        None
    }
}

pub open spec fn rs_ext() -> Seq<char> {
    seq!['r', 's']
}

pub open spec fn mod_rs() -> Seq<char> {
    seq!['m', 'o', 'd', '.', 'r', 's']
}

/// Paths tried for a Rust `use` path, in order: `<dir>/<a>/<b>.rs`, then `<dir>/<a>/<b>/mod.rs`.
pub open spec fn rust_module_candidates(use_path: Seq<char>, from_file: Seq<char>, crate_root: Seq<char>) -> Seq<Seq<char>> {
    match rust_base(use_path, from_file, crate_root) {
        None => seq![],
        Some((rest, base)) => {
            let rel = join_all(base, split_path_sep(rest, seq![]));
            seq![with_extension(rel, rs_ext()), join(rel, mod_rs())]
        },
    }
}

fn prefix_vec(which: u8) -> (r: Vec<char>)
    ensures
        which == 0 ==> r@ == crate_prefix(),
        which == 1 ==> r@ == self_prefix(),
        which == 2 ==> r@ == super_prefix(),
{
    if which == 0 {
        vec!['c', 'r', 'a', 't', 'e', ':', ':']
    } else if which == 1 {
        vec!['s', 'e', 'l', 'f', ':', ':']
    } else {
        vec!['s', 'u', 'p', 'e', 'r', ':', ':']
    }
}

pub(crate) fn split_on_path_sep(s: &Vec<char>) -> (r: Vec<Vec<char>>)
    ensures
        views(r@) == split_path_sep(s@, seq![]),
{
    let mut out: Vec<Vec<char>> = Vec::new();
    let mut cur: Vec<char> = Vec::new();
    let mut i: usize = 0;
    assert(s@.skip(0) == s@);
    assert(views(out@) + split_path_sep(s@, cur@) =~= split_path_sep(s@, seq![]));
    while i < s.len()
        invariant
            i <= s.len(),
            split_path_sep(s@, seq![]) == views(out@) + split_path_sep(s@.skip(i as int), cur@),
        decreases s.len() - i,
    {
        let ghost before = views(out@);
        if i + 1 < s.len() && s[i] == ':' && s[i + 1] == ':' {
            proof {
                assert(s@.skip(i as int).skip(2) == s@.skip(i + 2));
            }
            out.push(cur);
            cur = Vec::new();
            proof {
                assert(views(out@) =~= before.push(old_cur_view(out@)));
                assert(cur@ =~= Seq::<char>::empty());
                assert(views(out@) + split_path_sep(s@.skip(i + 2), cur@) =~= before + (seq![
                    views(out@).last(),
                ] + split_path_sep(s@.skip(i + 2), seq![])));
            }
            i += 2;
        } else {
            proof {
                assert(s@.skip(i as int).drop_first() == s@.skip(i + 1));
            }
            cur.push(s[i]);
            i += 1;
        }
    }
    proof {
        assert(s@.skip(i as int) =~= Seq::<char>::empty());
    }
    let ghost before = views(out@);
    out.push(cur);
    proof {
        assert(views(out@) =~= before + seq![views(out@).last()]);
    }
    out
}

spec fn old_cur_view(out: Seq<Vec<char>>) -> Seq<char> {
    out.last()@
}

fn join_all_exec(base: &Vec<char>, segs: &Vec<Vec<char>>) -> (r: Vec<char>)
    ensures
        r@ == join_all(base@, views(segs@)),
{
    let mut acc = base.clone();
    proof {
        assert(acc@ =~= base@);
    }
    let mut k: usize = 0;
    while k < segs.len()
        invariant
            k <= segs.len(),
            acc@ == join_all(base@, views(segs@).take(k as int)),
        decreases segs.len() - k,
    {
        acc = join_path(&acc, &segs[k]);
        proof {
            assert(views(segs@).take(k + 1).drop_last() =~= views(segs@).take(k as int));
        }
        k += 1;
    }
    proof {
        assert(views(segs@).take(segs.len() as int) =~= views(segs@));
    }
    acc
}

/// The paths `resolve_rust_module` tries, in order.
pub fn rust_module_candidates_of(use_path: &str, from_file: &str, crate_root: &str) -> (r: Vec<String>)
    ensures
        string_views(r@) == rust_module_candidates(use_path@, from_file@, crate_root@),
{
    let mp = chars_of(use_path);
    let from = chars_of(from_file);
    let root = chars_of(crate_root);
    let mut out: Vec<String> = Vec::new();
    let base: Option<(Vec<char>, Vec<char>)> = if has_prefix(&mp, &prefix_vec(0)) {
        Some((slice_chars(&mp, 7, mp.len()), root))
    } else if has_prefix(&mp, &prefix_vec(1)) {
        match parent_of(&from) {
            Some(d) => Some((slice_chars(&mp, 6, mp.len()), d)),
            None => None,
        }
    } else if has_prefix(&mp, &prefix_vec(2)) {
        match parent_of(&from) {
            Some(d) => match parent_of(&d) {
                Some(d2) => Some((slice_chars(&mp, 7, mp.len()), d2)),
                None => None,
            },
            None => None,
        }
    } else {
        None
    };
    match base {
        None => {
            assert(string_views(out@) =~= Seq::<Seq<char>>::empty());
            out
        },
        Some((rest, dir)) => {
            assert(rust_base(mp@, from@, root@) == Some((rest@, dir@)));
            let segs = split_on_path_sep(&rest);
            let rel = join_all_exec(&dir, &segs);
            let ext = vec!['r', 's'];
            let m = vec!['m', 'o', 'd', '.', 'r', 's'];
            assert(ext@ == rs_ext() && m@ == mod_rs());
            out.push(string_of(&with_extension_chars(&rel, &ext)));
            out.push(string_of(&join_path(&rel, &m)));
            assert(string_views(out@) =~= rust_module_candidates(
                use_path@,
                from_file@,
                crate_root@,
            ));
            out
        },
    }
}

/// Resolves a Rust `use` path within the crate (`crate::`, `self::`, `super::`) to the
/// first existing file among `rust_module_candidates`; paths into other crates resolve
/// to nothing.
pub fn resolve_rust_module(use_path: &str, from_file: &str, crate_root: &str) -> (r: (Option<String>, Vec<DiskAnswer>))
    ensures
        rust_base(use_path@, from_file@, crate_root@) is None ==> r.0 is None,
        found_by(rust_module_candidates(use_path@, from_file@, crate_root@), r.1@, crate::extract::opt_view(r.0)),
        first_found(rust_module_candidates(use_path@, from_file@, crate_root@), crate::extract::opt_view(r.0)),
        r.0 matches Some(p) ==> rust_module_candidates(use_path@, from_file@, crate_root@).contains(p@),
{
    first_existing(rust_module_candidates_of(use_path, from_file, crate_root))
}

/// Paths tried for `mod <name>;`: `<dir>/<name>.rs`, then `<dir>/<name>/mod.rs`.
pub open spec fn rust_mod_decl_candidates(mod_name: Seq<char>, from_file: Seq<char>) -> Seq<Seq<char>> {
    match parent(from_file) {
        None => seq![],
        Some(dir) => seq![join(dir, mod_name + seq!['.', 'r', 's']), join(join(dir, mod_name), mod_rs())],
    }
}

/// The paths `resolve_rust_mod_decl` tries, in order.
pub fn rust_mod_decl_candidates_of(mod_name: &str, from_file: &str) -> (r: Vec<String>)
    ensures
        string_views(r@) == rust_mod_decl_candidates(mod_name@, from_file@),
{
    let mut out: Vec<String> = Vec::new();
    let from = chars_of(from_file);
    match parent_of(&from) {
        None => {
            assert(string_views(out@) =~= Seq::<Seq<char>>::empty());
        },
        Some(dir) => {
            let name = chars_of(mod_name);
            let dotrs = vec!['.', 'r', 's'];
            let m = vec!['m', 'o', 'd', '.', 'r', 's'];
            assert(m@ == mod_rs());
            out.push(string_of(&join_path(&dir, &concat(&name, &dotrs))));
            out.push(string_of(&join_path(&join_path(&dir, &name), &m)));
            assert(string_views(out@) =~= rust_mod_decl_candidates(mod_name@, from_file@));
        },
    }
    out
}

/// Resolves `mod <name>;` to `<name>.rs` or `<name>/mod.rs` beside the declaring file.
pub fn resolve_rust_mod_decl(mod_name: &str, from_file: &str) -> (r: (Option<String>, Vec<DiskAnswer>))
    ensures
        parent(from_file@) is None ==> r.0 is None,
        found_by(rust_mod_decl_candidates(mod_name@, from_file@), r.1@, crate::extract::opt_view(r.0)),
        first_found(rust_mod_decl_candidates(mod_name@, from_file@), crate::extract::opt_view(r.0)),
        r.0 matches Some(p) ==> rust_mod_decl_candidates(mod_name@, from_file@).contains(p@),
{
    first_existing(rust_mod_decl_candidates_of(mod_name, from_file))
}

/// Paths tried for `require_relative`: the normalised target, then the target with `.rb`;
/// a plain `require` names a gem and is not resolved.
pub open spec fn ruby_candidates(specifier: Seq<char>, from_file: Seq<char>, is_relative: bool) -> Seq<Seq<char>> {
    if !is_relative {
        seq![]
    } else {
        match parent(from_file) {
            None => seq![],
            Some(dir) => {
                let c = normalize(join(dir, specifier));
                seq![c, c + seq!['.', 'r', 'b']]
            },
        }
    }
}

/// The paths `resolve_ruby_require` tries, in order.
pub fn ruby_require_candidates(specifier: &str, from_file: &str, is_relative: bool) -> (r: Vec<String>)
    ensures
        string_views(r@) == ruby_candidates(specifier@, from_file@, is_relative),
{
    let mut out: Vec<String> = Vec::new();
    if is_relative {
        let from = chars_of(from_file);
        match parent_of(&from) {
            None => {},
            Some(dir) => {
                let c = normalize_chars(&join_path(&dir, &chars_of(specifier)));
                let rb = vec!['.', 'r', 'b'];
                out.push(string_of(&c));
                out.push(string_of(&concat(&c, &rb)));
            },
        }
    }
    assert(string_views(out@) =~= ruby_candidates(specifier@, from_file@, is_relative));
    out
}

/// Resolves a Ruby `require_relative` to an existing file; `require` is left unresolved.
pub fn resolve_ruby_require(specifier: &str, from_file: &str, is_relative: bool) -> (r: (Option<String>, Vec<DiskAnswer>))
    ensures
        !is_relative ==> r.0 is None,
        found_by(ruby_candidates(specifier@, from_file@, is_relative), r.1@, crate::extract::opt_view(r.0)),
        first_found(ruby_candidates(specifier@, from_file@, is_relative), crate::extract::opt_view(r.0)),
        r.0 matches Some(p) ==> ruby_candidates(specifier@, from_file@, is_relative).contains(p@),
{
    first_existing(ruby_require_candidates(specifier, from_file, is_relative))
}

/// One character of the snake_case form: an underscore before an uppercase letter that
/// is not the first character, then the letter lowercased.
pub open spec fn snake_piece(c: char, not_first: bool) -> Seq<char> {
    if unicode_is_uppercase(c) && not_first {
        seq!['_', unicode_lower_first(c)]
    } else {
        seq![unicode_lower_first(c)]
    }
}

/// PascalCase to snake_case.
pub open spec fn snake_case(s: Seq<char>) -> Seq<char>
    decreases s.len(),
{
    if s.len() == 0 {
        seq![]
    } else {
        snake_case(s.drop_last()) + snake_piece(s.last(), s.len() > 1)
    }
}

/// Converts a PascalCase name to snake_case (`MyApp` → `my_app`).
pub fn to_snake_case(s: &str) -> (r: String)
    ensures
        r@ == snake_case(s@),
{
    let v = chars_of(s);
    let mut out: Vec<char> = Vec::new();
    let mut i: usize = 0;
    while i < v.len()
        invariant
            i <= v.len(),
            out@ == snake_case(v@.take(i as int)),
        decreases v.len() - i,
    {
        let ghost before = out@;
        let c = v[i];
        if char_is_uppercase(c) && i > 0 {
            out.push('_');
        }
        out.push(char_lower_first(c));
        proof {
            assert(v@.take(i + 1).drop_last() =~= v@.take(i as int));
            assert(out@ =~= before + snake_piece(c, i > 0));
        }
        i += 1;
    }
    proof {
        assert(v@.take(v.len() as int) =~= v@);
    }
    string_of(&out)
}

/// Pieces of `s` separated by `.`, `cur` being the piece read so far.
pub open spec fn split_dots(s: Seq<char>, cur: Seq<char>) -> Seq<Seq<char>>
    decreases s.len(),
{
    if s.len() == 0 {
        seq![cur]
    } else if s[0] == '.' {
        seq![cur] + split_dots(s.drop_first(), seq![])
    } else {
        split_dots(s.drop_first(), cur.push(s[0]))
    }
}

/// Module name to relative path: `MyApp.Foo.Bar` → `my_app/foo/bar`.
pub open spec fn elixir_path_part(module_name: Seq<char>) -> Seq<char> {
    crate::paths::join_names(split_dots(module_name, seq![]).map_values(|p: Seq<char>| snake_case(p)))
}

pub open spec fn lib_dir() -> Seq<char> {
    seq!['l', 'i', 'b']
}

pub open spec fn ex_ext() -> Seq<char> {
    seq!['.', 'e', 'x']
}

/// Paths tried for an Elixir module below a project root: `lib/<path>.ex`, then, when
/// the path has a directory part, `lib/<path without its first directory>.ex`.
pub open spec fn elixir_candidates(module_name: Seq<char>, root: Seq<char>) -> Seq<Seq<char>> {
    let pp = elixir_path_part(module_name);
    let lib = join(root, lib_dir());
    seq![join(lib, pp + ex_ext())] + match first_index_of(pp, '/') {
        Some(i) => seq![join(lib, pp.skip(i + 1) + ex_ext())],
        None => seq![],
    }
}

fn split_dots_exec(s: &Vec<char>) -> (r: Vec<Vec<char>>)
    ensures
        views(r@) == split_dots(s@, seq![]),
{
    let mut out: Vec<Vec<char>> = Vec::new();
    let mut cur: Vec<char> = Vec::new();
    let mut i: usize = 0;
    assert(s@.skip(0) == s@);
    assert(views(out@) + split_dots(s@, cur@) =~= split_dots(s@, seq![]));
    while i < s.len()
        invariant
            i <= s.len(),
            split_dots(s@, seq![]) == views(out@) + split_dots(s@.skip(i as int), cur@),
        decreases s.len() - i,
    {
        let ghost before = views(out@);
        proof {
            assert(s@.skip(i as int).drop_first() == s@.skip(i + 1));
        }
        if s[i] == '.' {
            let ghost cv = cur@;
            out.push(cur);
            cur = Vec::new();
            proof {
                assert(views(out@) =~= before.push(cv));
                assert(cur@ =~= Seq::<char>::empty());
                assert(views(out@) + split_dots(s@.skip(i + 1), cur@) =~= before + (seq![cv]
                    + split_dots(s@.skip(i + 1), seq![])));
            }
        } else {
            cur.push(s[i]);
        }
        i += 1;
    }
    proof {
        assert(s@.skip(i as int) =~= Seq::<char>::empty());
    }
    let ghost before = views(out@);
    let ghost cv = cur@;
    out.push(cur);
    proof {
        assert(views(out@) =~= before + seq![cv]);
    }
    out
}

/// The paths `resolve_elixir_module` tries once the project root is known.
pub fn elixir_module_candidates(module_name: &str, root: &str) -> (r: Vec<String>)
    ensures
        string_views(r@) == elixir_candidates(module_name@, root@),
{
    let parts = split_dots_exec(&chars_of(module_name));
    let mut snaked: Vec<Vec<char>> = Vec::new();
    let mut k: usize = 0;
    while k < parts.len()
        invariant
            k <= parts.len(),
            views(snaked@) == views(parts@).take(k as int).map_values(|p: Seq<char>| snake_case(p)),
        decreases parts.len() - k,
    {
        let ghost before = views(snaked@);
        let s = to_snake_case(string_of(&parts[k]).as_str());
        snaked.push(chars_of(s.as_str()));
        proof {
            assert(views(parts@).take(k + 1).map_values(|p: Seq<char>| snake_case(p))
                =~= views(parts@).take(k as int).map_values(|p: Seq<char>| snake_case(p)).push(
                snake_case(views(parts@)[k as int]),
            ));
            assert(views(snaked@) =~= before.push(snake_case(views(parts@)[k as int])));
        }
        k += 1;
    }
    proof {
        assert(views(parts@).take(parts.len() as int) =~= views(parts@));
    }
    let pp = crate::paths::join_names_of(&snaked);
    let lib_chars = vec!['l', 'i', 'b'];
    let ex = vec!['.', 'e', 'x'];
    assert(lib_chars@ == lib_dir() && ex@ == ex_ext());
    let lib = join_path(&chars_of(root), &lib_chars);
    let mut out: Vec<String> = Vec::new();
    out.push(string_of(&join_path(&lib, &concat(&pp, &ex))));
    match find_char(&pp, '/') {
        Some(i) => {
            proof {
                crate::text::lemma_first_index_of(pp@, '/');
            }
            let rest = slice_chars(&pp, i + 1, pp.len());
            assert(rest@ == pp@.skip(i + 1));
            out.push(string_of(&join_path(&lib, &concat(&rest, &ex))));
        },
        None => {},
    }
    assert(string_views(out@) =~= elixir_candidates(module_name@, root@));
    out
}

fn mix_file() -> (r: Vec<char>)
    ensures
        r@ == seq!['m', 'i', 'x', '.', 'e', 'x', 's'],
{
    vec!['m', 'i', 'x', '.', 'e', 'x', 's']
}

/// The directories above `p`, nearest first: its parent, that one's parent, and so on.
pub open spec fn ancestor_dirs(p: Seq<char>) -> Seq<Seq<char>>
    decreases p.len(),
{
    match parent(p) {
        None => seq![],
        Some(d) => {
            proof {
                lemma_parent_shorter(p);
            }
            seq![d] + ancestor_dirs(d)
        },
    }
}

/// The directories above `p`, nearest first.
fn ancestor_dirs_of(p: &Vec<char>) -> (r: Vec<String>)
    ensures
        string_views(r@) == ancestor_dirs(p@),
{
    let mut out: Vec<String> = Vec::new();
    let mut cur = p.clone();
    loop
        invariant
            string_views(out@) + ancestor_dirs(cur@) == ancestor_dirs(p@),
        decreases cur@.len(),
    {
        match parent_of(&cur) {
            Some(d) => {
                proof {
                    lemma_parent_shorter(cur@);
                }
                let ghost before = string_views(out@);
                let ghost c0 = cur@;
                out.push(string_of(&d));
                assert(string_views(out@) =~= before.push(d@));
                assert(ancestor_dirs(c0) == seq![d@] + ancestor_dirs(d@));
                assert(before.push(d@) + ancestor_dirs(d@) =~= before + (seq![d@] + ancestor_dirs(d@)));
                cur = d;
            },
            None => {
                assert(ancestor_dirs(cur@) =~= Seq::<Seq<char>>::empty());
                assert(string_views(out@) + Seq::<Seq<char>>::empty() =~= string_views(out@));
                return out;
            },
        }
    }
}

/// The `mix.exs` file each directory would hold, in the same order.
pub open spec fn mix_markers(dirs: Seq<Seq<char>>) -> Seq<Seq<char>> {
    dirs.map_values(|d: Seq<char>| join(d, seq!['m', 'i', 'x', '.', 'e', 'x', 's']))
}

fn mix_markers_of(dirs: &Vec<String>) -> (r: Vec<String>)
    ensures
        string_views(r@) == mix_markers(string_views(dirs@)),
{
    let mut out: Vec<String> = Vec::new();
    let mut i: usize = 0;
    let m = mix_file();
    while i < dirs.len()
        invariant
            i <= dirs.len(),
            m@ == seq!['m', 'i', 'x', '.', 'e', 'x', 's'],
            string_views(out@) == mix_markers(string_views(dirs@).take(i as int)),
        decreases dirs.len() - i,
    {
        let ghost before = string_views(out@);
        let d = chars_of(dirs[i].as_str());
        let j = string_of(&join_path(&d, &m));
        out.push(j);
        proof {
            let dv = string_views(dirs@);
            assert(dv[i as int] == dirs@[i as int]@);
            assert(dv.take(i + 1) =~= dv.take(i as int).push(dv[i as int]));
            assert(mix_markers(dv.take(i + 1)) =~= mix_markers(dv.take(i as int)).push(join(dv[i as int], seq!['m', 'i', 'x', '.', 'e', 'x', 's'])));
            assert(string_views(out@) =~= before.push(j@));
        }
        i += 1;
    }
    assert(string_views(dirs@).take(dirs.len() as int) =~= string_views(dirs@));
    out
}

/// The Elixir target the answers give: the project root is the first directory above the
/// file whose `mix.exs` is answered present (`mix`, nearest first); the target is the
/// first of the root's candidates answered present (`present`).
pub open spec fn elixir_pick(module_name: Seq<char>, dirs: Seq<Seq<char>>, mix: Seq<bool>, present: Seq<bool>) -> Option<Seq<char>> {
    match first_present(dirs, mix) {
        None => None,
        Some(root) => first_present(elixir_candidates(module_name, root), present),
    }
}

/// What asking the disk gives for an Elixir module: `elixir_pick` over one answer for the
/// `mix.exs` of each directory above the file and, once a root is found, one answer per
/// candidate below it.
pub open spec fn elixir_found(module_name: Seq<char>, from_file: Seq<char>, target: Option<Seq<char>>) -> bool {
    exists|mix: Seq<bool>, present: Seq<bool>|
        mix.len() == ancestor_dirs(from_file).len()
            && (first_present(ancestor_dirs(from_file), mix) matches Some(root) ==> present.len() == elixir_candidates(module_name, root).len())
            && #[trigger] elixir_pick(module_name, ancestor_dirs(from_file), mix, present) == target
}

/// The Elixir target that the answers about the directories above `from_file` (`mix`, one
/// per `mix.exs`, nearest first) and about the candidates below the root they give
/// (`present`) pick.
pub fn pick_elixir_target(module_name: &str, from_file: &str, mix: &Vec<bool>, present: &Vec<bool>) -> (r: Option<String>)
    ensures
        crate::extract::opt_view(r) == elixir_pick(module_name@, ancestor_dirs(from_file@), mix@, present@),
{
    let dirs = ancestor_dirs_of(&chars_of(from_file));
    match pick_first_present(&dirs, mix) {
        None => None,
        Some(root) => {
            let cands = elixir_module_candidates(module_name, root.as_str());
            pick_first_present(&cands, present)
        },
    }
}

/// The Elixir target the answers received give: `mix` are about the `mix.exs` of each
/// directory above `from_file`, nearest first, asked until one was present; `present`
/// are about the candidates below the first directory answered to hold one, asked the
/// same way (none when no directory did); the target is what they pick.
pub open spec fn elixir_found_by(module_name: Seq<char>, from_file: Seq<char>, mix: Seq<DiskAnswer>, present: Seq<DiskAnswer>, target: Option<Seq<char>>) -> bool {
    let dirs = ancestor_dirs(from_file);
    &&& about(mix, mix_markers(dirs))
    &&& asked_in_order(dirs.len(), flags(mix))
    &&& match first_present(dirs, flags(mix)) {
        None => present.len() == 0,
        Some(root) => about(present, elixir_candidates(module_name, root))
            && asked_in_order(elixir_candidates(module_name, root).len(), flags(present)),
    }
    &&& target == elixir_pick(module_name, dirs, flags(mix), flags(present))
}

/// The answers' flags, as values.
fn flags_of(answers: &Vec<DiskAnswer>) -> (r: Vec<bool>)
    ensures
        r@ == flags(answers@),
{
    let mut r: Vec<bool> = Vec::new();
    let mut i: usize = 0;
    while i < answers.len()
        invariant
            i <= answers.len(),
            r@ == flags(answers@).take(i as int),
        decreases answers.len() - i,
    {
        r.push(answers[i].present());
        assert(r@ =~= flags(answers@).take(i + 1));
        i += 1;
    }
    assert(r@ =~= flags(answers@));
    r
}

/// Resolves an Elixir module name (`MyApp.Foo.Bar`) to a file below the nearest
/// directory above `from_file` that holds `mix.exs`: the directories are asked about in
/// order, nearest first, then the candidates below the first that holds one. Gives the
/// answers received about the `mix.exs` files and about the candidates.
pub fn resolve_elixir_module(module_name: &str, from_file: &str) -> (r: (Option<String>, Vec<DiskAnswer>, Vec<DiskAnswer>))
    ensures
        parent(from_file@) is None ==> r.0 is None,
        elixir_found_by(module_name@, from_file@, r.1@, r.2@, crate::extract::opt_view(r.0)),
        elixir_found(module_name@, from_file@, crate::extract::opt_view(r.0)),
{
    let dirs = ancestor_dirs_of(&chars_of(from_file));
    let markers = mix_markers_of(&dirs);
    let mix_answers = probe_in_order(&markers);
    let mix = flags_of(&mix_answers);
    let mut answers: Vec<DiskAnswer> = Vec::new();
    match pick_first_present(&dirs, &mix) {
        None => {},
        Some(root) => {
            let cands = elixir_module_candidates(module_name, root.as_str());
            answers = probe_in_order(&cands);
        },
    }
    let present = flags_of(&answers);
    let r = pick_elixir_target(module_name, from_file, &mix, &present);
    proof {
        let ds = ancestor_dirs(from_file@);
        assert(string_views(markers@).len() == ds.len());
        lemma_asked_in_order(ds, mix@);
        let fm = choose|full: Seq<bool>| full.len() == ds.len() && #[trigger] first_present(ds, full) == first_present(ds, mix@);
        if parent(from_file@) is None {
            assert(ds =~= Seq::<Seq<char>>::empty());
        }
        match first_present(ds, mix@) {
            None => {
                assert(elixir_pick(module_name@, ds, fm, present@) == crate::extract::opt_view(r));
            },
            Some(root) => {
                let cs = elixir_candidates(module_name@, root);
                lemma_asked_in_order(cs, present@);
                let fp = choose|full: Seq<bool>| full.len() == cs.len() && #[trigger] first_present(cs, full) == first_present(cs, present@);
                assert(elixir_pick(module_name@, ds, fm, fp) == crate::extract::opt_view(r));
            },
        }
    }
    (r, mix_answers, answers)
}

/// A parent is strictly shorter than its path.
pub proof fn lemma_parent_shorter(p: Seq<char>)
    requires
        parent(p) is Some,
    ensures
        parent(p)->0.len() < p.len(),
{
    let lb = root_len(p);
    crate::paths::lemma_trim_back(p, lb, p.len() as int);
    let e1 = crate::paths::trim_back(p, lb, p.len() as int);
    if e1 != lb {
        crate::paths::lemma_last_sep_in(p, lb, e1);
        let cut = crate::paths::comp_cut(p, lb, e1);
        crate::paths::lemma_trim_back(p, lb, cut);
    }
}

/// `path` with `ext` appended to its last component as text (`OsString::push`).
pub fn append_ext(path: &str, ext: &str) -> (r: String)
    ensures
        r@ == path@ + ext@,
{
    string_of(&concat(&chars_of(path), &chars_of(ext)))
}

/// `path` with `.` components dropped and each `..` removing the component before it.
pub fn normalize_path(path: &str) -> (r: String)
    ensures
        r@ == normalize(path@),
{
    string_of(&normalize_chars(&chars_of(path)))
}


/// A `crate::` path is looked for from the crate root alone, wherever the importing file
/// is: the same two paths for any two files, the first being the root joined with the
/// path's `::` segments plus `.rs`, the second the same directory's `mod.rs`.
pub proof fn law_crate_paths_from_root(rest: Seq<char>, f1: Seq<char>, f2: Seq<char>, root: Seq<char>)
    ensures
        rust_module_candidates("crate::"@ + rest, f1, root) == rust_module_candidates("crate::"@ + rest, f2, root),
        rust_module_candidates("crate::"@ + rest, f1, root) == seq![
            with_extension(join_all(root, split_path_sep(rest, seq![])), "rs"@),
            join(join_all(root, split_path_sep(rest, seq![])), "mod.rs"@),
        ],
{
    reveal_strlit("crate::");
    reveal_strlit("rs");
    reveal_strlit("mod.rs");
    let u = "crate::"@ + rest;
    assert("crate::"@ =~= crate_prefix());
    assert(u.take(7) =~= crate_prefix());
    assert(starts_with(u, crate_prefix()));
    assert(u.skip(7) =~= rest);
    assert("rs"@ =~= rs_ext());
    assert("mod.rs"@ =~= mod_rs());
}


/// A `self::` path is looked for from the importing file's directory, a `super::` path
/// from the directory above it; any other path that is not a `crate::` path names an
/// outside crate and is not looked for.
pub proof fn law_self_super_paths(rest: Seq<char>, from: Seq<char>, root: Seq<char>, dir: Seq<char>)
    requires
        parent(from) == Some(dir),
    ensures
        rust_module_candidates("self::"@ + rest, from, root) == seq![
            with_extension(join_all(dir, split_path_sep(rest, seq![])), "rs"@),
            join(join_all(dir, split_path_sep(rest, seq![])), "mod.rs"@),
        ],
        parent(dir) matches Some(up) ==> rust_module_candidates("super::"@ + rest, from, root) == seq![
            with_extension(join_all(up, split_path_sep(rest, seq![])), "rs"@),
            join(join_all(up, split_path_sep(rest, seq![])), "mod.rs"@),
        ],
        !starts_with(rest, "crate::"@) && !starts_with(rest, "self::"@) && !starts_with(rest, "super::"@)
            ==> rust_module_candidates(rest, from, root).len() == 0,
{
    reveal_strlit("crate::");
    reveal_strlit("self::");
    reveal_strlit("super::");
    reveal_strlit("rs");
    reveal_strlit("mod.rs");
    assert("crate::"@ =~= crate_prefix());
    assert("self::"@ =~= self_prefix());
    assert("super::"@ =~= super_prefix());
    assert("rs"@ =~= rs_ext());
    assert("mod.rs"@ =~= mod_rs());
    let u = "self::"@ + rest;
    assert(!starts_with(u, crate_prefix())) by {
        if u.len() >= 7 {
            assert(u.take(7)[0] == 's' && crate_prefix()[0] == 'c');
        }
    }
    assert(u.take(6) =~= self_prefix());
    assert(u.skip(6) =~= rest);
    let v = "super::"@ + rest;
    assert(!starts_with(v, crate_prefix())) by {
        assert(v.take(7)[0] == 's' && crate_prefix()[0] == 'c');
    }
    assert(!starts_with(v, self_prefix())) by {
        assert(v.take(6)[1] == 'u' && self_prefix()[1] == 'e');
    }
    assert(v.take(7) =~= super_prefix());
    assert(v.skip(7) =~= rest);
}

/// A relative TypeScript/JavaScript import from a file in `dir` is looked for, in order,
/// at the target itself when it already ends in .ts, .tsx, .js, .jsx or .mjs, then at the
/// target with each of those appended, then at `index` with each of them inside the
/// target; a bare specifier (a package) is not looked for.
pub proof fn law_ts_js_paths(spec: Seq<char>, from: Seq<char>, dir: Seq<char>)
    requires
        parent(from) == Some(dir),
    ensures
        !(starts_with(spec, "./"@) || starts_with(spec, "../"@)) ==> ts_js_candidates(spec, from).len() == 0,
        (starts_with(spec, "./"@) || starts_with(spec, "../"@)) ==> {
            let c = normalize(join(dir, spec));
            let own = ends_with(c, ".ts"@) || ends_with(c, ".tsx"@) || ends_with(c, ".js"@) || ends_with(c, ".jsx"@)
                || ends_with(c, ".mjs"@);
            let tried = seq![
                c + ".ts"@, c + ".tsx"@, c + ".js"@, c + ".jsx"@, c + ".mjs"@,
                join(c, "index.ts"@), join(c, "index.tsx"@), join(c, "index.js"@), join(c, "index.jsx"@), join(c, "index.mjs"@),
            ];
            ts_js_candidates(spec, from) == if own { seq![c] + tried } else { tried }
        },
{
    reveal_strlit("./");
    reveal_strlit("../");
    reveal_strlit(".ts");
    reveal_strlit(".tsx");
    reveal_strlit(".js");
    reveal_strlit(".jsx");
    reveal_strlit(".mjs");
    reveal_strlit("index.ts");
    reveal_strlit("index.tsx");
    reveal_strlit("index.js");
    reveal_strlit("index.jsx");
    reveal_strlit("index.mjs");
    assert("./"@ =~= dot_slash());
    assert("../"@ =~= dot_dot_slash());
    let exts = ts_js_extensions();
    assert(".ts"@ =~= exts[0]);
    assert(".tsx"@ =~= exts[1]);
    assert(".js"@ =~= exts[2]);
    assert(".jsx"@ =~= exts[3]);
    assert(".mjs"@ =~= exts[4]);
    assert("index.ts"@ =~= index_name(exts[0]));
    assert("index.tsx"@ =~= index_name(exts[1]));
    assert("index.js"@ =~= index_name(exts[2]));
    assert("index.jsx"@ =~= index_name(exts[3]));
    assert("index.mjs"@ =~= index_name(exts[4]));
    if starts_with(spec, "./"@) || starts_with(spec, "../"@) {
        let c = normalize(join(dir, spec));
        let own = ends_with(c, ".ts"@) || ends_with(c, ".tsx"@) || ends_with(c, ".js"@) || ends_with(c, ".jsx"@)
            || ends_with(c, ".mjs"@);
        if own {
            if ends_with(c, ".ts"@) { assert(ends_with(c, exts[0])); }
            else if ends_with(c, ".tsx"@) { assert(ends_with(c, exts[1])); }
            else if ends_with(c, ".js"@) { assert(ends_with(c, exts[2])); }
            else if ends_with(c, ".jsx"@) { assert(ends_with(c, exts[3])); }
            else { assert(ends_with(c, exts[4])); }
        }
        if exists|k: int| 0 <= k < exts.len() && ends_with(c, #[trigger] exts[k]) {
            let k = choose|k: int| 0 <= k < exts.len() && ends_with(c, #[trigger] exts[k]);
            assert(0 <= k < 5);
        }
        assert(exts.map_values(|e: Seq<char>| c + e) =~= seq![c + ".ts"@, c + ".tsx"@, c + ".js"@, c + ".jsx"@, c + ".mjs"@]);
        assert(exts.map_values(|e: Seq<char>| join(c, index_name(e))) =~= seq![
            join(c, "index.ts"@), join(c, "index.tsx"@), join(c, "index.js"@), join(c, "index.jsx"@), join(c, "index.mjs"@),
        ]);
    }
}


/// `mod <name>;` in a file in `dir` is looked for at `dir/<name>.rs`, then at
/// `dir/<name>/mod.rs`.
pub proof fn law_mod_decl_paths(name: Seq<char>, from: Seq<char>, dir: Seq<char>)
    requires
        parent(from) == Some(dir),
    ensures
        rust_mod_decl_candidates(name, from) == seq![join(dir, name + ".rs"@), join(join(dir, name), "mod.rs"@)],
{
    reveal_strlit(".rs");
    reveal_strlit("mod.rs");
    assert(".rs"@ =~= seq!['.', 'r', 's']);
    assert("mod.rs"@ =~= mod_rs());
}

/// `require_relative` in a file in `dir` is looked for at the normalised target, then at
/// the target with `.rb` appended; a plain `require` (a gem) is not looked for.
pub proof fn law_ruby_paths(spec: Seq<char>, from: Seq<char>, dir: Seq<char>)
    requires
        parent(from) == Some(dir),
    ensures
        ruby_candidates(spec, from, true) == seq![normalize(join(dir, spec)), normalize(join(dir, spec)) + ".rb"@],
        ruby_candidates(spec, from, false).len() == 0,
{
    reveal_strlit(".rb");
    assert(".rb"@ =~= seq!['.', 'r', 'b']);
}

/// An Elixir module below a project root is looked for at `lib/<path>.ex`, `<path>` being
/// its dotted parts in snake_case joined by `/`; then, when the path has a directory part
/// `<app>/<rest>`, at `lib/<rest>.ex`. The project root is found by asking about the
/// `mix.exs` of each directory.
pub proof fn law_elixir_paths(module_name: Seq<char>, root: Seq<char>, app: Seq<char>, rest: Seq<char>, dirs: Seq<Seq<char>>)
    ensures
        elixir_candidates(module_name, root)[0] == join(join(root, "lib"@), elixir_path_part(module_name) + ".ex"@),
        !elixir_path_part(module_name).contains('/') ==> elixir_candidates(module_name, root).len() == 1,
        elixir_path_part(module_name) == app + "/"@ + rest && !app.contains('/') ==> elixir_candidates(module_name, root) == seq![
            join(join(root, "lib"@), elixir_path_part(module_name) + ".ex"@),
            join(join(root, "lib"@), rest + ".ex"@),
        ],
        mix_markers(dirs).len() == dirs.len(),
        forall|i: int| 0 <= i < dirs.len() ==> #[trigger] mix_markers(dirs)[i] == join(dirs[i], "mix.exs"@),
{
    reveal_strlit("lib");
    reveal_strlit(".ex");
    reveal_strlit("/");
    reveal_strlit("mix.exs");
    assert("lib"@ =~= lib_dir());
    assert(".ex"@ =~= ex_ext());
    assert("mix.exs"@ =~= seq!['m', 'i', 'x', '.', 'e', 'x', 's']);
    let pp = elixir_path_part(module_name);
    crate::text::lemma_first_index_of(pp, '/');
    if pp == app + "/"@ + rest && !app.contains('/') {
        let i = first_index_of(pp, '/')->0;
        assert(pp[app.len() as int] == '/');
        if i < app.len() {
            assert(app[i] == '/');
        }
        if i > app.len() {
            assert(pp.take(i)[app.len() as int] == '/');
        }
        assert(pp.skip(app.len() + 1int) =~= rest);
    }
}

} // verus!
