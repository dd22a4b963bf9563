//! A model of Unix paths as character sequences, following `std::path` on Unix:
//! `Path::parent`, `Path::join`, `Path::with_extension`, and the normalisation of
//! `.` and `..` components.
use vstd::prelude::*;
use crate::text::{concat, last_index_of, rfind_char, slice_chars};

verus! {

/// Length of the part of `p` that precedes its body: the root `/`, or a leading `.`
/// component of a relative path.
pub open spec fn root_len(p: Seq<char>) -> int {
    if p.len() > 0 && p[0] == '/' {
        1
    } else if p.len() > 0 && p[0] == '.' && (p.len() == 1 || p[1] == '/') {
        1
    } else {
        0
    }
}

pub open spec fn has_root(p: Seq<char>) -> bool {
    p.len() > 0 && p[0] == '/'
}

/// The last `/` at an index in `[lb, e)`.
pub open spec fn last_sep_in(p: Seq<char>, lb: int, e: int) -> Option<int>
    decreases e - lb,
{
    if e <= lb {
        None
    } else if p[e - 1] == '/' {
        Some(e - 1)
    } else {
        last_sep_in(p, lb, e - 1)
    }
}

pub proof fn lemma_last_sep_in(p: Seq<char>, lb: int, e: int)
    requires
        0 <= lb,
        e <= p.len(),
    ensures
        last_sep_in(p, lb, e) matches Some(k) ==> lb <= k < e && p[k] == '/' && forall|j: int|
            k < j < e ==> p[j] != '/',
        last_sep_in(p, lb, e) is None ==> forall|j: int| lb <= j < e ==> p[j] != '/',
    decreases e - lb,
{
    if e > lb && p[e - 1] != '/' {
        lemma_last_sep_in(p, lb, e - 1);
    }
}

/// Start of the component that ends at `e`.
pub open spec fn comp_start(p: Seq<char>, lb: int, e: int) -> int {
    match last_sep_in(p, lb, e) {
        Some(k) => k + 1,
        None => lb,
    }
}

/// Where the path ends once the component ending at `e` and its separator are removed.
pub open spec fn comp_cut(p: Seq<char>, lb: int, e: int) -> int {
    match last_sep_in(p, lb, e) {
        Some(k) => k,
        None => lb,
    }
}

/// Whether a component's text is empty or `.` (both are skipped).
pub open spec fn is_skipped(c: Seq<char>) -> bool {
    c.len() == 0 || c == seq!['.']
}

/// `e` moved back over trailing separators and `.` components, never below `lb`.
pub open spec fn trim_back(p: Seq<char>, lb: int, e: int) -> int
    decreases e - lb,
{
    if e <= lb {
        e
    } else if is_skipped(p.subrange(comp_start(p, lb, e), e)) {
        proof {
            if 0 <= lb && e <= p.len() {
                lemma_last_sep_in(p, lb, e);
            }
        }
        if 0 <= lb && e <= p.len() && lb <= comp_cut(p, lb, e) < e {
            trim_back(p, lb, comp_cut(p, lb, e))
        } else {
            e
        }
    } else {
        e
    }
}

pub proof fn lemma_trim_back(p: Seq<char>, lb: int, e: int)
    requires
        0 <= lb <= e <= p.len(),
    ensures
        lb <= trim_back(p, lb, e) <= e,
    decreases e - lb,
{
    if e > lb && is_skipped(p.subrange(comp_start(p, lb, e), e)) {
        lemma_last_sep_in(p, lb, e);
        lemma_trim_back(p, lb, comp_cut(p, lb, e));
    }
}

/// `Path::parent` on Unix.
pub open spec fn parent(p: Seq<char>) -> Option<Seq<char>> {
    let lb = root_len(p);
    let e1 = trim_back(p, lb, p.len() as int);
    if e1 == lb {
        if lb == 1 && !has_root(p) {
            Some(Seq::<char>::empty())
        } else {
            None
        }
    } else {
        Some(p.take(trim_back(p, lb, comp_cut(p, lb, e1))))
    }
}

/// `Path::join` on Unix: an absolute `seg` replaces `base`, otherwise a separator is
/// inserted unless `base` is empty or already ends with one.
pub open spec fn join(base: Seq<char>, seg: Seq<char>) -> Seq<char> {
    if seg.len() > 0 && seg[0] == '/' {
        seg
    } else if base.len() > 0 && base.last() != '/' {
        base + seq!['/'] + seg
    } else {
        base + seg
    }
}

fn last_sep_exec(p: &Vec<char>, lb: usize, e: usize) -> (r: Option<usize>)
    requires
        lb <= e <= p.len(),
    ensures
        r matches Some(k) ==> last_sep_in(p@, lb as int, e as int) == Some(k as int),
        r is None ==> last_sep_in(p@, lb as int, e as int) is None,
{
    let mut j = e;
    while j > lb
        invariant
            lb <= j <= e <= p.len(),
            last_sep_in(p@, lb as int, e as int) == last_sep_in(p@, lb as int, j as int),
        decreases j - lb,
    {
        if p[j - 1] == '/' {
            return Some(j - 1);
        }
        j -= 1;
    }
    None
}

fn is_skipped_exec(p: &Vec<char>, s: usize, e: usize) -> (r: bool)
    requires
        s <= e <= p.len(),
    ensures
        r == is_skipped(p@.subrange(s as int, e as int)),
{
    let r = s == e || (e == s + 1 && p[s] == '.');
    proof {
        if e == s + 1 && p@[s as int] == '.' {
            assert(p@.subrange(s as int, e as int) =~= seq!['.']);
        }
        let sub = p@.subrange(s as int, e as int);
        assert(sub.len() == e - s);
        if sub == seq!['.'] {
            assert(sub.len() == 1);
            assert(sub[0] == p@[s as int]);
            assert(sub[0] == '.');
        }
        if s == e {
            assert(sub.len() == 0);
        }
    }
    r
}

fn trim_back_exec(p: &Vec<char>, lb: usize, e: usize) -> (r: usize)
    requires
        lb <= e <= p.len(),
    ensures
        r as int == trim_back(p@, lb as int, e as int),
        lb <= r <= e,
{
    let ghost e0 = e;
    let mut e = e;
    while e > lb
        invariant
            lb <= e <= p.len(),
            trim_back(p@, lb as int, e as int) == trim_back(p@, lb as int, e0 as int),
        ensures
            lb <= e <= p.len(),
            e as int == trim_back(p@, lb as int, e0 as int),
        decreases e - lb,
    {
        let ls = last_sep_exec(p, lb, e);
        proof {
            lemma_last_sep_in(p@, lb as int, e as int);
        }
        let s = match ls {
            Some(k) => k + 1,
            None => lb,
        };
        if !is_skipped_exec(p, s, e) {
            break;
        }
        e = match ls {
            Some(k) => k,
            None => lb,
        };
    }
    proof {
        lemma_trim_back(p@, lb as int, e0 as int);
    }
    e
}

fn root_len_exec(p: &Vec<char>) -> (r: usize)
    ensures
        r as int == root_len(p@),
{
    if p.len() > 0 && p[0] == '/' {
        1
    } else if p.len() > 0 && p[0] == '.' && (p.len() == 1 || p[1] == '/') {
        1
    } else {
        0
    }
}

/// `Path::parent` on Unix.
pub fn parent_of(p: &Vec<char>) -> (r: Option<Vec<char>>)
    ensures
        r matches Some(v) ==> parent(p@) == Some(v@),
        r is None ==> parent(p@) is None,
{
    let lb = root_len_exec(p);
    let e1 = trim_back_exec(p, lb, p.len());
    if e1 == lb {
        if lb == 1 && !(p.len() > 0 && p[0] == '/') {
            Some(Vec::new())
        } else {
            None
        }
    } else {
        let ls = last_sep_exec(p, lb, e1);
        proof {
            lemma_last_sep_in(p@, lb as int, e1 as int);
        }
        let cut = match ls {
            Some(k) => k,
            None => lb,
        };
        let e3 = trim_back_exec(p, lb, cut);
        let r = slice_chars(p, 0, e3);
        assert(r@ == p@.take(e3 as int));
        Some(r)
    }
}

/// `Path::join` on Unix.
pub fn join_path(base: &Vec<char>, seg: &Vec<char>) -> (r: Vec<char>)
    ensures
        r@ == join(base@, seg@),
{
    if seg.len() > 0 && seg[0] == '/' {
        seg.clone()
    } else if base.len() > 0 && base[base.len() - 1] != '/' {
        let mut r = base.clone();
        r.push('/');
        proof {
            assert(r@ =~= base@ + seq!['/']);
        }
        concat(&r, seg)
    } else {
        concat(base, seg)
    }
}


/// The normalisation state: whether the root is still present, and the names kept.
pub struct NormState {
    pub root: bool,
    pub names: Seq<Seq<char>>,
}

/// One component applied to the state: empty and `.` components are dropped, `..`
/// removes the last kept name (or the root when no name is left), any other name is kept.
pub open spec fn norm_step(st: NormState, seg: Seq<char>) -> NormState {
    if is_skipped(seg) {
        st
    } else if seg == seq!['.', '.'] {
        if st.names.len() > 0 {
            NormState { root: st.root, names: st.names.drop_last() }
        } else {
            NormState { root: false, names: st.names }
        }
    } else {
        NormState { root: st.root, names: st.names.push(seg) }
    }
}

/// Normalisation state after reading `s`, with `cur` the component read so far.
pub open spec fn norm_from(s: Seq<char>, cur: Seq<char>, st: NormState) -> NormState
    decreases s.len(),
{
    if s.len() == 0 {
        norm_step(st, cur)
    } else if s[0] == '/' {
        norm_from(s.drop_first(), seq![], norm_step(st, cur))
    } else {
        norm_from(s.drop_first(), cur.push(s[0]), st)
    }
}

/// Names joined with `/`.
pub open spec fn join_names(names: Seq<Seq<char>>) -> Seq<char>
    decreases names.len(),
{
    if names.len() == 0 {
        seq![]
    } else if names.len() == 1 {
        names[0]
    } else {
        join_names(names.drop_last()) + seq!['/'] + names.last()
    }
}

/// A path rebuilt from a normalisation state (`PathBuf: FromIterator<Component>`).
pub open spec fn render(st: NormState) -> Seq<char> {
    if st.root {
        seq!['/'] + join_names(st.names)
    } else {
        join_names(st.names)
    }
}

/// `p` with `.` components dropped and each `..` removing the component before it,
/// without looking at the file system.
pub open spec fn normalize(p: Seq<char>) -> Seq<char> {
    let body = if has_root(p) {
        p.skip(1)
    } else {
        p
    };
    render(norm_from(body, seq![], NormState { root: has_root(p), names: seq![] }))
}

/// A component that normalisation keeps: non-empty, without `/`, neither `.` nor `..`.
pub open spec fn plain_name(seg: Seq<char>) -> bool {
    seg.len() > 0 && !seg.contains('/') && seg != seq!['.'] && seg != seq!['.', '.']
}

proof fn lemma_norm_concat(x: Seq<char>, y: Seq<char>, cur: Seq<char>, st: NormState)
    ensures
        norm_from(x + seq!['/'] + y, cur, st) == norm_from(y, seq![], norm_from(x, cur, st)),
    decreases x.len(),
{
    let s = x + seq!['/'] + y;
    if x.len() == 0 {
        assert(s.drop_first() =~= y);
    } else {
        assert(s[0] == x[0]);
        assert(s.drop_first() =~= x.drop_first() + seq!['/'] + y);
        if x[0] == '/' {
            lemma_norm_concat(x.drop_first(), y, seq![], norm_step(st, cur));
        } else {
            lemma_norm_concat(x.drop_first(), y, cur.push(x[0]), st);
        }
    }
}

proof fn lemma_norm_no_sep(a: Seq<char>, cur: Seq<char>, st: NormState)
    requires
        !a.contains('/'),
    ensures
        norm_from(a, cur, st) == norm_step(st, cur + a),
    decreases a.len(),
{
    if a.len() == 0 {
        assert(cur + a =~= cur);
    } else {
        assert(a.contains(a[0]));
        assert forall|c: char| a.drop_first().contains(c) implies a.contains(c) by {
            let i = choose|i: int| 0 <= i < a.drop_first().len() && a.drop_first()[i] == c;
            assert(a[i + 1] == c);
        }
        lemma_norm_no_sep(a.drop_first(), cur.push(a[0]), st);
        assert(cur.push(a[0]) + a.drop_first() =~= cur + a);
    }
}

proof fn lemma_norm_names(names: Seq<Seq<char>>, root: bool)
    requires
        forall|i: int| 0 <= i < names.len() ==> plain_name(#[trigger] names[i]),
    ensures
        norm_from(join_names(names), seq![], NormState { root, names: seq![] }) == (NormState { root, names }),
    decreases names.len(),
{
    let st0 = NormState { root, names: seq![] };
    if names.len() == 0 {
        assert(names =~= seq![]);
    } else if names.len() == 1 {
        assert(plain_name(names[0]));
        lemma_norm_no_sep(names[0], seq![], st0);
        assert(seq![] + names[0] =~= names[0]);
        assert(seq![].push(names[0]) =~= names);
    } else {
        let init = names.drop_last();
        assert forall|i: int| 0 <= i < init.len() implies plain_name(#[trigger] init[i]) by {
            assert(init[i] == names[i]);
        }
        lemma_norm_names(init, root);
        lemma_norm_concat(join_names(init), names.last(), seq![], st0);
        assert(plain_name(names[names.len() - 1]));
        lemma_norm_no_sep(names.last(), seq![], NormState { root, names: init });
        assert(seq![] + names.last() =~= names.last());
        assert(init.push(names.last()) =~= names);
    }
}

proof fn lemma_join_names_first(names: Seq<Seq<char>>)
    requires
        names.len() > 0,
        forall|i: int| 0 <= i < names.len() ==> plain_name(#[trigger] names[i]),
    ensures
        join_names(names).len() > 0,
        join_names(names)[0] != '/',
    decreases names.len(),
{
    assert(plain_name(names[0]));
    assert(names[0].contains(names[0][0]));
    if names.len() > 1 {
        let init = names.drop_last();
        assert forall|i: int| 0 <= i < init.len() implies plain_name(#[trigger] init[i]) by {
            assert(init[i] == names[i]);
        }
        lemma_join_names_first(init);
        assert(join_names(names)[0] == join_names(init)[0]);
    }
}

proof fn lemma_norm_keeps_plain(s: Seq<char>, cur: Seq<char>, st: NormState)
    requires
        !cur.contains('/'),
        forall|i: int| 0 <= i < st.names.len() ==> plain_name(#[trigger] st.names[i]),
    ensures
        forall|i: int| 0 <= i < norm_from(s, cur, st).names.len() ==> plain_name(#[trigger] norm_from(s, cur, st).names[i]),
    decreases s.len(),
{
    lemma_step_keeps_plain(st, cur);
    if s.len() == 0 {
        assert(norm_from(s, cur, st) == norm_step(st, cur));
    } else {
        if s[0] == '/' {
            assert(norm_from(s, cur, st) == norm_from(s.drop_first(), seq![], norm_step(st, cur)));
            assert(!Seq::<char>::empty().contains('/'));
            lemma_norm_keeps_plain(s.drop_first(), seq![], norm_step(st, cur));
        } else {
            assert(norm_from(s, cur, st) == norm_from(s.drop_first(), cur.push(s[0]), st));
            assert forall|c: char| cur.push(s[0]).contains(c) implies c != '/' by {
                let i = choose|i: int| 0 <= i < cur.push(s[0]).len() && cur.push(s[0])[i] == c;
                if i < cur.len() {
                    assert(cur[i] == c);
                }
            }
            lemma_norm_keeps_plain(s.drop_first(), cur.push(s[0]), st);
        }
    }
}

proof fn lemma_step_keeps_plain(st: NormState, seg: Seq<char>)
    requires
        !seg.contains('/'),
        forall|i: int| 0 <= i < st.names.len() ==> plain_name(#[trigger] st.names[i]),
    ensures
        forall|i: int| 0 <= i < norm_step(st, seg).names.len() ==> plain_name(#[trigger] norm_step(st, seg).names[i]),
{
    let r = norm_step(st, seg);
    assert forall|i: int| 0 <= i < r.names.len() implies plain_name(#[trigger] r.names[i]) by {
        if i < st.names.len() {
            assert(r.names[i] == st.names[i]);
        }
    }
}

/// Normalising a path a second time changes nothing.
pub proof fn law_normalize_idempotent(p: Seq<char>)
    ensures
        normalize(normalize(p)) == normalize(p),
{
    let body = if has_root(p) {
        p.skip(1)
    } else {
        p
    };
    let st0 = NormState { root: has_root(p), names: seq![] };
    let st = norm_from(body, seq![], st0);
    lemma_norm_keeps_plain(body, seq![], st0);
    let q = render(st);
    if st.root {
        assert(has_root(q));
        assert(q.skip(1) =~= join_names(st.names));
    } else if st.names.len() > 0 {
        lemma_join_names_first(st.names);
        assert(!has_root(q));
    } else {
        assert(!has_root(q));
    }
    lemma_norm_names(st.names, st.root);
}

fn norm_step_exec(root: &mut bool, names: &mut Vec<Vec<char>>, seg: Vec<char>)
    ensures
        ({
            let st = norm_step(
                NormState { root: *old(root), names: crate::order::views(old(names)@) },
                seg@,
            );
            *final(root) == st.root && crate::order::views(final(names)@) == st.names
        }),
{
    let ghost ov = crate::order::views(names@);
    let skipped = seg.len() == 0 || (seg.len() == 1 && seg[0] == '.');
    proof {
        if seg.len() == 1 && seg@[0] == '.' {
            assert(seg@ =~= seq!['.']);
        }
        if seg@ == seq!['.'] {
            assert(seg@[0] == '.');
        }
    }
    if skipped {
        return ;
    }
    let dots = seg.len() == 2 && seg[0] == '.' && seg[1] == '.';
    proof {
        if dots {
            assert(seg@ =~= seq!['.', '.']);
        }
        if seg@ == seq!['.', '.'] {
            assert(seg@[0] == '.' && seg@[1] == '.');
        }
    }
    if dots {
        if names.len() > 0 {
            names.pop();
            proof {
                assert(crate::order::views(names@) =~= ov.drop_last());
            }
        } else {
            *root = false;
        }
    } else {
        names.push(seg);
        proof {
            assert(crate::order::views(names@) =~= ov.push(seg@));
        }
    }
}

pub fn join_names_of(names: &Vec<Vec<char>>) -> (r: Vec<char>)
    ensures
        r@ == join_names(crate::order::views(names@)),
{
    let mut r: Vec<char> = Vec::new();
    let mut k: usize = 0;
    while k < names.len()
        invariant
            k <= names.len(),
            r@ == join_names(crate::order::views(names@).take(k as int)),
        decreases names.len() - k,
    {
        let ghost before = r@;
        if k > 0 {
            r.push('/');
        }
        crate::text::extend(&mut r, &names[k]);
        proof {
            let v = crate::order::views(names@);
            assert(v.take(k + 1).drop_last() =~= v.take(k as int));
            if k == 0 {
                assert(before =~= Seq::<char>::empty());
                assert(r@ =~= v.take(1)[0]);
            } else {
                assert(r@ =~= before + seq!['/'] + v[k as int]);
            }
        }
        k += 1;
    }
    proof {
        assert(crate::order::views(names@).take(names.len() as int) =~= crate::order::views(
            names@,
        ));
    }
    r
}

/// Normalises a path as `normalize` describes.
pub fn normalize_chars(p: &Vec<char>) -> (r: Vec<char>)
    ensures
        r@ == normalize(p@),
{
    let rooted = p.len() > 0 && p[0] == '/';
    let start: usize = if rooted {
        1
    } else {
        0
    };
    let ghost body = if rooted {
        p@.skip(1)
    } else {
        p@
    };
    let mut root = rooted;
    let mut names: Vec<Vec<char>> = Vec::new();
    let mut cur: Vec<char> = Vec::new();
    let mut i = start;
    proof {
        assert(p@.skip(start as int) =~= body);
        assert(crate::order::views(names@) =~= Seq::<Seq<char>>::empty());
    }
    while i < p.len()
        invariant
            start <= i <= p.len(),
            body == p@.skip(start as int),
            norm_from(body, seq![], NormState { root: rooted, names: seq![] }) == norm_from(
                p@.skip(i as int),
                cur@,
                NormState { root: root, names: crate::order::views(names@) },
            ),
        decreases p.len() - i,
    {
        proof {
            assert(p@.skip(i as int).drop_first() == p@.skip(i + 1));
        }
        if p[i] == '/' {
            let seg = cur;
            norm_step_exec(&mut root, &mut names, seg);
            cur = Vec::new();
            proof {
                assert(cur@ =~= Seq::<char>::empty());
            }
        } else {
            cur.push(p[i]);
        }
        i += 1;
    }
    proof {
        assert(p@.skip(i as int) =~= Seq::<char>::empty());
    }
    norm_step_exec(&mut root, &mut names, cur);
    let joined = join_names_of(&names);
    if root {
        let mut r: Vec<char> = Vec::new();
        r.push('/');
        proof {
            assert(r@ =~= seq!['/']);
        }
        concat(&r, &joined)
    } else {
        joined
    }
}

/// Range of the last component when it is a file name (not root, `.` or `..`).
pub open spec fn file_name_range(p: Seq<char>) -> Option<(int, int)> {
    let lb = root_len(p);
    let e = trim_back(p, lb, p.len() as int);
    if e == lb {
        None
    } else if p.subrange(comp_start(p, lb, e), e) == seq!['.', '.'] {
        None
    } else {
        Some((comp_start(p, lb, e), e))
    }
}

/// End of the file stem: before the last `.` of the file name, unless that `.` opens it.
pub open spec fn stem_end(p: Seq<char>, s: int, e: int) -> int {
    match last_index_of(p.subrange(s, e), '.') {
        Some(i) => if i > 0 {
            s + i
        } else {
            e
        },
        None => e,
    }
}

/// `Path::with_extension` on Unix (for a non-empty extension).
pub open spec fn with_extension(p: Seq<char>, ext: Seq<char>) -> Seq<char> {
    match file_name_range(p) {
        None => p,
        Some(r) => p.take(stem_end(p, r.0, r.1)) + seq!['.'] + ext,
    }
}

/// `Path::with_extension` on Unix (for a non-empty extension).
pub fn with_extension_chars(p: &Vec<char>, ext: &Vec<char>) -> (r: Vec<char>)
    ensures
        r@ == with_extension(p@, ext@),
{
    let lb = root_len_exec(p);
    let e = trim_back_exec(p, lb, p.len());
    if e == lb {
        return p.clone();
    }
    let ls = last_sep_exec(p, lb, e);
    proof {
        lemma_last_sep_in(p@, lb as int, e as int);
    }
    let s = match ls {
        Some(k) => k + 1,
        None => lb,
    };
    let name = slice_chars(p, s, e);
    let dots = name.len() == 2 && name[0] == '.' && name[1] == '.';
    proof {
        if dots {
            assert(name@ =~= seq!['.', '.']);
        }
        if name@ == seq!['.', '.'] {
            assert(name@[0] == '.' && name@[1] == '.');
        }
    }
    if dots {
        return p.clone();
    }
    let end = match rfind_char(&name, '.') {
        Some(i) => if i > 0 {
            proof {
                crate::text::lemma_last_index_of(name@, '.');
            }
            s + i
        } else {
            e
        },
        None => e,
    };
    let mut r = slice_chars(p, 0, end);
    r.push('.');
    proof {
        assert(p@.subrange(0, end as int) == p@.take(end as int));
    }
    let r2 = concat(&r, ext);
    proof {
        assert(r2@ =~= p@.take(end as int) + seq!['.'] + ext@);
    }
    r2
}


/// `path` relative to `root`: `root` removed from its start when it is there, then every
/// leading `/` (`strip_prefix(root).unwrap_or(path).trim_start_matches('/')`).
pub open spec fn relative(path: Seq<char>, root: Seq<char>) -> Seq<char> {
    crate::text::trim_start_char(
        if crate::text::starts_with(path, root) {
            path.skip(root.len() as int)
        } else {
            path
        },
        '/',
    )
}

/// `path` relative to `root`, as the reports show it.
pub fn relative_path(path: &str, root: &str) -> (r: String)
    ensures
        r@ == relative(path@, root@),
{
    let p = crate::text::chars_of(path);
    let q = crate::text::chars_of(root);
    let rest = if crate::text::has_prefix(&p, &q) {
        slice_chars(&p, q.len(), p.len())
    } else {
        p
    };
    proof {
        assert(p@.subrange(q.len() as int, p.len() as int) == p@.skip(q.len() as int));
    }
    let t = crate::text::trim_start_char_chars(&rest, '/');
    crate::text::string_of(&t)
}

/// `Path::extension` on Unix: the text after the last `.` of the file name, unless that
/// `.` opens the name.
pub open spec fn extension(p: Seq<char>) -> Option<Seq<char>> {
    match file_name_range(p) {
        None => None,
        Some(r) => {
            let se = stem_end(p, r.0, r.1);
            if se == r.1 {
                None
            } else {
                Some(p.subrange(se + 1, r.1))
            }
        },
    }
}

/// `Path::extension` on Unix.
pub fn extension_chars(p: &Vec<char>) -> (r: Option<Vec<char>>)
    ensures
        match extension(p@) {
            Some(e) => r is Some && r->0@ == e,
            None => r is None,
        },
{
    let lb = root_len_exec(p);
    let e = trim_back_exec(p, lb, p.len());
    if e == lb {
        return None;
    }
    let ls = last_sep_exec(p, lb, e);
    proof {
        lemma_last_sep_in(p@, lb as int, e as int);
    }
    let s = match ls {
        Some(k) => k + 1,
        None => lb,
    };
    let name = slice_chars(p, s, e);
    let dots = name.len() == 2 && name[0] == '.' && name[1] == '.';
    proof {
        if dots {
            assert(name@ =~= seq!['.', '.']);
        }
        if name@ == seq!['.', '.'] {
            assert(name@[0] == '.' && name@[1] == '.');
        }
    }
    if dots {
        return None;
    }
    match rfind_char(&name, '.') {
        Some(i) => {
            if i > 0 {
                proof {
                    crate::text::lemma_last_index_of(name@, '.');
                }
                Some(slice_chars(p, s + i + 1, e))
            } else {
                None
            }
        },
        None => None,
    }
}

/// The extension of a file path written with its dot, or the empty text when it has none
/// (`extension().map(|e| format!(".{e}")).unwrap_or_default()`).
pub open spec fn dotted_extension(p: Seq<char>) -> Seq<char> {
    match extension(p) {
        Some(e) => seq!['.'] + e,
        None => seq![],
    }
}

/// The extension of a file path written with its dot, or the empty text.
pub fn dotted_extension_string(path: &str) -> (r: String)
    ensures
        r@ == dotted_extension(path@),
{
    let p = crate::text::chars_of(path);
    match extension_chars(&p) {
        Some(e) => {
            let mut v: Vec<char> = Vec::new();
            v.push('.');
            let w = concat(&v, &e);
            proof {
                assert(v@ =~= seq!['.']);
            }
            crate::text::string_of(&w)
        },
        None => {
            let r = String::new();
            proof {
                assert(r@ =~= Seq::<char>::empty());
            }
            r
        },
    }
}

} // verus!
