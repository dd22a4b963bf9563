//! Finding file paths mentioned in free text (a user's prompt).
use vstd::prelude::*;
use crate::order::{insert_sorted, strictly_sorted, views};
use crate::text::{string_views, chars_of, is_whitespace, is_ws, last_index_of, rfind_char, slice_chars, string_of};

verus! {

/// Whether a character is alphabetic or numeric in Unicode (`char::is_alphanumeric`).
pub uninterp spec fn unicode_alphanumeric(c: char) -> bool;

/// `char::is_alphanumeric`. Claimed: the result is the Unicode property named
/// `unicode_alphanumeric`, and for ASCII characters it holds exactly of `0-9`, `A-Z`, `a-z`.
#[verifier::external_body]
pub(crate) fn char_is_alphanumeric(c: char) -> (r: bool)
    ensures
        r == unicode_alphanumeric(c),
        (c as u32) < 128 ==> (r <==> (('0' <= c && c <= '9') || ('A' <= c && c <= 'Z') || ('a'
            <= c && c <= 'z'))),
{
    c.is_alphanumeric()
}

/// Characters at which a prompt is split into words.
pub open spec fn is_word_sep(c: char) -> bool {
    is_ws(c) || c == '`' || c == '\'' || c == '"'
}

/// Characters that may stand at either end of a file mention.
pub open spec fn is_path_char(c: char) -> bool {
    unicode_alphanumeric(c) || c == '.' || c == '/' || c == '_' || c == '-'
}

/// The pieces of `s` between separators, `cur` being the piece read so far
/// (`str::split` with a character predicate).
pub open spec fn pieces_from(s: Seq<char>, cur: Seq<char>) -> Seq<Seq<char>>
    decreases s.len(),
{
    if s.len() == 0 {
        seq![cur]
    } else if is_word_sep(s[0]) {
        seq![cur] + pieces_from(s.drop_first(), seq![])
    } else {
        pieces_from(s.drop_first(), cur.push(s[0]))
    }
}

pub open spec fn pieces(s: Seq<char>) -> Seq<Seq<char>> {
    pieces_from(s, seq![])
}

pub open spec fn lead_non_path(s: Seq<char>) -> nat
    decreases s.len(),
{
    if s.len() > 0 && !is_path_char(s[0]) {
        1 + lead_non_path(s.drop_first())
    } else {
        0
    }
}

pub open spec fn trail_non_path(s: Seq<char>) -> nat
    decreases s.len(),
{
    if s.len() > 0 && !is_path_char(s.last()) {
        1 + trail_non_path(s.drop_last())
    } else {
        0
    }
}

/// A word with the non-path characters at both ends removed (`str::trim_matches`).
pub open spec fn trim_non_path(w: Seq<char>) -> Seq<char> {
    let t = w.skip(lead_non_path(w) as int);
    t.take(t.len() - trail_non_path(t))
}

/// The file extensions that make a word count as a file mention.
pub open spec fn mention_extensions() -> Seq<Seq<char>> {
    seq![
        seq!['t', 's'],
        seq!['t', 's', 'x'],
        seq!['j', 's'],
        seq!['j', 's', 'x'],
        seq!['r', 's'],
        seq!['r', 'b'],
        seq!['e', 'x'],
        seq!['e', 'x', 's'],
        seq!['p', 'y'],
        seq!['g', 'o'],
        seq!['j', 'a', 'v', 'a'],
        seq!['c'],
        seq!['h'],
        seq!['c', 'p', 'p'],
        seq!['h', 'p', 'p'],
        seq!['c', 's', 's'],
        seq!['s', 'c', 's', 's'],
        seq!['v', 'u', 'e'],
        seq!['s', 'v', 'e', 'l', 't', 'e'],
        seq!['j', 's', 'o', 'n'],
        seq!['t', 'o', 'm', 'l'],
        seq!['y', 'a', 'm', 'l'],
        seq!['y', 'm', 'l'],
        seq!['m', 'd'],
    ]
}

/// A trimmed word names a file: the text after its last `.` is a known extension.
pub open spec fn is_mention(w: Seq<char>) -> bool {
    match last_index_of(w, '.') {
        Some(pos) => mention_extensions().contains(w.skip(pos + 1)),
        None => false,
    }
}

/// The trimmed words among `words` that are file mentions, in order and with repetitions.
pub open spec fn mentions_of(words: Seq<Seq<char>>) -> Seq<Seq<char>> {
    words.map_values(|w: Seq<char>| trim_non_path(w)).filter(
        |w: Seq<char>| w.len() > 0 && is_mention(w),
    )
}

/// The words of `text` that are file mentions, in order and with repetitions.
pub open spec fn mention_words(text: Seq<char>) -> Seq<Seq<char>> {
    mentions_of(pieces(text))
}

fn is_word_sep_exec(c: char) -> (r: bool)
    ensures
        r == is_word_sep(c),
{
    is_whitespace(c) || c == '`' || c == '\'' || c == '"'
}

fn is_path_char_exec(c: char) -> (r: bool)
    ensures
        r == is_path_char(c),
{
    char_is_alphanumeric(c) || c == '.' || c == '/' || c == '_' || c == '-'
}

fn trim_non_path_exec(w: &Vec<char>) -> (r: Vec<char>)
    ensures
        r@ == trim_non_path(w@),
{
    let mut i: usize = 0;
    assert(w@.skip(0) == w@);
    while i < w.len() && !is_path_char_exec(w[i])
        invariant
            i <= w.len(),
            lead_non_path(w@) == i + lead_non_path(w@.skip(i as int)),
        decreases w.len() - i,
    {
        proof {
            assert(w@.skip(i as int).drop_first() == w@.skip(i + 1));
        }
        i += 1;
    }
    let t = slice_chars(w, i, w.len());
    assert(t@ == w@.skip(lead_non_path(w@) as int));
    let mut j: usize = t.len();
    assert(t@.take(t.len() as int) == t@);
    while j > 0 && !is_path_char_exec(t[j - 1])
        invariant
            j <= t.len(),
            trail_non_path(t@) == (t.len() - j) + trail_non_path(t@.take(j as int)),
        decreases j,
    {
        proof {
            assert(t@.take(j as int).drop_last() == t@.take(j - 1));
        }
        j -= 1;
    }
    proof {
        assert(t@.take(j as int) == t@.take(j as int).take(j as int));
    }
    slice_chars(&t, 0, j)
}

fn ext_list() -> (r: Vec<Vec<char>>)
    ensures
        views(r@) == mention_extensions(),
{
    let r = vec![
        vec!['t', 's'],
        vec!['t', 's', 'x'],
        vec!['j', 's'],
        vec!['j', 's', 'x'],
        vec!['r', 's'],
        vec!['r', 'b'],
        vec!['e', 'x'],
        vec!['e', 'x', 's'],
        vec!['p', 'y'],
        vec!['g', 'o'],
        vec!['j', 'a', 'v', 'a'],
        vec!['c'],
        vec!['h'],
        vec!['c', 'p', 'p'],
        vec!['h', 'p', 'p'],
        vec!['c', 's', 's'],
        vec!['s', 'c', 's', 's'],
        vec!['v', 'u', 'e'],
        vec!['s', 'v', 'e', 'l', 't', 'e'],
        vec!['j', 's', 'o', 'n'],
        vec!['t', 'o', 'm', 'l'],
        vec!['y', 'a', 'm', 'l'],
        vec!['y', 'm', 'l'],
        vec!['m', 'd'],
    ];
    assert(views(r@) =~~= mention_extensions());
    r
}

fn is_mention_exec(w: &Vec<char>) -> (r: bool)
    ensures
        r == is_mention(w@),
{
    match rfind_char(w, '.') {
        None => false,
        Some(pos) => {
            proof {
                crate::text::lemma_last_index_of(w@, '.');
            }
            assert(pos < w.len());
            let ext = slice_chars(w, pos + 1, w.len());
            assert(ext@ == w@.skip(pos + 1));
            let exts = ext_list();
            let mut k: usize = 0;
            while k < exts.len()
                invariant
                    k <= exts.len(),
                    views(exts@) == mention_extensions(),
                    last_index_of(w@, '.') == Some(pos as int),
                    ext@ == w@.skip(pos + 1),
                    forall|m: int| 0 <= m < k ==> views(exts@)[m] != ext@,
                decreases exts.len() - k,
            {
                if crate::text::eq_chars(&exts[k], &ext) {
                    assert(views(exts@)[k as int] == ext@);
                    assert(mention_extensions()[k as int] == ext@);
                    assert(mention_extensions().contains(ext@));
                    assert(last_index_of(w@, '.') == Some(pos as int));
                    assert(is_mention(w@));
                    return true;
                }
                k += 1;
            }
            proof {
                if mention_extensions().contains(ext@) {
                    let m = choose|m: int| 0 <= m < mention_extensions().len() && mention_extensions()[m] == ext@;
                    assert(views(exts@)[m] != ext@);
                }
            }
            false
        },
    }
}

/// Ends a word: its trimmed form joins the sorted set when it is a file mention.
fn close_word(sorted: &mut Vec<Vec<char>>, word: &Vec<char>, Ghost(done): Ghost<Seq<Seq<char>>>)
    requires
        strictly_sorted(views(old(sorted)@)),
        forall|w: Seq<char>| #[trigger]
            views(old(sorted)@).contains(w) <==> mentions_of(done).contains(w),
    ensures
        strictly_sorted(views(final(sorted)@)),
        forall|w: Seq<char>| #[trigger]
            views(final(sorted)@).contains(w) <==> mentions_of(done.push(word@)).contains(w),
{
    let t = trim_non_path_exec(word);
    proof {
        lemma_filter_push(done, word@);
    }
    if t.len() > 0 && is_mention_exec(&t) {
        let ghost before = views(sorted@);
        insert_sorted(sorted, t);
        proof {
            assert forall|w: Seq<char>| #[trigger]
                views(sorted@).contains(w) <==> mentions_of(done.push(word@)).contains(w) by {
                let m = mentions_of(done);
                assert(mentions_of(done.push(word@)) == m.push(trim_non_path(word@)));
                if m.push(trim_non_path(word@)).contains(w) {
                    let k = choose|k: int| 0 <= k < m.len() + 1 && m.push(trim_non_path(word@))[k] == w;
                    if k < m.len() {
                        assert(m[k] == w);
                    }
                }
                if m.contains(w) {
                    let k = choose|k: int| 0 <= k < m.len() && m[k] == w;
                    assert(m.push(trim_non_path(word@))[k] == w);
                }
                if w == trim_non_path(word@) {
                    assert(m.push(trim_non_path(word@))[m.len() as int] == w);
                }
            }
        }
    }
}

/// The file paths mentioned in `text`: every word (split at whitespace, backticks and
/// quotes, and trimmed of characters other than letters, digits, `.`, `/`, `_`, `-`) whose
/// text after its last `.` is a known source or config extension; sorted, without repeats.
pub fn extract_file_mentions(text: &str) -> (r: Vec<String>)
    ensures
        strictly_sorted(string_views(r@)),
        forall|w: Seq<char>|
            #[trigger] string_views(r@).contains(w) <==> mention_words(text@).contains(w),
{
    let s = chars_of(text);
    let mut sorted: Vec<Vec<char>> = Vec::new();
    let mut cur: Vec<char> = Vec::new();
    let mut i: usize = 0;
    let ghost mut done: Seq<Seq<char>> = seq![];
    assert(s@.skip(0) == s@);
    assert(done + pieces_from(s@, cur@) =~= pieces(s@));
    while i < s.len()
        invariant
            i <= s.len(),
            pieces(s@) == done + pieces_from(s@.skip(i as int), cur@),
            strictly_sorted(views(sorted@)),
            forall|w: Seq<char>| #[trigger]
                views(sorted@).contains(w) <==> mentions_of(done).contains(w),
        decreases s.len() - i,
    {
        proof {
            assert(s@.skip(i as int).drop_first() == s@.skip(i + 1));
        }
        if is_word_sep_exec(s[i]) {
            let ghost old_done = done;
            let ghost old_cur = cur@;
            close_word(&mut sorted, &cur, Ghost(done));
            proof {
                done = done.push(old_cur);
                assert(seq![old_cur] + pieces_from(s@.skip(i + 1), seq![]) == pieces_from(
                    s@.skip(i as int),
                    old_cur,
                ));
                assert(old_done + pieces_from(s@.skip(i as int), old_cur) =~= done
                    + pieces_from(s@.skip(i + 1), seq![]));
            }
            cur = Vec::new();
            proof {
                assert(cur@ =~= Seq::<char>::empty());
            }
        } else {
            cur.push(s[i]);
        }
        i += 1;
    }
    proof {
        assert(s@.skip(i as int) =~= Seq::<char>::empty());
        assert(done + seq![cur@] =~= done.push(cur@));
    }
    close_word(&mut sorted, &cur, Ghost(done));
    proof {
        done = done.push(cur@);
    }
    let mut out: Vec<String> = Vec::new();
    let mut k: usize = 0;
    while k < sorted.len()
        invariant
            k <= sorted.len(),
            string_views(out@) == views(sorted@).take(k as int),
        decreases sorted.len() - k,
    {
        let ghost before = out@;
        let t = string_of(&sorted[k]);
        out.push(t);
        proof {
            assert(string_views(out@) =~= string_views(before).push(t@));
            assert(string_views(out@) =~= views(sorted@).take(k + 1));
        }
        k += 1;
    }
    proof {
        assert(views(sorted@).take(sorted.len() as int) =~= views(sorted@));
    }
    out
}

proof fn lemma_filter_push(done: Seq<Seq<char>>, p: Seq<char>)
    ensures
        mentions_of(done.push(p)) == if trim_non_path(p).len() > 0 && is_mention(
            trim_non_path(p),
        ) {
            mentions_of(done).push(trim_non_path(p))
        } else {
            mentions_of(done)
        },
{
    let f = |q: Seq<char>| trim_non_path(q);
    let pr = |w: Seq<char>| w.len() > 0 && is_mention(w);
    assert(done.push(p).map_values(f) =~= done.map_values(f).push(f(p)));
    reveal(Seq::filter);
    assert(done.map_values(f).push(f(p)).drop_last() =~= done.map_values(f));
}


/// The text after the last `.` of a word decides whether it names a file: it must be
/// one of ts, tsx, js, jsx, rs, rb, ex, exs, py, go, java, c, h, cpp, hpp, css, scss,
/// vue, svelte, json, toml, yaml, yml or md. A word without a `.` names no file.
pub proof fn law_mention_by_extension(base: Seq<char>, ext: Seq<char>)
    requires
        !ext.contains('.'),
    ensures
        is_mention(base + seq!['.'] + ext) <==> (
            ext == "ts"@
            || ext == "tsx"@
            || ext == "js"@
            || ext == "jsx"@
            || ext == "rs"@
            || ext == "rb"@
            || ext == "ex"@
            || ext == "exs"@
            || ext == "py"@
            || ext == "go"@
            || ext == "java"@
            || ext == "c"@
            || ext == "h"@
            || ext == "cpp"@
            || ext == "hpp"@
            || ext == "css"@
            || ext == "scss"@
            || ext == "vue"@
            || ext == "svelte"@
            || ext == "json"@
            || ext == "toml"@
            || ext == "yaml"@
            || ext == "yml"@
            || ext == "md"@
        ),
        !base.contains('.') ==> !is_mention(base),
{
    reveal_strlit("ts");
    reveal_strlit("tsx");
    reveal_strlit("js");
    reveal_strlit("jsx");
    reveal_strlit("rs");
    reveal_strlit("rb");
    reveal_strlit("ex");
    reveal_strlit("exs");
    reveal_strlit("py");
    reveal_strlit("go");
    reveal_strlit("java");
    reveal_strlit("c");
    reveal_strlit("h");
    reveal_strlit("cpp");
    reveal_strlit("hpp");
    reveal_strlit("css");
    reveal_strlit("scss");
    reveal_strlit("vue");
    reveal_strlit("svelte");
    reveal_strlit("json");
    reveal_strlit("toml");
    reveal_strlit("yaml");
    reveal_strlit("yml");
    reveal_strlit("md");
    let w = base + seq!['.'] + ext;
    crate::text::lemma_last_index_of(w, '.');
    crate::text::lemma_last_index_of(base, '.');
    assert(w[base.len() as int] == '.');
    let i = last_index_of(w, '.')->0;
    if i < base.len() {
        assert(w.skip(i + 1)[base.len() - i - 1] == '.');
    }
    if i > base.len() {
        assert(ext[i - base.len() - 1] == '.');
    }
    assert(w.skip(base.len() + 1int) =~= ext);
    let m = mention_extensions();
    if m.contains(ext) {
        let k = choose|k: int| 0 <= k < m.len() && m[k] == ext;
        assert(0 <= k < 24);
    }
    assert("ts"@ =~= m[0]);
    assert("tsx"@ =~= m[1]);
    assert("js"@ =~= m[2]);
    assert("jsx"@ =~= m[3]);
    assert("rs"@ =~= m[4]);
    assert("rb"@ =~= m[5]);
    assert("ex"@ =~= m[6]);
    assert("exs"@ =~= m[7]);
    assert("py"@ =~= m[8]);
    assert("go"@ =~= m[9]);
    assert("java"@ =~= m[10]);
    assert("c"@ =~= m[11]);
    assert("h"@ =~= m[12]);
    assert("cpp"@ =~= m[13]);
    assert("hpp"@ =~= m[14]);
    assert("css"@ =~= m[15]);
    assert("scss"@ =~= m[16]);
    assert("vue"@ =~= m[17]);
    assert("svelte"@ =~= m[18]);
    assert("json"@ =~= m[19]);
    assert("toml"@ =~= m[20]);
    assert("yaml"@ =~= m[21]);
    assert("yml"@ =~= m[22]);
    assert("md"@ =~= m[23]);
}


proof fn lemma_pieces_at_sep(a: Seq<char>, c: char, b: Seq<char>, cur: Seq<char>)
    requires
        is_word_sep(c),
    ensures
        pieces_from(a + seq![c] + b, cur) == pieces_from(a, cur) + pieces_from(b, seq![]),
    decreases a.len(),
{
    let s = a + seq![c] + b;
    if a.len() == 0 {
        assert(s =~= seq![c] + b);
        assert(s.drop_first() =~= b);
    } else {
        assert(s[0] == a[0]);
        assert(s.drop_first() =~= a.drop_first() + seq![c] + b);
        if is_word_sep(a[0]) {
            lemma_pieces_at_sep(a.drop_first(), c, b, seq![]);
        } else {
            lemma_pieces_at_sep(a.drop_first(), c, b, cur.push(a[0]));
        }
    }
}

/// A prompt is split into words at whitespace, backquotes, single and double quotes: the
/// mentions of two texts joined by such a character are the mentions of each, in order.
pub proof fn law_mentions_split(a: Seq<char>, c: char, b: Seq<char>)
    requires
        c == ' ' || c == '\t' || c == '\n' || c == '\r' || c == '`' || c == '\'' || c == '"',
    ensures
        mention_words(a + seq![c] + b) == mention_words(a) + mention_words(b),
{
    lemma_pieces_at_sep(a, c, b, seq![]);
    let f = |w: Seq<char>| trim_non_path(w);
    let keep = |w: Seq<char>| w.len() > 0 && is_mention(w);
    let x = pieces(a);
    let y = pieces(b);
    assert((x + y).map_values(f) =~= x.map_values(f) + y.map_values(f));
    Seq::filter_distributes_over_add(x.map_values(f), y.map_values(f), keep);
}


proof fn lemma_lead_bound(w: Seq<char>)
    ensures
        lead_non_path(w) <= w.len(),
    decreases w.len(),
{
    if w.len() > 0 && !is_path_char(w[0]) {
        lemma_lead_bound(w.drop_first());
    }
}

proof fn lemma_trail_bound(w: Seq<char>)
    ensures
        trail_non_path(w) <= w.len(),
    decreases w.len(),
{
    if w.len() > 0 && !is_path_char(w.last()) {
        lemma_trail_bound(w.drop_last());
    }
}

proof fn lemma_lead_push(w: Seq<char>, c: char)
    requires
        !is_path_char(c),
    ensures
        lead_non_path(w.push(c)) == if lead_non_path(w) == w.len() { w.len() + 1 } else { lead_non_path(w) },
    decreases w.len(),
{
    lemma_lead_bound(w);
    if w.len() == 0 {
        assert(w.push(c).drop_first() =~= Seq::<char>::empty());
        assert(w.push(c)[0] == c);
        assert(lead_non_path(Seq::<char>::empty()) == 0);
        assert(lead_non_path(w.push(c)) == 1 + lead_non_path(w.push(c).drop_first()));
    } else {
        assert(w.push(c)[0] == w[0]);
        assert(w.push(c).drop_first() =~= w.drop_first().push(c));
        if !is_path_char(w[0]) {
            lemma_lead_push(w.drop_first(), c);
        }
    }
}

/// The characters a file mention may begin or end with are the letters and digits and
/// `.`, `/`, `_`, `-`; any other character at either end of a word is cut off, and a
/// word that begins and ends with such characters is kept whole.
pub proof fn law_mention_trim(w: Seq<char>, c: char)
    ensures
        is_path_char(c) <==> (unicode_alphanumeric(c) || c == '.' || c == '/' || c == '_' || c == '-'),
        !is_path_char(c) ==> trim_non_path(seq![c] + w) == trim_non_path(w),
        !is_path_char(c) ==> trim_non_path(w.push(c)) == trim_non_path(w),
        w.len() > 0 && is_path_char(w[0]) && is_path_char(w.last()) ==> trim_non_path(w) == w,
{
    if !is_path_char(c) {
        let cw = seq![c] + w;
        lemma_lead_bound(w);
        assert(cw.drop_first() =~= w);
        assert(cw[0] == c);
        assert(lead_non_path(cw) == 1 + lead_non_path(w));
        assert(cw.skip(lead_non_path(cw) as int) =~= w.skip(lead_non_path(w) as int));
        lemma_lead_push(w, c);
        let wc = w.push(c);
        let l = lead_non_path(w) as int;
        let t = w.skip(l);
        if l == w.len() {
            assert(wc.skip(lead_non_path(wc) as int) =~= Seq::<char>::empty());
            assert(t =~= Seq::<char>::empty());
        } else {
            let t2 = wc.skip(l);
            assert(t2 =~= t.push(c));
            assert(t2.last() == c);
            assert(t2.drop_last() =~= t);
            lemma_trail_bound(t);
            assert(trail_non_path(t2) == 1 + trail_non_path(t));
            assert(t2.take(t2.len() - trail_non_path(t2)) =~= t.take(t.len() - trail_non_path(t)));
        }
    }
    if w.len() > 0 && is_path_char(w[0]) && is_path_char(w.last()) {
        assert(w.skip(0) =~= w);
        assert(trail_non_path(w) == 0);
        assert(w.take(w.len() as int) =~= w);
    }
}

} // verus!
