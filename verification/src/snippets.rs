//! Pieces of source text the extractors keep: string literals without their quotes,
//! one-line signatures, and the doc comment written above a declaration.
use vstd::prelude::*;
use crate::text::{
    first_index_of, find_char, join_by, lines, slice_chars, starts_with, string_of, trim, trim_char, trim_chars,
    trim_start, trim_start_char, trim_start_chars,
};

verus! {

/// A quote character: `'`, `"` or a backtick.
pub open spec fn is_quote(c: char) -> bool {
    c == '\'' || c == '"' || c == '`'
}

pub open spec fn lead_quotes(s: Seq<char>) -> nat
    decreases s.len(),
{
    if s.len() > 0 && is_quote(s[0]) {
        1 + lead_quotes(s.drop_first())
    } else {
        0
    }
}

pub open spec fn trail_quotes(s: Seq<char>) -> nat
    decreases s.len(),
{
    if s.len() > 0 && is_quote(s.last()) {
        1 + trail_quotes(s.drop_last())
    } else {
        0
    }
}

proof fn lemma_quote_bounds(s: Seq<char>)
    ensures
        lead_quotes(s) <= s.len(),
        trail_quotes(s) <= s.len(),
    decreases s.len(),
{
    if s.len() > 0 {
        lemma_quote_bounds(s.drop_first());
        lemma_quote_bounds(s.drop_last());
    }
}

/// A literal's text without the quotes at either end (`trim_matches` on quote characters).
pub open spec fn unquoted(s: Seq<char>) -> Seq<char> {
    let t = s.skip(lead_quotes(s) as int);
    t.take(t.len() - trail_quotes(t))
}

/// A literal's text without the quotes at either end.
pub fn strip_quotes(text: &str) -> (r: String)
    ensures
        r@ == unquoted(text@),
{
    let w = crate::text::chars_of(text);
    let mut i: usize = 0;
    assert(w@.skip(0) == w@);
    while i < w.len() && (w[i] == '\'' || w[i] == '"' || w[i] == '`')
        invariant
            i <= w.len(),
            lead_quotes(w@) == i + lead_quotes(w@.skip(i as int)),
        decreases w.len() - i,
    {
        proof {
            assert(w@.skip(i as int).drop_first() == w@.skip(i + 1));
        }
        i += 1;
    }
    let t = slice_chars(&w, i, w.len());
    assert(t@ == w@.skip(lead_quotes(w@) as int));
    let mut j: usize = t.len();
    assert(t@.take(t.len() as int) == t@);
    while j > 0 && (t[j - 1] == '\'' || t[j - 1] == '"' || t[j - 1] == '`')
        invariant
            j <= t.len(),
            trail_quotes(t@) == (t.len() - j) + trail_quotes(t@.take(j as int)),
        decreases j,
    {
        proof {
            assert(t@.take(j as int).drop_last() == t@.take(j - 1));
        }
        j -= 1;
    }
    proof {
        assert(t@.take(j as int) == t@.take(j as int).take(j as int));
    }
    string_of(&slice_chars(&t, 0, j))
}

/// A declaration's signature: its text up to the first `{`, else up to the first line
/// break, trimmed.
pub open spec fn signature_of(text: Seq<char>) -> Seq<char> {
    match first_index_of(text, '{') {
        Some(i) => trim(text.take(i)),
        None => match first_index_of(text, '\n') {
            Some(i) => trim(text.take(i)),
            None => trim(text),
        },
    }
}

/// A declaration's signature, from its text.
pub fn signature(text: &str) -> (r: String)
    ensures
        r@ == signature_of(text@),
{
    let w = crate::text::chars_of(text);
    match find_char(&w, '{') {
        Some(i) => {
            proof {
                crate::text::lemma_first_index_of(w@, '{');
            }
            let p = slice_chars(&w, 0, i);
            assert(p@ == w@.take(i as int));
            string_of(&trim_chars(&p))
        },
        None => match find_char(&w, '\n') {
            Some(i) => {
                proof {
                    crate::text::lemma_first_index_of(w@, '\n');
                }
                let p = slice_chars(&w, 0, i);
                assert(p@ == w@.take(i as int));
                string_of(&trim_chars(&p))
            },
            None => string_of(&trim_chars(&w)),
        },
    }
}

/// `s` with every leading copy of `p` removed (`trim_start_matches` with a string).
pub open spec fn strip_all(s: Seq<char>, p: Seq<char>) -> Seq<char>
    decreases s.len(),
{
    if p.len() > 0 && starts_with(s, p) {
        strip_all(s.skip(p.len() as int), p)
    } else {
        s
    }
}

pub fn strip_all_chars(s: &Vec<char>, p: &Vec<char>) -> (r: Vec<char>)
    ensures
        r@ == strip_all(s@, p@),
{
    let mut i: usize = 0;
    assert(s@.skip(0) == s@);
    loop
        invariant
            i <= s.len(),
            strip_all(s@, p@) == strip_all(s@.skip(i as int), p@),
        decreases s.len() - i,
    {
        let rest = slice_chars(s, i, s.len());
        assert(rest@ == s@.skip(i as int));
        if p.len() > 0 && crate::text::has_prefix(&rest, p) {
            proof {
                assert(s@.skip(i as int).skip(p@.len() as int) =~= s@.skip(i + p@.len()));
            }
            i = i + p.len();
        } else {
            return rest;
        }
    }
}

/// A doc comment line made plain: comment markers and the blanks around them removed.
pub open spec fn clean_doc_line(l: Seq<char>) -> Seq<char> {
    let a = trim_start(strip_all(l, seq!['/', '*', '*']));
    let b = trim_start(strip_all(a, seq!['*', '/']));
    let c = trim_start(strip_all(strip_all(b, seq!['*', ' ']), seq!['*']));
    let d = strip_all(strip_all(c, seq!['/', '/', '/', ' ']), seq!['/', '/', '/']);
    let e = strip_all(strip_all(d, seq!['/', '/', ' ']), seq!['/', '/']);
    trim(e)
}

fn clean_doc_line_chars(l: &Vec<char>) -> (r: Vec<char>)
    ensures
        r@ == clean_doc_line(l@),
{
    let open_block = vec!['/', '*', '*'];
    let close_block = vec!['*', '/'];
    let star_blank = vec!['*', ' '];
    let star = vec!['*'];
    let doc_blank = vec!['/', '/', '/', ' '];
    let doc = vec!['/', '/', '/'];
    let line_blank = vec!['/', '/', ' '];
    let line = vec!['/', '/'];
    assert(open_block@ =~= seq!['/', '*', '*'] && close_block@ =~= seq!['*', '/'] && star_blank@ =~= seq!['*', ' ']
        && star@ =~= seq!['*'] && doc_blank@ =~= seq!['/', '/', '/', ' '] && doc@ =~= seq!['/', '/', '/']
        && line_blank@ =~= seq!['/', '/', ' '] && line@ =~= seq!['/', '/']);
    let a = trim_start_chars(&strip_all_chars(l, &open_block));
    let b = trim_start_chars(&strip_all_chars(&a, &close_block));
    let c = trim_start_chars(&strip_all_chars(&strip_all_chars(&b, &star_blank), &star));
    let d = strip_all_chars(&strip_all_chars(&c, &doc_blank), &doc);
    let e = strip_all_chars(&strip_all_chars(&d, &line_blank), &line);
    trim_chars(&e)
}

/// A trimmed line that opens a block doc comment.
pub open spec fn opens_block(t: Seq<char>) -> bool {
    starts_with(t, seq!['/', '*', '*'])
}

/// A trimmed line that belongs to a comment above a declaration: a block comment line
/// (`/**`, `* `, `*/`, a lone `*`) or a line comment (`//`).
pub open spec fn is_comment_line(t: Seq<char>) -> bool {
    ||| opens_block(t)
    ||| starts_with(t, seq!['*', ' '])
    ||| starts_with(t, seq!['*', '/'])
    ||| t == seq!['*']
    ||| starts_with(t, seq!['/', '/'])
}

/// The trimmed comment lines directly above line `i`, in order: read upward while lines
/// are comment lines, stopping after a line that opens a block comment.
pub open spec fn comment_above(ls: Seq<Seq<char>>, i: int) -> Seq<Seq<char>>
    decreases i,
{
    if i <= 0 {
        seq![]
    } else {
        let t = trim(ls[i - 1]);
        if opens_block(t) {
            seq![t]
        } else if is_comment_line(t) {
            comment_above(ls, i - 1).push(t)
        } else {
            seq![]
        }
    }
}

/// The non-empty lines of a list, in order.
pub open spec fn non_empty(ls: Seq<Seq<char>>) -> Seq<Seq<char>>
    decreases ls.len(),
{
    if ls.len() == 0 {
        seq![]
    } else {
        non_empty(ls.drop_last()) + if ls.last().len() > 0 {
            seq![ls.last()]
        } else {
            seq![]
        }
    }
}

/// The doc comment written directly above a declaration starting on line `row`: the
/// comment lines above it, made plain, the empty ones dropped, joined by line breaks;
/// none when there is no such line left.
pub open spec fn doc_comment(source: Seq<char>, row: nat) -> Option<Seq<char>> {
    let found = comment_above(lines(source), row as int);
    let kept = non_empty(found.map_values(|l: Seq<char>| clean_doc_line(l)));
    if row == 0 || found.len() == 0 || kept.len() == 0 {
        None
    } else {
        Some(join_by(kept, seq!['\n']))
    }
}

/// The doc comment written directly above a declaration starting on line `row`, given
/// the source's lines.
pub fn doc_comment_at(source_lines: &Vec<Vec<char>>, row: usize, Ghost(source): Ghost<Seq<char>>) -> (r: Option<String>)
    requires
        crate::order::views(source_lines@) == lines(source),
        row <= source_lines@.len(),
    ensures
        match doc_comment(source, row as nat) {
            Some(d) => r is Some && r->0@ == d,
            None => r is None,
        },
{
    let ghost ls = lines(source);
    if row == 0 {
        return None;
    }
    let mut found: Vec<Vec<char>> = Vec::new();
    let mut k: usize = row;
    let mut stop = false;
    while k > 0 && !stop
        invariant
            k <= row <= source_lines@.len(),
            crate::order::views(source_lines@) == ls,
            stop ==> comment_above(ls, row as int) == crate::order::views(found@),
            !stop ==> comment_above(ls, row as int) == comment_above(ls, k as int) + crate::order::views(found@),
        decreases k + if stop { 0int } else { 1int },
    {
        let t = trim_chars(&source_lines[k - 1]);
        let ghost before = crate::order::views(found@);
        proof {
            assert(crate::order::views(source_lines@)[k - 1] == source_lines@[k - 1]@);
        }
        let open_block = vec!['/', '*', '*'];
        let star_blank = vec!['*', ' '];
        let close_block = vec!['*', '/'];
        let line = vec!['/', '/'];
        let opens = crate::text::has_prefix(&t, &open_block);
        let comment = opens || crate::text::has_prefix(&t, &star_blank) || crate::text::has_prefix(&t, &close_block)
            || (t.len() == 1 && t[0] == '*') || crate::text::has_prefix(&t, &line);
        proof {
            assert(open_block@ =~= seq!['/', '*', '*']);
            assert(star_blank@ =~= seq!['*', ' ']);
            assert(close_block@ =~= seq!['*', '/']);
            assert(line@ =~= seq!['/', '/']);
            if t.len() == 1 && t[0] == '*' {
                assert(t@ =~= seq!['*']);
            }
            if t@ == seq!['*'] {
                assert(t@[0] == '*');
            }
        }
        if opens {
            found.insert(0, t);
            assert(crate::order::views(found@) =~= seq![t@] + before);
            stop = true;
        } else if comment {
            found.insert(0, t);
            assert(crate::order::views(found@) =~= seq![t@] + before);
            assert(comment_above(ls, k as int) == comment_above(ls, k - 1).push(t@));
            assert(comment_above(ls, k - 1).push(t@) + before =~= comment_above(ls, k - 1) + (seq![t@] + before));
            k -= 1;
        } else {
            stop = true;
        }
    }
    proof {
        if !stop {
            assert(k == 0);
            assert(comment_above(ls, 0) =~= Seq::<Seq<char>>::empty());
            assert(comment_above(ls, row as int) =~= crate::order::views(found@));
        }
    }
    if found.len() == 0 {
        return None;
    }
    let mut kept: Vec<String> = Vec::new();
    let mut i: usize = 0;
    let ghost fv = crate::order::views(found@);
    while i < found.len()
        invariant
            i <= found.len(),
            fv == crate::order::views(found@),
            crate::text::string_views(kept@) == non_empty(fv.take(i as int).map_values(|l: Seq<char>| clean_doc_line(l))),
        decreases found.len() - i,
    {
        let ghost before = crate::text::string_views(kept@);
        let c = clean_doc_line_chars(&found[i]);
        proof {
            assert(fv[i as int] == found@[i as int]@);
            let m = fv.take(i + 1).map_values(|l: Seq<char>| clean_doc_line(l));
            assert(m.drop_last() =~= fv.take(i as int).map_values(|l: Seq<char>| clean_doc_line(l)));
            assert(m.last() == c@);
        }
        if c.len() > 0 {
            kept.push(string_of(&c));
            assert(crate::text::string_views(kept@) =~= before + seq![c@]);
        } else {
            assert(crate::text::string_views(kept@) =~= before + Seq::<Seq<char>>::empty());
        }
        i += 1;
    }
    proof {
        assert(fv.take(found.len() as int) =~= fv);
    }
    if kept.len() == 0 {
        return None;
    }
    let joined = crate::text::join_strings(&kept, "\n");
    proof {
        reveal_strlit("\n");
        assert("\n"@ =~= seq!['\n']);
    }
    Some(joined)
}

/// The trimmed `#` comment lines directly above line `i`, in order.
pub open spec fn hash_comments_above(ls: Seq<Seq<char>>, i: int) -> Seq<Seq<char>>
    decreases i,
{
    if i <= 0 {
        seq![]
    } else {
        let t = trim(ls[i - 1]);
        if starts_with(t, seq!['#']) {
            hash_comments_above(ls, i - 1).push(t)
        } else {
            seq![]
        }
    }
}

/// A `#` comment line made plain: its leading `#`s and the blanks after them removed.
pub open spec fn clean_hash_line(l: Seq<char>) -> Seq<char> {
    trim_start(trim_start_char(l, '#'))
}

/// The `#` comment directly above line `row`: its lines made plain, the empty ones
/// dropped, joined by line breaks; none when no line is left.
pub open spec fn hash_doc(ls: Seq<Seq<char>>, row: int) -> Option<Seq<char>> {
    let kept = non_empty(hash_comments_above(ls, row).map_values(|l: Seq<char>| clean_hash_line(l)));
    if kept.len() == 0 {
        None
    } else {
        Some(join_by(kept, seq!['\n']))
    }
}

/// Joins kept lines with line breaks.
fn join_lines(kept: &Vec<String>) -> (r: String)
    ensures
        r@ == join_by(crate::text::string_views(kept@), seq!['\n']),
{
    let joined = crate::text::join_strings(kept, "\n");
    proof {
        reveal_strlit("\n");
        assert("\n"@ =~= seq!['\n']);
    }
    joined
}

/// The `#` comment directly above line `row`, given the source's lines.
pub fn hash_doc_at(source_lines: &Vec<Vec<char>>, row: usize, Ghost(ls): Ghost<Seq<Seq<char>>>) -> (r: Option<String>)
    requires
        crate::order::views(source_lines@) == ls,
        row <= source_lines@.len(),
    ensures
        match hash_doc(ls, row as int) {
            Some(d) => r is Some && r->0@ == d,
            None => r is None,
        },
{
    let mut found: Vec<Vec<char>> = Vec::new();
    let mut k: usize = row;
    let mut stop = false;
    let hash = vec!['#'];
    assert(hash@ =~= seq!['#']);
    while k > 0 && !stop
        invariant
            k <= row <= source_lines@.len(),
            crate::order::views(source_lines@) == ls,
            hash@ == seq!['#'],
            stop ==> hash_comments_above(ls, row as int) == crate::order::views(found@),
            !stop ==> hash_comments_above(ls, row as int) == hash_comments_above(ls, k as int) + crate::order::views(found@),
        decreases k + if stop { 0int } else { 1int },
    {
        let t = trim_chars(&source_lines[k - 1]);
        proof {
            assert(crate::order::views(source_lines@)[k - 1] == source_lines@[k - 1]@);
        }
        if !crate::text::has_prefix(&t, &hash) {
            assert(hash_comments_above(ls, k as int) =~= Seq::<Seq<char>>::empty());
            assert(hash_comments_above(ls, row as int) =~= crate::order::views(found@));
            stop = true;
        } else {
            let ghost before = crate::order::views(found@);
            found.insert(0, t);
            assert(crate::order::views(found@) =~= seq![t@] + before);
            assert(hash_comments_above(ls, k - 1).push(t@) + before =~= hash_comments_above(ls, k - 1) + (seq![t@] + before));
            k -= 1;
        }
    }
    proof {
        if !stop {
            assert(k == 0);
            assert(hash_comments_above(ls, 0) =~= Seq::<Seq<char>>::empty());
            assert(hash_comments_above(ls, row as int) =~= crate::order::views(found@));
        }
    }
    let ghost fv = crate::order::views(found@);
    let mut kept: Vec<String> = Vec::new();
    let mut i: usize = 0;
    while i < found.len()
        invariant
            i <= found.len(),
            fv == crate::order::views(found@),
            crate::text::string_views(kept@) == non_empty(fv.take(i as int).map_values(|l: Seq<char>| clean_hash_line(l))),
        decreases found.len() - i,
    {
        let ghost before = crate::text::string_views(kept@);
        let c = trim_start_chars(&crate::text::trim_start_char_chars(&found[i], '#'));
        proof {
            assert(fv[i as int] == found@[i as int]@);
            let m = fv.take(i + 1).map_values(|l: Seq<char>| clean_hash_line(l));
            assert(m.drop_last() =~= fv.take(i as int).map_values(|l: Seq<char>| clean_hash_line(l)));
            assert(m.last() == c@);
        }
        if c.len() > 0 {
            kept.push(string_of(&c));
            assert(crate::text::string_views(kept@) =~= before + seq![c@]);
        } else {
            assert(crate::text::string_views(kept@) =~= before + Seq::<Seq<char>>::empty());
        }
        i += 1;
    }
    proof {
        assert(fv.take(found.len() as int) =~= fv);
    }
    if kept.len() == 0 {
        return None;
    }
    Some(join_lines(&kept))
}

/// A trimmed line that opens an Elixir doc attribute: `@doc` or `@moduledoc`.
pub open spec fn is_doc_attr(t: Seq<char>) -> bool {
    starts_with(t, seq!['@', 'd', 'o', 'c']) || starts_with(t, seq!['@', 'm', 'o', 'd', 'u', 'l', 'e', 'd', 'o', 'c'])
}

/// The last line before line `i` that is not blank.
pub open spec fn last_non_blank(ls: Seq<Seq<char>>, i: int) -> Option<int>
    decreases i,
{
    if i <= 0 {
        None
    } else if trim(ls[i - 1]).len() > 0 {
        Some(i - 1)
    } else {
        last_non_blank(ls, i - 1)
    }
}

/// The last line before line `i` that opens a doc attribute.
pub open spec fn last_doc_attr(ls: Seq<Seq<char>>, i: int) -> Option<int>
    decreases i,
{
    if i <= 0 {
        None
    } else if is_doc_attr(trim(ls[i - 1])) {
        Some(i - 1)
    } else {
        last_doc_attr(ls, i - 1)
    }
}

/// A text, or none when it is empty.
pub open spec fn unless_empty(s: Seq<char>) -> Option<Seq<char>> {
    if s.len() == 0 {
        None
    } else {
        Some(s)
    }
}

/// The body of a heredoc doc attribute opened on line `j` and closed on line `i`: the
/// lines between, each trimmed, joined by line breaks, trimmed.
pub open spec fn heredoc_body(ls: Seq<Seq<char>>, j: int, i: int) -> Seq<char> {
    trim(join_by(ls.subrange(j + 1, i).map_values(|l: Seq<char>| trim(l)), seq!['\n']))
}

/// The text of a one-line doc attribute, after `@moduledoc`/`@doc`: none for `false`, the
/// text between the quotes of a quoted string (none when empty), none otherwise.
pub open spec fn inline_doc(t: Seq<char>) -> Option<Seq<char>> {
    let a = trim(strip_all(strip_all(t, seq!['@', 'm', 'o', 'd', 'u', 'l', 'e', 'd', 'o', 'c']), seq!['@', 'd', 'o', 'c']));
    if a == seq!['f', 'a', 'l', 's', 'e'] {
        None
    } else if starts_with(a, seq!['"']) && !starts_with(a, seq!['"', '"', '"']) {
        unless_empty(trim_char(a, '"'))
    } else {
        None
    }
}

/// The documentation of an Elixir definition starting on line `row`, read from the last
/// non-blank line above it: the body of a heredoc `@doc`/`@moduledoc` that line closes,
/// a one-line doc attribute, or a `#` comment.
pub open spec fn elixir_doc(source: Seq<char>, row: nat) -> Option<Seq<char>> {
    let ls = lines(source);
    match last_non_blank(ls, row as int) {
        None => None,
        Some(i) => {
            let t = trim(ls[i]);
            if t == seq!['"', '"', '"'] {
                match last_doc_attr(ls, i) {
                    None => None,
                    Some(j) => unless_empty(heredoc_body(ls, j, i)),
                }
            } else if is_doc_attr(t) {
                inline_doc(t)
            } else if starts_with(t, seq!['#']) {
                hash_doc(ls, i + 1)
            } else {
                None
            }
        },
    }
}

proof fn lemma_last_non_blank(ls: Seq<Seq<char>>, i: int)
    ensures
        last_non_blank(ls, i) matches Some(j) ==> 0 <= j < i,
    decreases i,
{
    if i > 0 {
        lemma_last_non_blank(ls, i - 1);
    }
}

proof fn lemma_last_doc_attr(ls: Seq<Seq<char>>, i: int)
    ensures
        last_doc_attr(ls, i) matches Some(j) ==> 0 <= j < i,
    decreases i,
{
    if i > 0 {
        lemma_last_doc_attr(ls, i - 1);
    }
}

fn is_doc_attr_chars(t: &Vec<char>) -> (r: bool)
    ensures
        r == is_doc_attr(t@),
{
    let doc = vec!['@', 'd', 'o', 'c'];
    let moduledoc = vec!['@', 'm', 'o', 'd', 'u', 'l', 'e', 'd', 'o', 'c'];
    assert(doc@ =~= seq!['@', 'd', 'o', 'c']);
    assert(moduledoc@ =~= seq!['@', 'm', 'o', 'd', 'u', 'l', 'e', 'd', 'o', 'c']);
    crate::text::has_prefix(t, &doc) || crate::text::has_prefix(t, &moduledoc)
}

fn inline_doc_of(t: &Vec<char>) -> (r: Option<String>)
    ensures
        match inline_doc(t@) {
            Some(d) => r is Some && r->0@ == d,
            None => r is None,
        },
{
    let doc = vec!['@', 'd', 'o', 'c'];
    let moduledoc = vec!['@', 'm', 'o', 'd', 'u', 'l', 'e', 'd', 'o', 'c'];
    let fls = vec!['f', 'a', 'l', 's', 'e'];
    let q = vec!['"'];
    let qqq = vec!['"', '"', '"'];
    assert(doc@ =~= seq!['@', 'd', 'o', 'c']);
    assert(moduledoc@ =~= seq!['@', 'm', 'o', 'd', 'u', 'l', 'e', 'd', 'o', 'c']);
    assert(fls@ =~= seq!['f', 'a', 'l', 's', 'e']);
    assert(q@ =~= seq!['"']);
    assert(qqq@ =~= seq!['"', '"', '"']);
    let a = trim_chars(&strip_all_chars(&strip_all_chars(t, &moduledoc), &doc));
    if crate::text::eq_chars(&a, &fls) {
        return None;
    }
    if crate::text::has_prefix(&a, &q) && !crate::text::has_prefix(&a, &qqq) {
        let c = crate::text::trim_char_chars(&a, '"');
        if c.len() == 0 {
            None
        } else {
            Some(string_of(&c))
        }
    } else {
        None
    }
}

/// The documentation of an Elixir definition starting on line `row`, given the source's
/// lines.
pub fn elixir_doc_at(source_lines: &Vec<Vec<char>>, row: usize, Ghost(source): Ghost<Seq<char>>) -> (r: Option<String>)
    requires
        crate::order::views(source_lines@) == lines(source),
        row <= source_lines@.len(),
    ensures
        match elixir_doc(source, row as nat) {
            Some(d) => r is Some && r->0@ == d,
            None => r is None,
        },
{
    let ghost ls = lines(source);
    let mut i: usize = row;
    while i > 0 && trim_chars(&source_lines[i - 1]).len() == 0
        invariant
            i <= row <= source_lines@.len(),
            crate::order::views(source_lines@) == ls,
            last_non_blank(ls, row as int) == last_non_blank(ls, i as int),
        decreases i,
    {
        proof {
            assert(crate::order::views(source_lines@)[i - 1] == source_lines@[i - 1]@);
        }
        i -= 1;
    }
    if i == 0 {
        return None;
    }
    let i = i - 1;
    proof {
        assert(crate::order::views(source_lines@)[i as int] == source_lines@[i as int]@);
        assert(last_non_blank(ls, row as int) == Some(i as int));
    }
    let t = trim_chars(&source_lines[i]);
    let qqq = vec!['"', '"', '"'];
    let hash = vec!['#'];
    assert(qqq@ =~= seq!['"', '"', '"']);
    assert(hash@ =~= seq!['#']);
    if crate::text::eq_chars(&t, &qqq) {
        let mut j: usize = i;
        while j > 0 && !is_doc_attr_chars(&trim_chars(&source_lines[j - 1]))
            invariant
                j <= i < source_lines@.len(),
                crate::order::views(source_lines@) == ls,
                last_doc_attr(ls, i as int) == last_doc_attr(ls, j as int),
            decreases j,
        {
            proof {
                assert(crate::order::views(source_lines@)[j - 1] == source_lines@[j - 1]@);
            }
            j -= 1;
        }
        if j == 0 {
            return None;
        }
        let j = j - 1;
        proof {
            assert(crate::order::views(source_lines@)[j as int] == source_lines@[j as int]@);
            assert(last_doc_attr(ls, i as int) == Some(j as int));
        }
        let mut parts: Vec<String> = Vec::new();
        let mut m: usize = j + 1;
        while m < i
            invariant
                j < m <= i,
                i < source_lines@.len(),
                crate::order::views(source_lines@) == ls,
                crate::text::string_views(parts@) == ls.subrange(j + 1, m as int).map_values(|l: Seq<char>| trim(l)),
            decreases i - m,
        {
            let ghost before = crate::text::string_views(parts@);
            let tl = trim_chars(&source_lines[m]);
            proof {
                assert(crate::order::views(source_lines@)[m as int] == source_lines@[m as int]@);
            }
            parts.push(string_of(&tl));
            assert(crate::text::string_views(parts@) =~= before.push(tl@));
            assert(ls.subrange(j + 1, m + 1).map_values(|l: Seq<char>| trim(l)) =~= ls.subrange(j + 1, m as int).map_values(|l: Seq<char>| trim(l)).push(trim(ls[m as int])));
            m += 1;
        }
        let body = trim_chars(&crate::text::chars_of(join_lines(&parts).as_str()));
        if body.len() == 0 {
            None
        } else {
            Some(string_of(&body))
        }
    } else if is_doc_attr_chars(&t) {
        inline_doc_of(&t)
    } else if crate::text::has_prefix(&t, &hash) {
        hash_doc_at(source_lines, i + 1, Ghost(ls))
    } else {
        None
    }
}

} // verus!
