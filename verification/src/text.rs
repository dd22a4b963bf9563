//! Character-level text utilities shared by the parsers, resolvers and formatters.
//!
//! Text is modelled as `Seq<char>` (the view of `String` and `&str`).
use vstd::prelude::*;
use vstd::string::*;

verus! {

/// Unicode `White_Space` property (the set `char::is_whitespace` tests).
pub open spec fn is_ws(c: char) -> bool {
    ||| ('\u{09}' <= c && c <= '\u{0D}')
    ||| c == ' '
    ||| c == '\u{85}'
    ||| c == '\u{A0}'
    ||| c == '\u{1680}'
    ||| ('\u{2000}' <= c && c <= '\u{200A}')
    ||| c == '\u{2028}'
    ||| c == '\u{2029}'
    ||| c == '\u{202F}'
    ||| c == '\u{205F}'
    ||| c == '\u{3000}'
}

pub fn is_whitespace(c: char) -> (r: bool)
    ensures
        r == is_ws(c),
{
    ('\u{09}' <= c && c <= '\u{0D}') || c == ' ' || c == '\u{85}' || c == '\u{A0}' || c
        == '\u{1680}' || ('\u{2000}' <= c && c <= '\u{200A}') || c == '\u{2028}' || c
        == '\u{2029}' || c == '\u{202F}' || c == '\u{205F}' || c == '\u{3000}'
}

/// The characters of a string slice, in order.
pub fn chars_of(s: &str) -> (r: Vec<char>)
    ensures
        r@ == s@,
{
    let mut v: Vec<char> = Vec::new();
    for c in it: s.chars()
        invariant
            v@ == it.seq().take(it.index() as int),
            it.seq() == s@,
    {
        v.push(c);
    }
    v
}

/// The character sequences held by a list of strings.
pub open spec fn string_views(s: Seq<String>) -> Seq<Seq<char>> {
    s.map_values(|x: String| x@)
}

/// Appends one character to a `String` (`String::push`).
#[verifier::external_body]
pub(crate) fn push_char(s: &mut String, c: char)
    ensures
        final(s)@ == old(s)@.push(c),
{
    s.push(c);
}

/// A `String` holding exactly the given characters.
pub fn string_of(v: &Vec<char>) -> (r: String)
    ensures
        r@ == v@,
{
    let mut s = String::new();
    let mut i: usize = 0;
    while i < v.len()
        invariant
            i <= v.len(),
            s@ == v@.take(i as int),
        decreases v.len() - i,
    {
        push_char(&mut s, v[i]);
        proof {
            assert(v@.take(i + 1) == v@.take(i as int).push(v@[i as int]));
        }
        i += 1;
    }
    proof {
        assert(v@.take(v.len() as int) == v@);
    }
    s
}

/// A copy of `v[from..to]`.
pub fn slice_chars(v: &Vec<char>, from: usize, to: usize) -> (r: Vec<char>)
    requires
        from <= to <= v.len(),
    ensures
        r@ == v@.subrange(from as int, to as int),
{
    let mut r: Vec<char> = Vec::new();
    let mut i = from;
    while i < to
        invariant
            from <= i <= to <= v.len(),
            r@ == v@.subrange(from as int, i as int),
        decreases to - i,
    {
        r.push(v[i]);
        proof {
            assert(v@.subrange(from as int, i + 1) == v@.subrange(from as int, i as int).push(
                v@[i as int],
            ));
        }
        i += 1;
    }
    r
}

/// Appends all characters of `w` to `v`.
pub fn extend(v: &mut Vec<char>, w: &Vec<char>)
    ensures
        final(v)@ == old(v)@ + w@,
{
    let mut i: usize = 0;
    while i < w.len()
        invariant
            i <= w.len(),
            v@ == old(v)@ + w@.take(i as int),
        decreases w.len() - i,
    {
        v.push(w[i]);
        proof {
            assert(w@.take(i + 1) == w@.take(i as int).push(w@[i as int]));
            assert(old(v)@ + w@.take(i + 1) == (old(v)@ + w@.take(i as int)).push(w@[i as int]));
        }
        i += 1;
    }
    proof {
        assert(w@.take(w.len() as int) == w@);
    }
}

/// `v` followed by `w`.
pub fn concat(v: &Vec<char>, w: &Vec<char>) -> (r: Vec<char>)
    ensures
        r@ == v@ + w@,
{
    let mut r = v.clone();
    proof {
        assert(r@ =~= v@);
    }
    extend(&mut r, w);
    r
}

/// Whether two character vectors are equal.
pub fn eq_chars(a: &Vec<char>, b: &Vec<char>) -> (r: bool)
    ensures
        r == (a@ == b@),
{
    if a.len() != b.len() {
        return false;
    }
    let mut i: usize = 0;
    while i < a.len()
        invariant
            a.len() == b.len(),
            i <= a.len(),
            a@.take(i as int) == b@.take(i as int),
        decreases a.len() - i,
    {
        if a[i] != b[i] {
            assert(a@[i as int] != b@[i as int]);
            return false;
        }
        proof {
            assert(a@.take(i + 1) == a@.take(i as int).push(a@[i as int]));
            assert(b@.take(i + 1) == b@.take(i as int).push(b@[i as int]));
        }
        i += 1;
    }
    proof {
        assert(a@.take(a.len() as int) == a@);
        assert(b@.take(b.len() as int) == b@);
    }
    true
}

pub open spec fn starts_with(s: Seq<char>, p: Seq<char>) -> bool {
    p.len() <= s.len() && s.take(p.len() as int) == p
}

pub open spec fn ends_with(s: Seq<char>, p: Seq<char>) -> bool {
    p.len() <= s.len() && s.skip(s.len() - p.len()) == p
}

/// Whether `p` occurs in `s` at position `at`.
pub open spec fn occurs_at(s: Seq<char>, p: Seq<char>, at: int) -> bool {
    0 <= at && at + p.len() <= s.len() && s.subrange(at, at + p.len()) == p
}

pub fn matches_at(s: &Vec<char>, p: &Vec<char>, at: usize) -> (r: bool)
    ensures
        r == occurs_at(s@, p@, at as int),
{
    if at > s.len() || p.len() > s.len() - at {
        return false;
    }
    let mut i: usize = 0;
    while i < p.len()
        invariant
            at + p.len() <= s.len(),
            i <= p.len(),
            s@.subrange(at as int, at + i) == p@.take(i as int),
        decreases p.len() - i,
    {
        if s[at + i] != p[i] {
            assert(s@.subrange(at as int, at + p.len())[i as int] != p@[i as int]);
            return false;
        }
        proof {
            assert(s@.subrange(at as int, at + i + 1) == s@.subrange(at as int, at + i).push(
                s@[at + i],
            ));
            assert(p@.take(i + 1) == p@.take(i as int).push(p@[i as int]));
        }
        i += 1;
    }
    proof {
        assert(p@.take(p.len() as int) == p@);
    }
    true
}

pub fn has_prefix(s: &Vec<char>, p: &Vec<char>) -> (r: bool)
    ensures
        r == starts_with(s@, p@),
{
    let r = matches_at(s, p, 0);
    proof {
        if p@.len() <= s@.len() {
            assert(s@.subrange(0, p@.len() as int) == s@.take(p@.len() as int));
        }
    }
    r
}

pub fn has_suffix(s: &Vec<char>, p: &Vec<char>) -> (r: bool)
    ensures
        r == ends_with(s@, p@),
{
    if p.len() > s.len() {
        return false;
    }
    let r = matches_at(s, p, s.len() - p.len());
    proof {
        assert(s@.subrange(s@.len() - p@.len(), s@.len() as int) == s@.skip(
            s@.len() - p@.len(),
        ));
    }
    r
}

/// Index of the first occurrence of `c` in `s`, if any.
pub open spec fn first_index_of(s: Seq<char>, c: char) -> Option<int>
    decreases s.len(),
{
    if s.len() == 0 {
        None
    } else if s[0] == c {
        Some(0)
    } else {
        match first_index_of(s.drop_first(), c) {
            Some(i) => Some(i + 1),
            None => None,
        }
    }
}

pub proof fn lemma_first_index_of(s: Seq<char>, c: char)
    ensures
        first_index_of(s, c) is None <==> !s.contains(c),
        first_index_of(s, c) matches Some(i) ==> 0 <= i < s.len() && s[i] == c && !s.take(
            i,
        ).contains(c),
    decreases s.len(),
{
    if s.len() > 0 && s[0] != c {
        lemma_first_index_of(s.drop_first(), c);
        if s.contains(c) {
            let k = choose|k: int| 0 <= k < s.len() && s[k] == c;
            assert(s.drop_first()[k - 1] == c);
        }
        if let Some(i) = first_index_of(s.drop_first(), c) {
            assert forall|k: int| 0 <= k < i + 1 implies #[trigger] s.take(i + 1)[k] != c by {
                if k > 0 {
                    assert(s.take(i + 1)[k] == s.drop_first().take(i)[k - 1]);
                }
            }
        }
    } else if s.len() > 0 {
        assert(s[0] == c);
    }
}

pub fn find_char(s: &Vec<char>, c: char) -> (r: Option<usize>)
    ensures
        r matches Some(i) ==> first_index_of(s@, c) == Some(i as int),
        r is None ==> first_index_of(s@, c) is None,
{
    let mut i: usize = 0;
    assert(s@.skip(0) == s@);
    while i < s.len()
        invariant
            i <= s.len(),
            first_index_of(s@, c) == (match first_index_of(s@.skip(i as int), c) {
                Some(k) => Some(k + i),
                None => None,
            }),
        decreases s.len() - i,
    {
        proof {
            assert(s@.skip(i as int).drop_first() == s@.skip(i + 1));
        }
        if s[i] == c {
            return Some(i);
        }
        i += 1;
    }
    None
}

/// Index of the last occurrence of `c` in `s`, if any.
pub open spec fn last_index_of(s: Seq<char>, c: char) -> Option<int>
    decreases s.len(),
{
    if s.len() == 0 {
        None
    } else if s.last() == c {
        Some(s.len() - 1)
    } else {
        last_index_of(s.drop_last(), c)
    }
}

pub proof fn lemma_last_index_of(s: Seq<char>, c: char)
    ensures
        last_index_of(s, c) is None <==> !s.contains(c),
        last_index_of(s, c) matches Some(i) ==> 0 <= i < s.len() && s[i] == c && !s.skip(
            i + 1,
        ).contains(c),
    decreases s.len(),
{
    if s.len() > 0 && s.last() != c {
        lemma_last_index_of(s.drop_last(), c);
        if s.contains(c) {
            let k = choose|k: int| 0 <= k < s.len() && s[k] == c;
            assert(s.drop_last()[k] == c);
        }
        if let Some(i) = last_index_of(s.drop_last(), c) {
            assert forall|k: int| 0 <= k < s.len() - i - 1 implies #[trigger] s.skip(i + 1)[k] != c by {
                if k < s.len() - i - 2 {
                    assert(s.skip(i + 1)[k] == s.drop_last().skip(i + 1)[k]);
                }
            }
        }
    }
}

pub fn rfind_char(s: &Vec<char>, c: char) -> (r: Option<usize>)
    ensures
        r matches Some(i) ==> last_index_of(s@, c) == Some(i as int),
        r is None ==> last_index_of(s@, c) is None,
{
    let mut i: usize = s.len();
    assert(s@.take(s.len() as int) == s@);
    while i > 0
        invariant
            i <= s.len(),
            last_index_of(s@, c) == last_index_of(s@.take(i as int), c),
        decreases i,
    {
        proof {
            assert(s@.take(i as int).drop_last() == s@.take(i - 1));
        }
        if s[i - 1] == c {
            return Some(i - 1);
        }
        i -= 1;
    }
    None
}

/// Number of whitespace characters at the start of `s`.
pub open spec fn lead_ws(s: Seq<char>) -> nat
    decreases s.len(),
{
    if s.len() > 0 && is_ws(s[0]) {
        1 + lead_ws(s.drop_first())
    } else {
        0
    }
}

/// Number of whitespace characters at the end of `s`.
pub open spec fn trail_ws(s: Seq<char>) -> nat
    decreases s.len(),
{
    if s.len() > 0 && is_ws(s.last()) {
        1 + trail_ws(s.drop_last())
    } else {
        0
    }
}

pub proof fn lemma_lead_ws_bound(s: Seq<char>)
    ensures
        lead_ws(s) <= s.len(),
    decreases s.len(),
{
    if s.len() > 0 && is_ws(s[0]) {
        lemma_lead_ws_bound(s.drop_first());
    }
}

pub proof fn lemma_trail_ws_bound(s: Seq<char>)
    ensures
        trail_ws(s) <= s.len(),
    decreases s.len(),
{
    if s.len() > 0 && is_ws(s.last()) {
        lemma_trail_ws_bound(s.drop_last());
    }
}

/// `str::trim_start`.
pub open spec fn trim_start(s: Seq<char>) -> Seq<char> {
    s.skip(lead_ws(s) as int)
}

/// `str::trim_end`.
pub open spec fn trim_end(s: Seq<char>) -> Seq<char> {
    s.take(s.len() - trail_ws(s))
}

/// `str::trim`.
pub open spec fn trim(s: Seq<char>) -> Seq<char> {
    trim_end(trim_start(s))
}

pub fn trim_start_chars(s: &Vec<char>) -> (r: Vec<char>)
    ensures
        r@ == trim_start(s@),
{
    let mut i: usize = 0;
    assert(s@.skip(0) == s@);
    while i < s.len() && is_whitespace(s[i])
        invariant
            i <= s.len(),
            lead_ws(s@) == i + lead_ws(s@.skip(i as int)),
        decreases s.len() - i,
    {
        proof {
            assert(s@.skip(i as int).drop_first() == s@.skip(i + 1));
        }
        i += 1;
    }
    slice_chars(s, i, s.len())
}

pub fn trim_end_chars(s: &Vec<char>) -> (r: Vec<char>)
    ensures
        r@ == trim_end(s@),
{
    let mut j: usize = s.len();
    assert(s@.take(s.len() as int) == s@);
    while j > 0 && is_whitespace(s[j - 1])
        invariant
            j <= s.len(),
            trail_ws(s@) == (s.len() - j) + trail_ws(s@.take(j as int)),
        decreases j,
    {
        proof {
            assert(s@.take(j as int).drop_last() == s@.take(j - 1));
        }
        j -= 1;
    }
    proof {
        assert(s@.take(j as int) == s@.take(j as int).take(j as int));
    }
    slice_chars(s, 0, j)
}

pub fn trim_chars(s: &Vec<char>) -> (r: Vec<char>)
    ensures
        r@ == trim(s@),
{
    let a = trim_start_chars(s);
    trim_end_chars(&a)
}

/// Decimal digits of a natural number, most significant first.
pub open spec fn decimal(n: nat) -> Seq<char>
    decreases n,
{
    if n < 10 {
        seq![digit_char(n)]
    } else {
        decimal(n / 10).push(digit_char(n % 10))
    }
}

pub open spec fn digit_char(d: nat) -> char {
    if d == 0 {
        '0'
    } else if d == 1 {
        '1'
    } else if d == 2 {
        '2'
    } else if d == 3 {
        '3'
    } else if d == 4 {
        '4'
    } else if d == 5 {
        '5'
    } else if d == 6 {
        '6'
    } else if d == 7 {
        '7'
    } else if d == 8 {
        '8'
    } else {
        '9'
    }
}

pub fn digit_of(d: usize) -> (c: char)
    requires
        d < 10,
    ensures
        c == digit_char(d as nat),
{
    if d == 0 {
        '0'
    } else if d == 1 {
        '1'
    } else if d == 2 {
        '2'
    } else if d == 3 {
        '3'
    } else if d == 4 {
        '4'
    } else if d == 5 {
        '5'
    } else if d == 6 {
        '6'
    } else if d == 7 {
        '7'
    } else if d == 8 {
        '8'
    } else {
        '9'
    }
}

/// The decimal rendering of `n` (as `format!("{n}")` prints it).
pub fn decimal_chars(n: usize) -> (r: Vec<char>)
    ensures
        r@ == decimal(n as nat),
    decreases n,
{
    if n < 10 {
        let mut v: Vec<char> = Vec::new();
        v.push(digit_of(n));
        proof {
            assert(v@ =~= seq![digit_char(n as nat)]);
        }
        v
    } else {
        let mut v = decimal_chars(n / 10);
        v.push(digit_of(n % 10));
        v
    }
}

/// Lines of a text as `str::lines` yields them: split at `'\n'`, a final empty
/// piece after a trailing newline dropped, and one trailing `'\r'` removed from each line.
pub open spec fn lines(s: Seq<char>) -> Seq<Seq<char>>
    decreases s.len(),
{
    if s.len() == 0 {
        seq![]
    } else {
        match first_index_of(s, '\n') {
            None => seq![strip_cr(s)],
            Some(i) => {
                proof {
                    lemma_first_index_of(s, '\n');
                }
                seq![strip_cr(s.take(i))] + lines(s.skip(i + 1))
            },
        }
    }
}

pub open spec fn strip_cr(l: Seq<char>) -> Seq<char> {
    if l.len() > 0 && l.last() == '\r' {
        l.drop_last()
    } else {
        l
    }
}

fn strip_cr_chars(l: Vec<char>) -> (r: Vec<char>)
    ensures
        r@ == strip_cr(l@),
{
    let mut l = l;
    if l.len() > 0 && l[l.len() - 1] == '\r' {
        l.pop();
    }
    l
}

pub fn split_lines(s: &Vec<char>) -> (r: Vec<Vec<char>>)
    ensures
        r@.len() == lines(s@).len(),
        forall|k: int| 0 <= k < r@.len() ==> #[trigger] r@[k]@ == lines(s@)[k],
{
    let mut out: Vec<Vec<char>> = Vec::new();
    let mut start: usize = 0;
    let ghost mut acc: Seq<Seq<char>> = seq![];
    assert(s@.skip(0) == s@);
    assert(acc + lines(s@) =~= lines(s@));
    while start < s.len()
        invariant
            start <= s.len(),
            lines(s@) == acc + lines(s@.skip(start as int)),
            out@.len() == acc.len(),
            forall|k: int| 0 <= k < out@.len() ==> #[trigger] out@[k]@ == acc[k],
        decreases s.len() - start,
    {
        let rest = slice_chars(s, start, s.len());
        assert(rest@ == s@.skip(start as int));
        match find_char(&rest, '\n') {
            None => {
                let line = strip_cr_chars(rest);
                proof {
                    acc = acc.push(line@);
                    assert(lines(s@.skip(s.len() as int)) =~= seq![]);
                    assert(lines(s@) =~= acc + lines(s@.skip(s.len() as int)));
                }
                out.push(line);
                start = s.len();
            },
            Some(i) => {
                proof {
                    lemma_first_index_of(rest@, '\n');
                }
                let line = strip_cr_chars(slice_chars(&rest, 0, i));
                proof {
                    assert(rest@.subrange(0, i as int) == rest@.take(i as int));
                    assert(rest@.skip(i + 1) == s@.skip(start + i + 1));
                    assert(lines(s@) =~= acc.push(line@) + lines(s@.skip(start + i + 1)));
                    acc = acc.push(line@);
                }
                out.push(line);
                start = start + i + 1;
            },
        }
    }
    proof {
        assert(lines(s@.skip(start as int)) =~= seq![]);
        assert(acc + seq![] =~= acc);
    }
    out
}


/// Pieces joined with a separator character.
pub open spec fn join_with(parts: Seq<Seq<char>>, sep: char) -> Seq<char>
    decreases parts.len(),
{
    if parts.len() == 0 {
        seq![]
    } else if parts.len() == 1 {
        parts[0]
    } else {
        join_with(parts.drop_last(), sep) + seq![sep] + parts.last()
    }
}

/// Joins pieces with a separator character.
pub fn join_chars(parts: &Vec<Vec<char>>, sep: char) -> (r: Vec<char>)
    ensures
        r@ == join_with(crate::order::views(parts@), sep),
{
    let mut r: Vec<char> = Vec::new();
    let mut k: usize = 0;
    while k < parts.len()
        invariant
            k <= parts.len(),
            r@ == join_with(crate::order::views(parts@).take(k as int), sep),
        decreases parts.len() - k,
    {
        let ghost before = r@;
        if k > 0 {
            r.push(sep);
        }
        extend(&mut r, &parts[k]);
        proof {
            let v = crate::order::views(parts@);
            assert(v.take(k + 1).drop_last() =~= v.take(k as int));
            if k == 0 {
                assert(before =~= Seq::<char>::empty());
                assert(r@ =~= v.take(1)[0]);
            } else {
                assert(r@ =~= before + seq![sep] + v[k as int]);
            }
        }
        k += 1;
    }
    proof {
        assert(crate::order::views(parts@).take(parts.len() as int) =~= crate::order::views(parts@));
    }
    r
}


/// Pieces joined with a separator between each two (`[String]::join`).
pub open spec fn join_by(parts: Seq<Seq<char>>, sep: Seq<char>) -> Seq<char>
    decreases parts.len(),
{
    if parts.len() == 0 {
        seq![]
    } else if parts.len() == 1 {
        parts[0]
    } else {
        join_by(parts.drop_last(), sep) + sep + parts.last()
    }
}

/// Joins strings with a separator between each two.
pub fn join_strings(parts: &Vec<String>, sep: &str) -> (r: String)
    ensures
        r@ == join_by(string_views(parts@), sep@),
{
    let mut r = String::new();
    let mut k: usize = 0;
    while k < parts.len()
        invariant
            k <= parts.len(),
            r@ == join_by(string_views(parts@).take(k as int), sep@),
        decreases parts.len() - k,
    {
        let ghost before = r@;
        if k > 0 {
            r.append(sep);
        }
        r.append(parts[k].as_str());
        proof {
            let v = string_views(parts@);
            assert(v.take(k + 1).drop_last() =~= v.take(k as int));
            if k == 0 {
                assert(before =~= Seq::<char>::empty());
                assert(r@ =~= v.take(1)[0]);
            } else {
                assert(r@ =~= before + sep@ + v[k as int]);
            }
        }
        k += 1;
    }
    proof {
        assert(string_views(parts@).take(parts.len() as int) =~= string_views(parts@));
    }
    r
}

/// The decimal rendering of `n` as a `String`.
pub fn decimal_string(n: usize) -> (r: String)
    ensures
        r@ == decimal(n as nat),
{
    string_of(&decimal_chars(n))
}

/// The decimal rendering of a signed integer (as `format!("{n}")` prints it).
pub open spec fn signed_decimal(n: int) -> Seq<char> {
    if n < 0 {
        seq!['-'] + decimal((-n) as nat)
    } else {
        decimal(n as nat)
    }
}

fn decimal_chars_u64(n: u64) -> (r: Vec<char>)
    ensures
        r@ == decimal(n as nat),
    decreases n,
{
    if n < 10 {
        let mut v: Vec<char> = Vec::new();
        v.push(digit_of(n as usize));
        proof {
            assert(v@ =~= seq![digit_char(n as nat)]);
        }
        v
    } else {
        let mut v = decimal_chars_u64(n / 10);
        v.push(digit_of((n % 10) as usize));
        v
    }
}

/// The decimal rendering of a signed integer as a `String`.
pub fn signed_decimal_string(n: i64) -> (r: String)
    ensures
        r@ == signed_decimal(n as int),
{
    if n < 0 {
        let m: u64 = if n == i64::MIN {
            9223372036854775808u64
        } else {
            (-n) as u64
        };
        let mut v: Vec<char> = Vec::new();
        v.push('-');
        let d = decimal_chars_u64(m);
        extend(&mut v, &d);
        string_of(&v)
    } else {
        string_of(&decimal_chars_u64(n as u64))
    }
}

/// Number of copies of `c` at the start of `s`.
pub open spec fn lead_count(s: Seq<char>, c: char) -> nat
    decreases s.len(),
{
    if s.len() > 0 && s[0] == c {
        1 + lead_count(s.drop_first(), c)
    } else {
        0
    }
}

/// `s` without the copies of `c` at its start (`str::trim_start_matches` with a character).
pub open spec fn trim_start_char(s: Seq<char>, c: char) -> Seq<char> {
    s.skip(lead_count(s, c) as int)
}

proof fn lemma_lead_count_bound(s: Seq<char>, c: char)
    ensures
        lead_count(s, c) <= s.len(),
    decreases s.len(),
{
    if s.len() > 0 && s[0] == c {
        lemma_lead_count_bound(s.drop_first(), c);
    }
}

/// Removes every copy of `c` from the start of `s`.
pub fn trim_start_char_chars(s: &Vec<char>, c: char) -> (r: Vec<char>)
    ensures
        r@ == trim_start_char(s@, c),
{
    let mut i: usize = 0;
    assert(s@.skip(0) == s@);
    while i < s.len() && s[i] == c
        invariant
            i <= s.len(),
            lead_count(s@, c) == i + lead_count(s@.skip(i as int), c),
        decreases s.len() - i,
    {
        proof {
            assert(s@.skip(i as int).drop_first() == s@.skip(i + 1));
        }
        i += 1;
    }
    slice_chars(s, i, s.len())
}


/// Number of copies of `c` at the end of `s`.
pub open spec fn trail_count(s: Seq<char>, c: char) -> nat
    decreases s.len(),
{
    if s.len() > 0 && s.last() == c {
        1 + trail_count(s.drop_last(), c)
    } else {
        0
    }
}

/// `s` without the copies of `c` at either end (`str::trim_matches` with a character).
pub open spec fn trim_char(s: Seq<char>, c: char) -> Seq<char> {
    let t = trim_start_char(s, c);
    t.take(t.len() - trail_count(t, c))
}

proof fn lemma_trail_count_bound(s: Seq<char>, c: char)
    ensures
        trail_count(s, c) <= s.len(),
    decreases s.len(),
{
    if s.len() > 0 && s.last() == c {
        lemma_trail_count_bound(s.drop_last(), c);
    }
}

/// Removes every copy of `c` from both ends of `s`.
pub fn trim_char_chars(s: &Vec<char>, c: char) -> (r: Vec<char>)
    ensures
        r@ == trim_char(s@, c),
{
    let t = trim_start_char_chars(s, c);
    let mut j: usize = t.len();
    assert(t@.take(t.len() as int) == t@);
    while j > 0 && t[j - 1] == c
        invariant
            j <= t.len(),
            trail_count(t@, c) == (t.len() - j) + trail_count(t@.take(j as int), c),
        decreases j,
    {
        proof {
            assert(t@.take(j as int).drop_last() == t@.take(j - 1));
        }
        j -= 1;
    }
    slice_chars(&t, 0, j)
}

/// The pieces of `s` between copies of `c`, `cur` being the piece read so far.
pub open spec fn split_from(s: Seq<char>, c: char, cur: Seq<char>) -> Seq<Seq<char>>
    decreases s.len(),
{
    if s.len() == 0 {
        seq![cur]
    } else if s[0] == c {
        seq![cur] + split_from(s.drop_first(), c, seq![])
    } else {
        split_from(s.drop_first(), c, cur.push(s[0]))
    }
}

/// The pieces of `s` between copies of `c` (`str::split` with a character).
pub open spec fn split_char(s: Seq<char>, c: char) -> Seq<Seq<char>> {
    split_from(s, c, seq![])
}

/// Splits `s` at every copy of `c`.
pub fn split_chars(s: &Vec<char>, c: char) -> (r: Vec<Vec<char>>)
    ensures
        crate::order::views(r@) == split_char(s@, c),
{
    let mut out: Vec<Vec<char>> = Vec::new();
    let mut cur: Vec<char> = Vec::new();
    let mut i: usize = 0;
    assert(s@.skip(0) == s@);
    assert(crate::order::views(out@) + split_from(s@, c, cur@) =~= split_char(s@, c));
    while i < s.len()
        invariant
            i <= s.len(),
            split_char(s@, c) == crate::order::views(out@) + split_from(s@.skip(i as int), c, cur@),
        decreases s.len() - i,
    {
        proof {
            assert(s@.skip(i as int).drop_first() == s@.skip(i + 1));
        }
        if s[i] == c {
            let ghost before = crate::order::views(out@);
            let ghost piece = cur@;
            out.push(cur);
            cur = Vec::new();
            proof {
                assert(crate::order::views(out@) =~= before.push(piece));
                assert(seq![piece] + split_from(s@.skip(i + 1), c, seq![]) == split_from(s@.skip(i as int), c, piece));
                assert(before + split_from(s@.skip(i as int), c, piece) =~= crate::order::views(out@)
                    + split_from(s@.skip(i + 1), c, cur@));
            }
        } else {
            cur.push(s[i]);
        }
        i += 1;
    }
    let ghost before = crate::order::views(out@);
    let ghost piece = cur@;
    out.push(cur);
    proof {
        assert(s@.skip(i as int) =~= Seq::<char>::empty());
        assert(crate::order::views(out@) =~= before + seq![piece]);
    }
    out
}

/// Number of bytes the UTF-8 encoding of `c` takes.
pub open spec fn utf8_width(c: char) -> nat {
    if (c as u32) < 0x80 {
        1
    } else if (c as u32) < 0x800 {
        2
    } else if (c as u32) < 0x10000 {
        3
    } else {
        4
    }
}

/// Number of bytes the UTF-8 encoding of `s` takes (`str::len`).
pub open spec fn utf8_len(s: Seq<char>) -> nat
    decreases s.len(),
{
    if s.len() == 0 {
        0
    } else {
        utf8_width(s[0]) + utf8_len(s.drop_first())
    }
}

/// The number of characters that take exactly the first `b` bytes of `s`; none when
/// byte `b` falls inside a character or past the end.
pub open spec fn char_index_at_byte(s: Seq<char>, b: nat) -> Option<nat>
    decreases s.len(),
{
    if b == 0 {
        Some(0)
    } else if s.len() == 0 {
        None
    } else if utf8_width(s[0]) > b {
        None
    } else {
        match char_index_at_byte(s.drop_first(), (b - utf8_width(s[0])) as nat) {
            Some(k) => Some(k + 1),
            None => None,
        }
    }
}

pub proof fn lemma_char_index_bound(s: Seq<char>, b: nat)
    ensures
        char_index_at_byte(s, b) matches Some(k) ==> k <= s.len() && k <= b,
    decreases s.len(),
{
    if b > 0 && s.len() > 0 && utf8_width(s[0]) <= b {
        lemma_char_index_bound(s.drop_first(), (b - utf8_width(s[0])) as nat);
    }
}

pub fn utf8_width_of(c: char) -> (r: usize)
    ensures
        r == utf8_width(c),
{
    if (c as u32) < 0x80 {
        1
    } else if (c as u32) < 0x800 {
        2
    } else if (c as u32) < 0x10000 {
        3
    } else {
        4
    }
}

/// Whether the UTF-8 encoding of `s` takes at least `n` bytes.
pub fn utf8_len_at_least(s: &Vec<char>, n: usize) -> (r: bool)
    requires
        n <= usize::MAX - 4,
    ensures
        r == (utf8_len(s@) >= n),
{
    let mut total: usize = 0;
    let mut i: usize = 0;
    assert(s@.skip(0) == s@);
    while i < s.len() && total < n
        invariant
            i <= s.len(),
            total < n || i == 0 || total >= n,
            total + utf8_len(s@.skip(i as int)) == utf8_len(s@),
            total <= n + 4,
            n <= usize::MAX - 4,
        decreases s.len() - i,
    {
        proof {
            assert(s@.skip(i as int).drop_first() == s@.skip(i + 1));
            assert(s@.skip(i as int)[0] == s@[i as int]);
        }
        total = total + utf8_width_of(s[i]);
        i += 1;
    }
    if total >= n {
        true
    } else {
        assert(s@.skip(i as int) =~= Seq::<char>::empty());
        false
    }
}

/// `o` moved `by` places on.
pub open spec fn shift_index(o: Option<nat>, by: nat) -> Option<nat> {
    match o {
        Some(k) => Some(k + by),
        None => None,
    }
}

/// The number of characters that take exactly the first `b` bytes of `s`.
pub fn char_index_of_byte(s: &Vec<char>, b: usize) -> (r: Option<usize>)
    ensures
        match char_index_at_byte(s@, b as nat) {
            Some(k) => r == Some(k as usize),
            None => r is None,
        },
{
    let mut rem: usize = b;
    let mut i: usize = 0;
    assert(s@.skip(0) == s@);
    while rem > 0
        invariant
            i <= s.len(),
            i + rem <= b,
            char_index_at_byte(s@, b as nat) == shift_index(char_index_at_byte(s@.skip(i as int), rem as nat), i as nat),
        decreases rem,
    {
        if i >= s.len() {
            return None;
        }
        let w = utf8_width_of(s[i]);
        proof {
            assert(s@.skip(i as int).drop_first() == s@.skip(i + 1));
            assert(s@.skip(i as int)[0] == s@[i as int]);
        }
        if w > rem {
            return None;
        }
        rem = rem - w;
        i += 1;
    }
    Some(i)
}


/// Appending a character adds its width to the encoded length.
pub proof fn lemma_utf8_len_push(x: Seq<char>, c: char)
    ensures
        utf8_len(x.push(c)) == utf8_len(x) + utf8_width(c),
    decreases x.len(),
{
    let y = x.push(c);
    assert(y.len() > 0);
    assert(utf8_len(y) == utf8_width(y[0]) + utf8_len(y.drop_first()));
    if x.len() > 0 {
        assert(y.drop_first() =~= x.drop_first().push(c));
        assert(y[0] == x[0]);
        lemma_utf8_len_push(x.drop_first(), c);
    } else {
        assert(y.drop_first() =~= Seq::<char>::empty());
        assert(y[0] == c);
        assert(utf8_len(Seq::<char>::empty()) == 0);
        assert(x =~= Seq::<char>::empty());
    }
}

/// The encoded length of the first `k` characters is where character `k` starts.
pub proof fn lemma_char_index_of_prefix(s: Seq<char>, k: nat)
    requires
        k <= s.len(),
    ensures
        char_index_at_byte(s, utf8_len(s.take(k as int))) == Some(k),
    decreases s.len(),
{
    if k > 0 {
        let x = s.take(k as int);
        assert(x.drop_first() =~= s.drop_first().take(k - 1));
        assert(x[0] == s[0]);
        lemma_char_index_of_prefix(s.drop_first(), (k - 1) as nat);
    } else {
        assert(s.take(0) =~= Seq::<char>::empty());
    }
}

/// A byte offset that starts a character is the encoded length of the characters before it.
pub proof fn lemma_prefix_of_char_index(s: Seq<char>, b: nat)
    ensures
        char_index_at_byte(s, b) matches Some(k) ==> k <= s.len() && utf8_len(s.take(k as int)) == b,
    decreases s.len(),
{
    if b == 0 {
        assert(s.take(0) =~= Seq::<char>::empty());
    } else if s.len() > 0 && utf8_width(s[0]) <= b {
        let r = (b - utf8_width(s[0])) as nat;
        lemma_prefix_of_char_index(s.drop_first(), r);
        if let Some(k) = char_index_at_byte(s, b) {
            let x = s.take(k as int);
            assert(k >= 1);
            assert(x.drop_first() =~= s.drop_first().take(k - 1));
            assert(x[0] == s[0]);
        }
    }
}

/// The characters spanning bytes `start..end` of the UTF-8 encoding of `s` (`str::from_utf8`
/// of that byte slice): the empty text for an empty range within the encoding; none when
/// the range is reversed, ends past the encoding, or cuts a character.
pub open spec fn byte_span(s: Seq<char>, start: nat, end: nat) -> Option<Seq<char>> {
    if start == end && start <= utf8_len(s) {
        Some(seq![])
    } else {
        match char_index_at_byte(s, start) {
            Some(a) => match char_index_at_byte(s, end) {
                Some(b) => if a <= b {
                    Some(s.subrange(a as int, b as int))
                } else {
                    None
                },
                None => None,
            },
            None => None,
        }
    }
}

/// Where each character of a text starts in its UTF-8 encoding: entry `k` is the length in
/// bytes of the first `k` characters, the last entry the length of the whole. None when
/// that length does not fit a `usize`.
pub fn char_starts(s: &Vec<char>) -> (r: Option<Vec<usize>>)
    ensures
        r is None <==> utf8_len(s@) > usize::MAX,
        r matches Some(offs) ==> offs@.len() == s@.len() + 1
            && forall|k: int| 0 <= k <= s@.len() ==> #[trigger] offs@[k] == utf8_len(s@.take(k)),
{
    let mut offs: Vec<usize> = Vec::new();
    let mut total: usize = 0;
    offs.push(0);
    assert(s@.take(0) =~= Seq::<char>::empty());
    let mut i: usize = 0;
    while i < s.len()
        invariant
            i <= s.len(),
            offs@.len() == i + 1,
            total == utf8_len(s@.take(i as int)),
            forall|k: int| 0 <= k <= i ==> #[trigger] offs@[k] == utf8_len(s@.take(k)),
        decreases s.len() - i,
    {
        let w = utf8_width_of(s[i]);
        proof {
            assert(s@.take(i + 1) =~= s@.take(i as int).push(s@[i as int]));
            lemma_utf8_len_push(s@.take(i as int), s@[i as int]);
            if i + 1 < s@.len() {
                lemma_utf8_len_grows(s@, i + 1, s@.len() as int);
            }
            assert(s@.take(s@.len() as int) =~= s@);
        }
        if total > usize::MAX - w {
            return None;
        }
        total = total + w;
        offs.push(total);
        i += 1;
    }
    assert(s@.take(s@.len() as int) =~= s@);
    Some(offs)
}

/// The character starting at byte `b`, found in the start offsets of a text.
fn char_at_offset(offs: &Vec<usize>, b: usize, Ghost(s): Ghost<Seq<char>>) -> (r: Option<usize>)
    requires
        offs@.len() == s.len() + 1,
        forall|k: int| 0 <= k <= s.len() ==> #[trigger] offs@[k] == utf8_len(s.take(k)),
    ensures
        match char_index_at_byte(s, b as nat) {
            Some(k) => r == Some(k as usize),
            None => r is None,
        },
{
    proof {
        lemma_prefix_of_char_index(s, b as nat);
    }
    let mut lo: usize = 0;
    let mut hi: usize = offs.len();
    proof {
        assert forall|i: int, j: int| 0 <= i < j <= s.len() implies #[trigger] offs@[i] < #[trigger] offs@[j] by {
            lemma_utf8_len_grows(s, i, j);
        }
    }
    while lo < hi
        invariant
            offs@.len() == s.len() + 1,
            forall|k: int| 0 <= k <= s.len() ==> #[trigger] offs@[k] == utf8_len(s.take(k)),
            forall|i: int, j: int| 0 <= i < j <= s.len() ==> #[trigger] offs@[i] < #[trigger] offs@[j],
            lo <= hi <= offs@.len(),
            forall|k: int| 0 <= k < lo ==> #[trigger] offs@[k] < b,
            forall|k: int| hi <= k < offs@.len() ==> #[trigger] offs@[k] > b,
        decreases hi - lo,
    {
        let mid = lo + (hi - lo) / 2;
        if offs[mid] == b {
            proof {
                lemma_char_index_of_prefix(s, mid as nat);
            }
            return Some(mid);
        } else if offs[mid] < b {
            lo = mid + 1;
        } else {
            hi = mid;
        }
    }
    proof {
        if let Some(k) = char_index_at_byte(s, b as nat) {
            assert(offs@[k as int] == b);
        }
    }
    None
}

proof fn lemma_utf8_len_grows(s: Seq<char>, i: int, j: int)
    requires
        0 <= i < j <= s.len(),
    ensures
        utf8_len(s.take(i)) < utf8_len(s.take(j)),
    decreases j - i,
{
    assert(s.take(j) =~= s.take(j - 1).push(s[j - 1]));
    lemma_utf8_len_push(s.take(j - 1), s[j - 1]);
    if i < j - 1 {
        lemma_utf8_len_grows(s, i, j - 1);
    }
}

/// The characters spanning bytes `start..end` of the UTF-8 encoding of `s`, given where
/// its characters start.
pub fn byte_span_chars(s: &Vec<char>, offs: &Vec<usize>, start: usize, end: usize) -> (r: Option<Vec<char>>)
    requires
        offs@.len() == s@.len() + 1,
        forall|k: int| 0 <= k <= s@.len() ==> #[trigger] offs@[k] == utf8_len(s@.take(k)),
    ensures
        match byte_span(s@, start as nat, end as nat) {
            Some(x) => r is Some && r->0@ == x,
            None => r is None,
        },
{
    assert(s@.take(s@.len() as int) =~= s@);
    let total = offs[s.len()];
    if start == end && start <= total {
        let e: Vec<char> = Vec::new();
        assert(e@ =~= Seq::<char>::empty());
        return Some(e);
    }
    match char_at_offset(offs, start, Ghost(s@)) {
        Some(a) => match char_at_offset(offs, end, Ghost(s@)) {
            Some(b) => {
                proof {
                    lemma_char_index_bound(s@, start as nat);
                    lemma_char_index_bound(s@, end as nat);
                }
                if a <= b {
                    Some(slice_chars(s, a, b))
                } else {
                    None
                }
            },
            None => None,
        },
        None => None,
    }
}

/// `p` occurs somewhere in `s` (`str::contains` with a string).
pub open spec fn contains_seq(s: Seq<char>, p: Seq<char>) -> bool {
    exists|i: int| #[trigger] occurs_at(s, p, i)
}

/// Whether `p` occurs somewhere in `s`.
pub fn contains_text(s: &Vec<char>, p: &Vec<char>) -> (r: bool)
    ensures
        r == contains_seq(s@, p@),
{
    let mut i: usize = 0;
    while i <= s.len()
        invariant
            i <= s.len() + 1,
            forall|j: int| 0 <= j < i ==> !#[trigger] occurs_at(s@, p@, j),
        decreases s.len() + 1 - i,
    {
        if matches_at(s, p, i) {
            return true;
        }
        if i == s.len() {
            assert(forall|j: int| j > s.len() ==> !#[trigger] occurs_at(s@, p@, j));
            return false;
        }
        i += 1;
    }
    assert(forall|j: int| j >= i ==> !#[trigger] occurs_at(s@, p@, j));
    false
}

} // verus!
