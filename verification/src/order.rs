//! Lexicographic order on character sequences (the order of `str`'s `Ord`, which
//! compares UTF-8 bytes and therefore code points).
use vstd::prelude::*;

verus! {

/// `a` sorts strictly before `b`.
pub open spec fn lex_lt(a: Seq<char>, b: Seq<char>) -> bool
    decreases a.len(),
{
    if a.len() == 0 {
        b.len() > 0
    } else if b.len() == 0 {
        false
    } else if (a[0] as u32) < (b[0] as u32) {
        true
    } else if (a[0] as u32) > (b[0] as u32) {
        false
    } else {
        lex_lt(a.drop_first(), b.drop_first())
    }
}

pub proof fn lemma_lex_irreflexive(a: Seq<char>)
    ensures
        !lex_lt(a, a),
    decreases a.len(),
{
    if a.len() > 0 {
        lemma_lex_irreflexive(a.drop_first());
    }
}

pub proof fn lemma_char_u32_injective(x: char, y: char)
    ensures
        (x as u32) == (y as u32) ==> x == y,
{
}

pub proof fn lemma_lex_total(a: Seq<char>, b: Seq<char>)
    ensures
        a != b ==> lex_lt(a, b) || lex_lt(b, a),
        !(lex_lt(a, b) && lex_lt(b, a)),
    decreases a.len(),
{
    if a.len() > 0 && b.len() > 0 {
        lemma_lex_total(a.drop_first(), b.drop_first());
        lemma_char_u32_injective(a[0], b[0]);
        if a[0] == b[0] && a.drop_first() == b.drop_first() {
            assert(a =~= seq![a[0]] + a.drop_first());
            assert(b =~= seq![b[0]] + b.drop_first());
        }
    } else if a.len() == 0 && b.len() == 0 {
        assert(a =~= b);
    }
}

pub proof fn lemma_lex_transitive(a: Seq<char>, b: Seq<char>, c: Seq<char>)
    requires
        lex_lt(a, b),
        lex_lt(b, c),
    ensures
        lex_lt(a, c),
    decreases a.len(),
{
    if a.len() > 0 && b.len() > 0 && c.len() > 0 {
        if (a[0] as u32) == (b[0] as u32) && (b[0] as u32) == (c[0] as u32) {
            lemma_lex_transitive(a.drop_first(), b.drop_first(), c.drop_first());
        }
    }
}

/// Decides `lex_lt(a@, b@)`.
pub fn lex_less(a: &Vec<char>, b: &Vec<char>) -> (r: bool)
    ensures
        r == lex_lt(a@, b@),
{
    let mut i: usize = 0;
    assert(a@.skip(0) == a@ && b@.skip(0) == b@);
    while i < a.len() && i < b.len()
        invariant
            i <= a.len(),
            i <= b.len(),
            lex_lt(a@, b@) == lex_lt(a@.skip(i as int), b@.skip(i as int)),
        decreases a.len() - i,
    {
        let x = a[i] as u32;
        let y = b[i] as u32;
        if x < y {
            return true;
        }
        if x > y {
            return false;
        }
        proof {
            assert(a@.skip(i as int).drop_first() == a@.skip(i + 1));
            assert(b@.skip(i as int).drop_first() == b@.skip(i + 1));
        }
        i += 1;
    }
    i < b.len()
}

/// Every element sorts strictly before every later one.
pub open spec fn strictly_sorted(s: Seq<Seq<char>>) -> bool {
    forall|i: int, j: int| 0 <= i < j < s.len() ==> lex_lt(#[trigger] s[i], #[trigger] s[j])
}

/// A strictly sorted list (such as the mentions of a text) holds no entry twice.
pub proof fn law_sorted_without_repeats(s: Seq<Seq<char>>, i: int, j: int)
    requires
        strictly_sorted(s),
        0 <= i < s.len(),
        0 <= j < s.len(),
        i != j,
    ensures
        s[i] != s[j],
{
    if i < j {
        assert(lex_lt(s[i], s[j]));
    } else {
        assert(lex_lt(s[j], s[i]));
    }
    lemma_lex_irreflexive(s[i]);
}

/// The character sequences held by a list of character vectors.
pub open spec fn views(s: Seq<Vec<char>>) -> Seq<Seq<char>> {
    s.map_values(|v: Vec<char>| v@)
}

/// Inserts `w` into a strictly sorted list, unless it is already there.
pub fn insert_sorted(list: &mut Vec<Vec<char>>, w: Vec<char>)
    requires
        strictly_sorted(views(old(list)@)),
    ensures
        strictly_sorted(views(final(list)@)),
        forall|x: Seq<char>|
            #[trigger] views(final(list)@).contains(x) <==> (views(old(list)@).contains(x) || x
                == w@),
{
    let ghost old_view = views(list@);
    let mut i: usize = 0;
    while i < list.len() && lex_less(&list[i], &w)
        invariant
            i <= list.len(),
            list@ == old(list)@,
            old_view == views(list@),
            strictly_sorted(old_view),
            forall|k: int| 0 <= k < i ==> lex_lt(#[trigger] old_view[k], w@),
        decreases list.len() - i,
    {
        i += 1;
    }
    if i < list.len() && crate::text::eq_chars(&list[i], &w) {
        assert(old_view[i as int] == w@);
        return;
    }
    proof {
        if i < list.len() {
            lemma_lex_total(old_view[i as int], w@);
            assert(lex_lt(w@, old_view[i as int]));
        }
    }
    list.insert(i, w);
    proof {
        let nv = views(list@);
        assert(nv =~= old_view.insert(i as int, w@));
        assert forall|a: int, b: int| 0 <= a < b < nv.len() implies lex_lt(
            #[trigger] nv[a],
            #[trigger] nv[b],
        ) by {
            if a < i && b == i {
            } else if a < i && b > i {
                assert(nv[b] == old_view[b - 1]);
            } else if a == i && b > i {
                assert(nv[b] == old_view[b - 1]);
                if b - 1 > i {
                    lemma_lex_transitive(w@, old_view[i as int], old_view[b - 1]);
                }
            } else if a > i {
                assert(nv[a] == old_view[a - 1]);
                assert(nv[b] == old_view[b - 1]);
            }
        }
        assert forall|x: Seq<char>| nv.contains(x) <==> (old_view.contains(x) || x == w@) by {
            if nv.contains(x) {
                let k = choose|k: int| 0 <= k < nv.len() && nv[k] == x;
                if k < i {
                    assert(old_view[k] == x);
                } else if k > i {
                    assert(old_view[k - 1] == x);
                }
            }
            if old_view.contains(x) {
                let k = choose|k: int| 0 <= k < old_view.len() && old_view[k] == x;
                if k < i {
                    assert(nv[k] == x);
                } else {
                    assert(nv[k + 1] == x);
                }
            }
            if x == w@ {
                assert(nv[i as int] == x);
            }
        }
    }
}

} // verus!
