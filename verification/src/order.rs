//! Text order and sorting of paths.
//!
//! Texts are ordered lexicographically by code point, which is the byte
//! order of their UTF-8 encodings. For paths that are file names in one
//! directory this is also the order of `Path` values.

use vstd::prelude::*;
use crate::text::{chars_of, same_chars, string_from_chars};

verus! {

/// Strict lexicographic order of texts by code point; a proper prefix comes
/// first.
pub open spec fn lex_lt(a: Seq<char>, b: Seq<char>) -> bool
    decreases a.len(),
{
    if a.len() == 0 {
        b.len() > 0
    } else if b.len() == 0 {
        false
    } else if a[0] != b[0] {
        (a[0] as u32) < (b[0] as u32)
    } else {
        lex_lt(a.drop_first(), b.drop_first())
    }
}

/// No text comes before itself.
pub proof fn lemma_lex_irreflexive(a: Seq<char>)
    ensures
        !lex_lt(a, a),
    decreases a.len(),
{
    if a.len() > 0 {
        lemma_lex_irreflexive(a.drop_first());
    }
}

/// The order is transitive.
pub proof fn lemma_lex_transitive(a: Seq<char>, b: Seq<char>, c: Seq<char>)
    requires
        lex_lt(a, b),
        lex_lt(b, c),
    ensures
        lex_lt(a, c),
    decreases a.len(),
{
    if a.len() > 0 && b.len() > 0 && c.len() > 0 && a[0] == b[0] && b[0] == c[0] {
        lemma_lex_transitive(a.drop_first(), b.drop_first(), c.drop_first());
    }
}

/// Of two different texts, one comes before the other.
pub proof fn lemma_lex_total(a: Seq<char>, b: Seq<char>)
    ensures
        a == b || lex_lt(a, b) || lex_lt(b, a),
    decreases a.len(),
{
    if a.len() > 0 && b.len() > 0 && a[0] == b[0] {
        lemma_lex_total(a.drop_first(), b.drop_first());
        if a.drop_first() == b.drop_first() {
            assert(a =~= seq![a[0]] + a.drop_first());
            assert(b =~= seq![b[0]] + b.drop_first());
        }
    } else if a.len() > 0 && b.len() > 0 {
        vstd::utf8::char_u32_cast(a[0], a[0] as u32);
        vstd::utf8::char_u32_cast(b[0], b[0] as u32);
    } else if a.len() == 0 && b.len() == 0 {
        assert(a =~= b);
    }
}

/// The order is asymmetric.
pub proof fn lemma_lex_asymmetric(a: Seq<char>, b: Seq<char>)
    requires
        lex_lt(a, b),
    ensures
        !lex_lt(b, a),
{
    if lex_lt(b, a) {
        lemma_lex_transitive(a, b, a);
        lemma_lex_irreflexive(a);
    }
}

/// Whether `a` comes strictly before `b`.
pub fn text_less(a: &Vec<char>, b: &Vec<char>) -> (r: bool)
    ensures
        r == lex_lt(a@, b@),
{
    let mut i: usize = 0;
    assert(a@.skip(0) =~= a@);
    assert(b@.skip(0) =~= b@);
    while i < a.len() && i < b.len()
        invariant
            i <= a.len(),
            i <= b.len(),
            lex_lt(a@, b@) == lex_lt(a@.skip(i as int), b@.skip(i as int)),
        decreases a.len() - i,
    {
        if a[i] != b[i] {
            let r = (a[i] as u32) < (b[i] as u32);
            assert(a@.skip(i as int)[0] == a@[i as int]);
            assert(b@.skip(i as int)[0] == b@[i as int]);
            return r;
        }
        assert(a@.skip(i as int).drop_first() =~= a@.skip(i + 1));
        assert(b@.skip(i as int).drop_first() =~= b@.skip(i + 1));
        i = i + 1;
    }
    a.len() < b.len()
}

/// Every index of `0..n` except in order: positions hold distinct indices
/// below `n`.
pub open spec fn is_index_order(order: Seq<usize>, n: nat) -> bool {
    &&& order.len() == n
    &&& forall|k: int| 0 <= k < order.len() ==> order[k] < n
    &&& forall|k1: int, k2: int| 0 <= k1 < k2 < order.len() ==> order[k1] != order[k2]
}

/// Entry `i` sorts before entry `j`: by text, and by position among equal
/// texts.
pub open spec fn entry_before(texts: Seq<Seq<char>>, i: int, j: int) -> bool {
    lex_lt(texts[i], texts[j]) || (texts[i] == texts[j] && i < j)
}

/// The positions of `texts` in ascending text order; equal texts keep their
/// relative order (a stable sort).
pub open spec fn is_sorted_order(texts: Seq<Seq<char>>, order: Seq<usize>) -> bool {
    &&& is_index_order(order, texts.len())
    &&& forall|k1: int, k2: int| 0 <= k1 < k2 < order.len() ==> entry_before(texts, order[k1] as int, order[k2] as int)
}

proof fn lemma_entry_before_transitive(texts: Seq<Seq<char>>, i: int, j: int, k: int)
    requires
        entry_before(texts, i, j),
        entry_before(texts, j, k),
    ensures
        entry_before(texts, i, k),
{
    if lex_lt(texts[i], texts[j]) && lex_lt(texts[j], texts[k]) {
        lemma_lex_transitive(texts[i], texts[j], texts[k]);
    }
}

proof fn lemma_entry_before_total(texts: Seq<Seq<char>>, i: int, j: int)
    requires
        i != j,
    ensures
        entry_before(texts, i, j) || entry_before(texts, j, i),
{
    lemma_lex_total(texts[i], texts[j]);
}

proof fn lemma_entry_before_asymmetric(texts: Seq<Seq<char>>, i: int, j: int)
    requires
        entry_before(texts, i, j),
    ensures
        !entry_before(texts, j, i),
{
    if lex_lt(texts[i], texts[j]) {
        lemma_lex_asymmetric(texts[i], texts[j]);
        if texts[j] == texts[i] {
            lemma_lex_irreflexive(texts[i]);
        }
    } else if lex_lt(texts[j], texts[i]) {
        lemma_lex_irreflexive(texts[i]);
    }
}

/// The views of a list of strings.
pub open spec fn views_of(list: Seq<String>) -> Seq<Seq<char>> {
    list.map_values(|s: String| s@)
}

/// The views of a list of character vectors.
pub open spec fn char_views_of(list: Seq<Vec<char>>) -> Seq<Seq<char>> {
    list.map_values(|v: Vec<char>| v@)
}

/// Copies each string into a character vector.
pub fn chars_of_all(list: &Vec<String>) -> (out: Vec<Vec<char>>)
    ensures
        char_views_of(out@) == views_of(list@),
{
    let mut out: Vec<Vec<char>> = Vec::new();
    let mut i: usize = 0;
    while i < list.len()
        invariant
            i <= list.len(),
            char_views_of(out@) == views_of(list@).take(i as int),
        decreases list.len() - i,
    {
        let v = chars_of(list[i].as_str());
        let ghost prev = out@;
        out.push(v);
        assert(char_views_of(out@) =~= char_views_of(prev).push(list@[i as int]@));
        assert(views_of(list@).take(i + 1) =~= views_of(list@).take(i as int).push(list@[i as int]@));
        i = i + 1;
    }
    assert(views_of(list@).take(list.len() as int) =~= views_of(list@));
    out
}

/// The stable ascending order of the given paths, as positions into the list.
pub fn sorted_order(paths: &Vec<String>) -> (order: Vec<usize>)
    ensures
        is_sorted_order(views_of(paths@), order@),
{
    let texts = chars_of_all(paths);
    let ghost t = views_of(paths@);
    let n = texts.len();
    let mut order: Vec<usize> = Vec::new();
    let mut i: usize = 0;
    while i < n
        invariant
            n == texts@.len(),
            n == t.len(),
            char_views_of(texts@) == t,
            i <= n,
            order@.len() == i,
            forall|k: int| 0 <= k < order@.len() ==> order@[k] < i,
            forall|k1: int, k2: int| 0 <= k1 < k2 < order@.len() ==> order@[k1] != order@[k2],
            forall|k1: int, k2: int|
                0 <= k1 < k2 < order@.len() ==> entry_before(t, order@[k1] as int, order@[k2] as int),
        decreases n - i,
    {
        let mut pos: usize = 0;
        while pos < order.len() && !(text_less(&texts[i], &texts[order[pos]])
            && !same_chars(&texts[i], &texts[order[pos]]))
            invariant
                n == texts@.len(),
                n == t.len(),
                char_views_of(texts@) == t,
                i < n,
                pos <= order@.len(),
                forall|k: int| 0 <= k < order@.len() ==> order@[k] < i,
                forall|k: int| 0 <= k < pos ==> entry_before(t, order@[k] as int, i as int),
            decreases order@.len() - pos,
        {
            proof {
                let j = order@[pos as int] as int;
                assert(texts@[i as int]@ == t[i as int]);
                assert(texts@[j]@ == t[j]);
                lemma_entry_before_total(t, i as int, j);
                if entry_before(t, i as int, j) {
                    // i is the newest position, so it can only come first by text
                    assert(lex_lt(t[i as int], t[j]));
                    if t[i as int] == t[j] {
                        lemma_lex_irreflexive(t[j]);
                    }
                }
            }
            pos = pos + 1;
        }
        proof {
            if pos < order@.len() {
                let j = order@[pos as int] as int;
                assert(texts@[i as int]@ == t[i as int]);
                assert(texts@[j]@ == t[j]);
                assert(entry_before(t, i as int, j));
                assert forall|k: int| pos <= k < order@.len() implies entry_before(
                    t,
                    i as int,
                    #[trigger] order@[k] as int,
                ) by {
                    if k > pos {
                        lemma_entry_before_transitive(t, i as int, j, order@[k] as int);
                    }
                }
            }
        }
        let ghost before = order@;
        order.insert(pos, i);
        proof {
            assert forall|k1: int, k2: int| 0 <= k1 < k2 < order@.len() implies entry_before(
                t,
                order@[k1] as int,
                order@[k2] as int,
            ) by {
                if k2 < pos {
                    assert(order@[k1] == before[k1] && order@[k2] == before[k2]);
                } else if k2 == pos {
                    assert(order@[k1] == before[k1]);
                } else if k1 == pos {
                    assert(order@[k2] == before[k2 - 1]);
                } else if k1 < pos {
                    assert(order@[k1] == before[k1] && order@[k2] == before[k2 - 1]);
                } else {
                    assert(order@[k1] == before[k1 - 1] && order@[k2] == before[k2 - 1]);
                }
            }
            assert forall|k1: int, k2: int| 0 <= k1 < k2 < order@.len() implies order@[k1] != order@[k2] by {
                if order@[k1] == order@[k2] {
                    lemma_entry_before_asymmetric(t, order@[k1] as int, order@[k2] as int);
                }
            }
            assert forall|k: int| 0 <= k < order@.len() implies order@[k] < i + 1 by {
                if k < pos {
                    assert(order@[k] == before[k]);
                } else if k > pos {
                    assert(order@[k] == before[k - 1]);
                }
            }
        }
        i = i + 1;
    }
    order
}

/// Texts in strictly ascending order (hence without duplicates).
pub open spec fn strictly_ascending(texts: Seq<Seq<char>>) -> bool {
    forall|k1: int, k2: int| 0 <= k1 < k2 < texts.len() ==> lex_lt(texts[k1], texts[k2])
}

/// Inserts `x` into a strictly ascending list unless it is already there.
pub fn insert_unique_sorted(list: &mut Vec<Vec<char>>, x: Vec<char>)
    requires
        strictly_ascending(char_views_of(old(list)@)),
    ensures
        strictly_ascending(char_views_of(final(list)@)),
        char_views_of(final(list)@).to_set() == char_views_of(old(list)@).to_set().insert(x@),
{
    let ghost start = char_views_of(list@);
    let mut pos: usize = 0;
    while pos < list.len() && text_less(&list[pos], &x)
        invariant
            pos <= list@.len(),
            list@ == old(list)@,
            char_views_of(list@) == start,
            forall|k: int| 0 <= k < pos ==> lex_lt(#[trigger] start[k], x@),
        decreases list@.len() - pos,
    {
        assert(list@[pos as int]@ == start[pos as int]);
        pos = pos + 1;
    }
    if pos < list.len() && same_chars(&list[pos], &x) {
        assert(start[pos as int] == x@);
        assert(start.to_set().insert(x@) =~= start.to_set()) by {
            assert(start.contains(x@));
        }
        return;
    }
    proof {
        if pos < list@.len() {
            assert(list@[pos as int]@ == start[pos as int]);
            lemma_lex_total(x@, start[pos as int]);
            assert forall|k: int| pos <= k < start.len() implies lex_lt(x@, #[trigger] start[k]) by {
                if k > pos {
                    lemma_lex_transitive(x@, start[pos as int], start[k]);
                }
            }
        }
    }
    let ghost xv = x@;
    list.insert(pos, x);
    proof {
        let after = char_views_of(list@);
        assert(after =~= start.insert(pos as int, xv));
        assert forall|k1: int, k2: int| 0 <= k1 < k2 < after.len() implies lex_lt(after[k1], after[k2]) by {
            if k2 < pos {
            } else if k2 == pos {
            } else if k1 == pos {
                assert(after[k2] == start[k2 - 1]);
            } else if k1 < pos {
                assert(after[k2] == start[k2 - 1]);
                assert(lex_lt(start[k1], xv));
                lemma_lex_transitive(start[k1], xv, start[k2 - 1]);
            } else {
                assert(after[k1] == start[k1 - 1] && after[k2] == start[k2 - 1]);
            }
        }
        assert forall|v: Seq<char>| after.to_set().contains(v) <==> start.to_set().insert(xv).contains(v) by {
            if after.contains(v) {
                let k = choose|k: int| 0 <= k < after.len() && after[k] == v;
                if k < pos {
                    assert(start[k] == v);
                } else if k > pos {
                    assert(start[k - 1] == v);
                }
            }
            if start.contains(v) {
                let k = choose|k: int| 0 <= k < start.len() && start[k] == v;
                if k < pos {
                    assert(after[k] == v);
                } else {
                    assert(after[k + 1] == v);
                }
            }
            if v == xv {
                assert(after[pos as int] == v);
            }
        }
        assert(after.to_set() =~= start.to_set().insert(xv));
    }
}

/// Converts character vectors back to strings.
pub fn strings_of(list: &Vec<Vec<char>>) -> (out: Vec<String>)
    ensures
        views_of(out@) == char_views_of(list@),
{
    let mut out: Vec<String> = Vec::new();
    let mut i: usize = 0;
    while i < list.len()
        invariant
            i <= list.len(),
            views_of(out@) == char_views_of(list@).take(i as int),
        decreases list.len() - i,
    {
        let s = string_from_chars(&list[i]);
        let ghost prev = out@;
        out.push(s);
        assert(views_of(out@) =~= views_of(prev).push(list@[i as int]@));
        assert(char_views_of(list@).take(i + 1) =~= char_views_of(list@).take(i as int).push(
            list@[i as int]@,
        ));
        i = i + 1;
    }
    assert(char_views_of(list@).take(list.len() as int) =~= char_views_of(list@));
    out
}

} // verus!
