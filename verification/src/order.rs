//! The order of texts by code point, and sorting by it.

use crate::chars::{copied, rows};
use vstd::prelude::*;

verus! {

/// Whether `a` comes before `b` or equals it, code point by code point; a
/// prefix comes first.
pub open spec fn text_le(a: Seq<char>, b: Seq<char>) -> bool
    decreases a.len(),
{
    if a.len() == 0 {
        true
    } else if b.len() == 0 {
        false
    } else if a[0] != b[0] {
        a[0] < b[0]
    } else {
        text_le(a.skip(1), b.skip(1))
    }
}

/// Whether `a` comes before `b` or equals it.
pub fn text_before(a: &[char], b: &[char]) -> (r: bool)
    ensures
        r == text_le(a@, b@),
{
    let mut i: usize = 0;
    proof {
        assert(a@.skip(0) =~= a@);
        assert(b@.skip(0) =~= b@);
    }
    while i < a.len() && i < b.len() && a[i] == b[i]
        invariant
            i <= a.len(),
            i <= b.len(),
            text_le(a@, b@) == text_le(a@.skip(i as int), b@.skip(i as int)),
        decreases a.len() - i,
    {
        proof {
            assert(a@.skip(i as int).skip(1) =~= a@.skip(i as int + 1));
            assert(b@.skip(i as int).skip(1) =~= b@.skip(i as int + 1));
        }
        i = i + 1;
    }
    if i == a.len() {
        true
    } else if i == b.len() {
        false
    } else {
        a[i] < b[i]
    }
}

/// Any two texts are comparable.
pub proof fn lemma_text_le_total(a: Seq<char>, b: Seq<char>)
    ensures
        text_le(a, b) || text_le(b, a),
    decreases a.len(),
{
    if a.len() > 0 && b.len() > 0 && a[0] == b[0] {
        lemma_text_le_total(a.skip(1), b.skip(1));
    }
}

/// The order is transitive.
pub proof fn lemma_text_le_trans(a: Seq<char>, b: Seq<char>, c: Seq<char>)
    requires
        text_le(a, b),
        text_le(b, c),
    ensures
        text_le(a, c),
    decreases a.len(),
{
    if a.len() > 0 && b.len() > 0 && c.len() > 0 && a[0] == b[0] && b[0] == c[0] {
        lemma_text_le_trans(a.skip(1), b.skip(1), c.skip(1));
    }
}

/// Texts that precede each other are equal.
pub proof fn lemma_text_le_antisym(a: Seq<char>, b: Seq<char>)
    requires
        text_le(a, b),
        text_le(b, a),
    ensures
        a == b,
    decreases a.len(),
{
    if a.len() > 0 && b.len() > 0 {
        lemma_text_le_antisym(a.skip(1), b.skip(1));
        assert(a =~= seq![a[0]] + a.skip(1));
        assert(b =~= seq![b[0]] + b.skip(1));
    } else {
        assert(a =~= b);
    }
}

/// A text comes before those that it begins.
pub proof fn lemma_text_le_prefix(a: Seq<char>, b: Seq<char>)
    requires
        a.len() <= b.len(),
        a == b.take(a.len() as int),
    ensures
        text_le(a, b),
    decreases a.len(),
{
    if a.len() > 0 {
        assert(a[0] == b[0]);
        assert(a.skip(1) =~= b.skip(1).take(a.len() - 1));
        lemma_text_le_prefix(a.skip(1), b.skip(1));
    }
}

/// Whether every text of `v` precedes those behind it.
pub open spec fn ascending(v: Seq<Seq<char>>) -> bool {
    forall|i: int, j: int| 0 <= i <= j < v.len() ==> text_le(#[trigger] v[i], #[trigger] v[j])
}

/// The place of `x` in an ascending list: behind every text that precedes it.
pub open spec fn place(v: Seq<Seq<char>>, x: Seq<char>) -> int
    decreases v.len(),
{
    if v.len() == 0 || text_le(v.last(), x) {
        v.len() as int
    } else {
        place(v.drop_last(), x)
    }
}

/// `v` in ascending order.
pub open spec fn sorted(v: Seq<Seq<char>>) -> Seq<Seq<char>>
    decreases v.len(),
{
    if v.len() == 0 {
        v
    } else {
        let head = sorted(v.drop_last());
        head.insert(place(head, v.last()), v.last())
    }
}

/// The place found is inside the list, and splits it.
pub proof fn lemma_place(v: Seq<Seq<char>>, x: Seq<char>)
    requires
        ascending(v),
    ensures
        0 <= place(v, x) <= v.len(),
        forall|i: int| 0 <= i < place(v, x) ==> text_le(#[trigger] v[i], x),
        forall|i: int| place(v, x) <= i < v.len() ==> text_le(x, #[trigger] v[i]),
    decreases v.len(),
{
    if v.len() > 0 {
        if text_le(v.last(), x) {
            assert forall|i: int| 0 <= i < v.len() implies text_le(#[trigger] v[i], x) by {
                lemma_text_le_trans(v[i], v[v.len() - 1], x);
            }
        } else {
            assert(ascending(v.drop_last())) by {
                assert forall|i: int, j: int| 0 <= i <= j < v.drop_last().len() implies text_le(
                    #[trigger] v.drop_last()[i],
                    #[trigger] v.drop_last()[j],
                ) by {
                    assert(text_le(v[i], v[j]));
                }
            }
            lemma_place(v.drop_last(), x);
            lemma_text_le_total(v.last(), x);
            assert forall|i: int| 0 <= i < place(v, x) implies text_le(#[trigger] v[i], x) by {
                assert(v.drop_last()[i] == v[i]);
            }
            assert forall|i: int| place(v, x) <= i < v.len() implies text_le(x, #[trigger] v[i]) by {
                if i < v.len() - 1 {
                    assert(v.drop_last()[i] == v[i]);
                }
            }
        }
    }
}

/// `sorted` orders its argument and keeps exactly its texts.
pub proof fn lemma_sorted(v: Seq<Seq<char>>)
    ensures
        ascending(sorted(v)),
        sorted(v).to_multiset() == v.to_multiset(),
        sorted(v).len() == v.len(),
    decreases v.len(),
{
    if v.len() > 0 {
        let head = sorted(v.drop_last());
        lemma_sorted(v.drop_last());
        lemma_place(head, v.last());
        let p = place(head, v.last());
        let s = sorted(v);
        assert forall|i: int, j: int| 0 <= i <= j < s.len() implies text_le(
            #[trigger] s[i],
            #[trigger] s[j],
        ) by {
            if i == j {
                lemma_text_le_total(s[i], s[i]);
            } else if i < p && j < p {
                assert(text_le(head[i], head[j]));
            } else if i < p && j == p {
                assert(text_le(head[i], v.last()));
            } else if i < p {
                assert(text_le(head[i], head[j - 1]));
            } else if i == p {
                assert(text_le(v.last(), head[j - 1]));
            } else {
                assert(text_le(head[i - 1], head[j - 1]));
            }
        }
        vstd::seq_lib::to_multiset_insert(head, p, v.last());
        vstd::seq_lib::to_multiset_insert(v.drop_last(), v.len() - 1, v.last());
        assert(v.drop_last().insert(v.len() - 1, v.last()) =~= v);
    }
}

/// Sorts texts.
pub fn sort_texts(v: &[Vec<char>]) -> (r: Vec<Vec<char>>)
    ensures
        rows(r@) == sorted(rows(v@)),
{
    let mut out: Vec<Vec<char>> = Vec::new();
    proof {
        assert(rows(out@) =~= sorted(rows(v@).take(0)));
    }
    for i in 0..v.len()
        invariant
            rows(out@) == sorted(rows(v@).take(i as int)),
    {
        let ghost head = rows(out@);
        let mut p: usize = out.len();
        proof {
            assert(head.take(p as int) =~= head);
        }
        while p > 0 && !text_before(out[p - 1].as_slice(), v[i].as_slice())
            invariant
                p <= out.len(),
                i < v.len(),
                head == rows(out@),
                place(head, v@[i as int]@) == place(head.take(p as int), v@[i as int]@),
            decreases p,
        {
            proof {
                assert(head.take(p as int).last() == out@[p as int - 1]@);
                assert(head.take(p as int).drop_last() =~= head.take(p as int - 1));
            }
            p = p - 1;
        }
        proof {
            if p > 0 {
                assert(head.take(p as int).last() == out@[p as int - 1]@);
            }
        }
        out.insert(p, copied(v[i].as_slice()));
        proof {
            let x = v@[i as int]@;
            let t = rows(v@).take(i as int + 1);
            assert(t.drop_last() =~= rows(v@).take(i as int));
            assert(t.last() == x);
            assert(rows(out@) =~= head.insert(p as int, x));
        }
    }
    proof {
        assert(rows(v@).take(v@.len() as int) =~= rows(v@));
    }
    out
}

} // verus!
