//! Sorting by rank, and by words where the rank is the same.

use crate::chars::{copied, rows};
use crate::order::{
    lemma_text_le_antisym, lemma_text_le_total, lemma_text_le_trans, text_before, text_le,
};
use vstd::prelude::*;

verus! {

/// Something that is sorted.
pub struct Ranked {
    pub rank: u128,
    pub words: Vec<Vec<char>>,
    pub text: String,
}

/// What a `Ranked` says.
#[verifier::ext_equal]
pub struct RankedV {
    pub rank: u128,
    pub words: Seq<Seq<char>>,
    pub text: Seq<char>,
}

impl View for Ranked {
    type V = RankedV;

    open spec fn view(&self) -> RankedV {
        RankedV { rank: self.rank, words: rows(self.words@), text: self.text@ }
    }
}

/// What a list says.
pub open spec fn ranked_say(v: Seq<Ranked>) -> Seq<RankedV> {
    v.map_values(|x: Ranked| x@)
}

/// Whether a list of words comes before another or is the same.
pub open spec fn words_le(a: Seq<Seq<char>>, b: Seq<Seq<char>>) -> bool
    decreases a.len(),
{
    if a.len() == 0 {
        true
    } else if b.len() == 0 {
        false
    } else if a[0] != b[0] {
        text_le(a[0], b[0])
    } else {
        words_le(a.skip(1), b.skip(1))
    }
}

/// Whether something may stand before something else.
pub open spec fn rank_le(a: RankedV, b: RankedV) -> bool {
    a.rank < b.rank || (a.rank == b.rank && words_le(a.words, b.words))
}

/// Whether a list is in order.
pub open spec fn in_order(v: Seq<RankedV>) -> bool {
    forall|i: int, j: int| 0 <= i <= j < v.len() ==> rank_le(#[trigger] v[i], #[trigger] v[j])
}

/// Whether `r` is `v` in order.
pub open spec fn is_sorting(v: Seq<RankedV>, r: Seq<RankedV>) -> bool {
    in_order(r) && r.to_multiset() == v.to_multiset()
}

proof fn lemma_words_total(a: Seq<Seq<char>>, b: Seq<Seq<char>>)
    ensures
        words_le(a, b) || words_le(b, a),
    decreases a.len(),
{
    if a.len() > 0 && b.len() > 0 {
        if a[0] != b[0] {
            lemma_text_le_total(a[0], b[0]);
        } else {
            lemma_words_total(a.skip(1), b.skip(1));
        }
    }
}

proof fn lemma_words_trans(a: Seq<Seq<char>>, b: Seq<Seq<char>>, c: Seq<Seq<char>>)
    requires
        words_le(a, b),
        words_le(b, c),
    ensures
        words_le(a, c),
    decreases a.len(),
{
    if a.len() > 0 && b.len() > 0 && c.len() > 0 {
        if a[0] == b[0] && b[0] == c[0] {
            lemma_words_trans(a.skip(1), b.skip(1), c.skip(1));
        } else if a[0] != b[0] && b[0] != c[0] {
            lemma_text_le_trans(a[0], b[0], c[0]);
            if a[0] == c[0] {
                lemma_text_le_antisym(a[0], b[0]);
            }
        }
    }
}

proof fn lemma_rank_total(a: RankedV, b: RankedV)
    ensures
        rank_le(a, b) || rank_le(b, a),
{
    lemma_words_total(a.words, b.words);
}

proof fn lemma_rank_trans(a: RankedV, b: RankedV, c: RankedV)
    requires
        rank_le(a, b),
        rank_le(b, c),
    ensures
        rank_le(a, c),
{
    if a.rank == b.rank && b.rank == c.rank {
        lemma_words_trans(a.words, b.words, c.words);
    }
}

fn words_before(a: &[Vec<char>], b: &[Vec<char>]) -> (r: bool)
    ensures
        r == words_le(rows(a@), rows(b@)),
{
    let ghost x = rows(a@);
    let ghost y = rows(b@);
    let mut i: usize = 0;
    proof {
        assert(x.skip(0) =~= x);
        assert(y.skip(0) =~= y);
    }
    while i < a.len() && i < b.len()
        invariant
            x == rows(a@),
            y == rows(b@),
            i <= a@.len(),
            i <= b@.len(),
            words_le(x, y) == words_le(x.skip(i as int), y.skip(i as int)),
        decreases a@.len() - i,
    {
        proof {
            assert(x.skip(i as int)[0] == a@[i as int]@);
            assert(y.skip(i as int)[0] == b@[i as int]@);
            assert(x.skip(i as int).skip(1) =~= x.skip(i as int + 1));
            assert(y.skip(i as int).skip(1) =~= y.skip(i as int + 1));
        }
        if !crate::chars::same(a[i].as_slice(), b[i].as_slice()) {
            return text_before(a[i].as_slice(), b[i].as_slice());
        }
        i = i + 1;
    }
    i >= a.len()
}

fn may_precede(a: &Ranked, b: &Ranked) -> (r: bool)
    ensures
        r == rank_le(a@, b@),
{
    if a.rank < b.rank {
        true
    } else if a.rank > b.rank {
        false
    } else {
        words_before(a.words.as_slice(), b.words.as_slice())
    }
}

fn copy_words(v: &[Vec<char>]) -> (r: Vec<Vec<char>>)
    ensures
        rows(r@) == rows(v@),
{
    let ghost all = rows(v@);
    let mut out: Vec<Vec<char>> = Vec::new();
    proof {
        assert(rows(out@) =~= all.take(0));
    }
    for i in 0..v.len()
        invariant
            all == rows(v@),
            rows(out@) == all.take(i as int),
    {
        let ghost before = rows(out@);
        out.push(copied(v[i].as_slice()));
        proof {
            assert(rows(out@) =~= before.push(all[i as int]));
            assert(all.take(i as int + 1) =~= before.push(all[i as int]));
        }
    }
    proof {
        assert(all.take(v@.len() as int) =~= all);
    }
    out
}

fn copy_ranked(x: &Ranked) -> (r: Ranked)
    ensures
        r@ == x@,
{
    Ranked { rank: x.rank, words: copy_words(x.words.as_slice()), text: x.text.clone() }
}

proof fn lemma_take_push<T>(s: Seq<T>, i: int)
    requires
        0 <= i < s.len(),
    ensures
        s.take(i + 1).to_multiset() == s.take(i).to_multiset().insert(s[i]),
{
    broadcast use vstd::seq_lib::group_to_multiset_ensures;

    assert(s.take(i + 1) =~= s.take(i).push(s[i]));
}

proof fn lemma_push_in_order(v: Seq<RankedV>, x: RankedV)
    requires
        in_order(v),
        v.len() > 0 ==> rank_le(v.last(), x),
    ensures
        in_order(v.push(x)),
{
    lemma_rank_total(x, x);
    assert forall|i: int, j: int| 0 <= i <= j < v.push(x).len() implies rank_le(
        #[trigger] v.push(x)[i],
        #[trigger] v.push(x)[j],
    ) by {
        if j == v.len() && i < v.len() {
            assert(rank_le(v[i], v[v.len() - 1]));
            lemma_rank_trans(v[i], v.last(), x);
        }
    }
}

fn merge(a: &Vec<Ranked>, b: &Vec<Ranked>) -> (r: Vec<Ranked>)
    requires
        in_order(ranked_say(a@)),
        in_order(ranked_say(b@)),
    ensures
        in_order(ranked_say(r@)),
        ranked_say(r@).to_multiset() == ranked_say(a@).to_multiset().add(
            ranked_say(b@).to_multiset(),
        ),
{
    broadcast use vstd::seq_lib::group_to_multiset_ensures;

    let ghost x = ranked_say(a@);
    let ghost y = ranked_say(b@);
    let mut out: Vec<Ranked> = Vec::new();
    let mut i: usize = 0;
    let mut j: usize = 0;
    proof {
        assert(ranked_say(out@) =~= Seq::<RankedV>::empty());
        assert(x.take(0) =~= Seq::<RankedV>::empty());
        assert(y.take(0) =~= Seq::<RankedV>::empty());
        assert(ranked_say(out@).to_multiset() =~= x.take(0).to_multiset().add(
            y.take(0).to_multiset(),
        ));
    }
    while i < a.len() || j < b.len()
        invariant
            x == ranked_say(a@),
            y == ranked_say(b@),
            in_order(x),
            in_order(y),
            i <= a@.len(),
            j <= b@.len(),
            in_order(ranked_say(out@)),
            ranked_say(out@).to_multiset() == x.take(i as int).to_multiset().add(
                y.take(j as int).to_multiset(),
            ),
            out@.len() > 0 && i < a@.len() ==> rank_le(ranked_say(out@).last(), x[i as int]),
            out@.len() > 0 && j < b@.len() ==> rank_le(ranked_say(out@).last(), y[j as int]),
        decreases a@.len() - i + b@.len() - j,
    {
        let left = if i >= a.len() {
            false
        } else if j >= b.len() {
            true
        } else {
            may_precede(&a[i], &b[j])
        };
        let ghost before = ranked_say(out@);
        if left {
            proof {
                assert(x[i as int] == a@[i as int]@);
                lemma_take_push(x, i as int);
                lemma_push_in_order(before, x[i as int]);
                if i + 1 < x.len() {
                    assert(rank_le(x[i as int], x[i as int + 1]));
                }
            }
            out.push(copy_ranked(&a[i]));
            proof {
                broadcast use vstd::seq_lib::group_to_multiset_ensures;

                assert(ranked_say(out@) =~= before.push(x[i as int]));
                assert(ranked_say(out@).to_multiset() =~= before.to_multiset().insert(x[i as int]));
                assert(ranked_say(out@).to_multiset() =~= x.take(i as int + 1).to_multiset().add(
                    y.take(j as int).to_multiset(),
                ));
            }
            i = i + 1;
        } else {
            proof {
                assert(y[j as int] == b@[j as int]@);
                lemma_take_push(y, j as int);
                lemma_push_in_order(before, y[j as int]);
                if j + 1 < y.len() {
                    assert(rank_le(y[j as int], y[j as int + 1]));
                }
                if i < x.len() {
                    assert(x[i as int] == a@[i as int]@);
                    lemma_rank_total(x[i as int], y[j as int]);
                }
            }
            out.push(copy_ranked(&b[j]));
            proof {
                broadcast use vstd::seq_lib::group_to_multiset_ensures;

                assert(ranked_say(out@) =~= before.push(y[j as int]));
                assert(ranked_say(out@).to_multiset() =~= before.to_multiset().insert(y[j as int]));
                assert(ranked_say(out@).to_multiset() =~= x.take(i as int).to_multiset().add(
                    y.take(j as int + 1).to_multiset(),
                ));
            }
            j = j + 1;
        }
    }
    proof {
        assert(x.take(a@.len() as int) =~= x);
        assert(y.take(b@.len() as int) =~= y);
    }
    out
}

fn sort_range(v: &Vec<Ranked>, lo: usize, hi: usize) -> (r: Vec<Ranked>)
    requires
        lo <= hi <= v@.len(),
    ensures
        in_order(ranked_say(r@)),
        ranked_say(r@).to_multiset() == ranked_say(v@).subrange(
            lo as int,
            hi as int,
        ).to_multiset(),
    decreases hi - lo,
{
    let ghost all = ranked_say(v@);
    if hi - lo <= 1 {
        let mut out: Vec<Ranked> = Vec::new();
        if lo < hi {
            out.push(copy_ranked(&v[lo]));
            proof {
                lemma_rank_total(all[lo as int], all[lo as int]);
            }
        }
        proof {
            assert(ranked_say(out@) =~= all.subrange(lo as int, hi as int));
        }
        return out;
    }
    let mid: usize = lo + (hi - lo) / 2;
    let a = sort_range(v, lo, mid);
    let b = sort_range(v, mid, hi);
    proof {
        vstd::seq_lib::lemma_multiset_commutative(
            all.subrange(lo as int, mid as int),
            all.subrange(mid as int, hi as int),
        );
        assert(all.subrange(lo as int, mid as int) + all.subrange(mid as int, hi as int)
            =~= all.subrange(lo as int, hi as int));
    }
    merge(&a, &b)
}

/// Sorts a list.
pub fn sort_ranked(v: &Vec<Ranked>) -> (r: Vec<Ranked>)
    ensures
        is_sorting(ranked_say(v@), ranked_say(r@)),
{
    proof {
        assert(ranked_say(v@).subrange(0, v@.len() as int) =~= ranked_say(v@));
    }
    sort_range(v, 0, v.len())
}

// ---------------------------------------------------------------------------
// Laws
// ---------------------------------------------------------------------------

proof fn lemma_words_antisym(a: Seq<Seq<char>>, b: Seq<Seq<char>>)
    requires
        words_le(a, b),
        words_le(b, a),
    ensures
        a == b,
    decreases a.len(),
{
    if a.len() > 0 && b.len() > 0 {
        if a[0] != b[0] {
            lemma_text_le_antisym(a[0], b[0]);
        } else {
            lemma_words_antisym(a.skip(1), b.skip(1));
            assert(a =~= seq![a[0]] + a.skip(1));
            assert(b =~= seq![b[0]] + b.skip(1));
        }
    } else {
        assert(a =~= b);
    }
}

/// Two ways to put a list in order differ only where things have the same rank
/// and the same words.
pub proof fn law_one_order(v: Seq<RankedV>, r: Seq<RankedV>, s: Seq<RankedV>)
    requires
        is_sorting(v, r),
        is_sorting(v, s),
    ensures
        r.len() == s.len(),
        forall|i: int|
            0 <= i < r.len() ==> (#[trigger] r[i]).rank == s[i].rank && r[i].words == s[i].words,
    decreases r.len(),
{
    broadcast use vstd::seq_lib::group_to_multiset_ensures;

    assert(r.len() == r.to_multiset().len());
    assert(s.len() == s.to_multiset().len());
    if r.len() > 0 {
        let a = r.last();
        let b = s.last();
        assert(r.to_multiset().count(a) > 0) by {
            assert(r[r.len() - 1] == a);
            assert(r.contains(a));
        }
        assert(s.contains(a));
        let k = choose|k: int| 0 <= k < s.len() && s[k] == a;
        assert(rank_le(s[k], s[s.len() - 1]));
        assert(s.to_multiset().count(b) > 0) by {
            assert(s[s.len() - 1] == b);
            assert(s.contains(b));
        }
        assert(r.contains(b));
        let m = choose|m: int| 0 <= m < r.len() && r[m] == b;
        assert(rank_le(r[m], r[r.len() - 1]));
        lemma_words_antisym(a.words, b.words);
        lemma_swap_last(s, k);
        let t = s.update(k, b).drop_last();
        assert(r =~= r.drop_last().push(a));
        assert(r.to_multiset() =~= r.drop_last().to_multiset().insert(a));
        assert(r.drop_last().to_multiset() =~= r.to_multiset().remove(a));
        assert(t.to_multiset() =~= s.to_multiset().remove(a));
        assert(r.drop_last().to_multiset() =~= t.to_multiset());
        assert(in_order(r.drop_last())) by {
            assert forall|i: int, j: int| 0 <= i <= j < r.drop_last().len() implies rank_le(
                #[trigger] r.drop_last()[i],
                #[trigger] r.drop_last()[j],
            ) by {
                assert(rank_le(r[i], r[j]));
            }
        }
        assert(in_order(t)) by {
            assert forall|i: int, j: int| 0 <= i <= j < t.len() implies rank_le(
                #[trigger] t[i],
                #[trigger] t[j],
            ) by {
                assert(rank_le(s[i], s[j]));
            }
        }
        law_one_order(r.drop_last(), r.drop_last(), t);
        assert forall|i: int| 0 <= i < r.len() implies (#[trigger] r[i]).rank == s[i].rank
            && r[i].words == s[i].words by {
            if i < r.len() - 1 {
                assert(r.drop_last()[i] == r[i]);
                assert(t[i].rank == s[i].rank && t[i].words == s[i].words);
            }
        }
    }
}

proof fn lemma_swap_last(s: Seq<RankedV>, k: int)
    requires
        0 <= k < s.len(),
    ensures
        s.update(k, s.last()).drop_last().to_multiset().insert(s[k]) == s.to_multiset(),
{
    broadcast use vstd::seq_lib::group_to_multiset_ensures;

    let t = s.update(k, s.last());
    let n = s.len() - 1;
    if k < n {
        let u = t.drop_last();
        assert(u.to_multiset() =~= s.drop_last().to_multiset().insert(s.last()).remove(s[k])) by {
            assert(u =~= s.drop_last().update(k, s.last()));
        }
        assert(s =~= s.drop_last().push(s.last()));
        assert(s.contains(s[k]));
    } else {
        assert(t =~= s);
        assert(s =~= s.drop_last().push(s.last()));
    }
}

} // verus!
