//! Deterministic ranking of overview cards: by score (highest first), then by file path, then
//! by reference, both in the order of `str`.
use vstd::prelude::*;
use crate::order::{lex_lt, lex_lt_exec, lemma_lex_irrefl, lemma_lex_trans, lemma_lex_total, lemma_lex_asym};
use crate::text::{to_chars, chars_eq};

verus! {

broadcast use vstd::seq::group_seq_axioms;

/// The ranking key of an item: its score (higher first), its file path and its reference.
pub type RankKey = (int, Seq<char>, Seq<char>);

/// Whether a card with key `a` is ranked strictly before one with key `b`.
pub open spec fn ranked_before(a: RankKey, b: RankKey) -> bool {
    ||| a.0 > b.0
    ||| a.0 == b.0 && lex_lt(a.1, b.1)
    ||| a.0 == b.0 && a.1 == b.1 && lex_lt(a.2, b.2)
}

/// A card type that can be ranked by its view.
pub trait Ranked: View + Sized {
    /// The ranking key of a card's view.
    spec fn key_of(v: Self::V) -> RankKey;

    /// The item's score.
    fn rank_score(&self) -> (r: i128)
        ensures
            r as int == Self::key_of(self@).0;

    /// The card's file path.
    fn rank_path(&self) -> (r: &String)
        ensures
            r@ == Self::key_of(self@).1;

    /// The card's reference.
    fn rank_ref(&self) -> (r: &String)
        ensures
            r@ == Self::key_of(self@).2;
}

/// Where `x` goes in `s`: before the first element it is ranked before, else at the end.
pub open spec fn insert_pos<T: Ranked>(s: Seq<T::V>, x: T::V) -> nat
    decreases s.len(),
{
    if s.len() == 0 {
        0
    } else if ranked_before(T::key_of(x), T::key_of(s[0])) {
        0
    } else {
        1 + insert_pos::<T>(s.drop_first(), x)
    }
}

/// Stable insertion sort by rank: each element, in order, goes after every element that is not
/// ranked after it.
pub open spec fn ranked_sort<T: Ranked>(s: Seq<T::V>) -> Seq<T::V>
    decreases s.len(),
{
    if s.len() == 0 {
        Seq::empty()
    } else {
        let p = ranked_sort::<T>(s.drop_last());
        p.insert(insert_pos::<T>(p, s.last()) as int, s.last())
    }
}

/// Views of a vector of cards.
pub open spec fn card_views<T: View>(v: Seq<T>) -> Seq<T::V> {
    v.map_values(|t: T| t@)
}

/// No element is ranked before one that precedes it.
pub open spec fn is_ranked<T: Ranked>(s: Seq<T::V>) -> bool {
    forall|i: int, j: int| 0 <= i < j < s.len() ==> !ranked_before(T::key_of(#[trigger] s[j]), T::key_of(#[trigger] s[i]))
}

pub proof fn lemma_insert_pos_bound<T: Ranked>(s: Seq<T::V>, x: T::V)
    ensures
        insert_pos::<T>(s, x) <= s.len(),
        forall|i: int| 0 <= i < insert_pos::<T>(s, x) ==> !ranked_before(T::key_of(x), T::key_of(#[trigger] s[i])),
        insert_pos::<T>(s, x) < s.len() ==> ranked_before(T::key_of(x), T::key_of(s[insert_pos::<T>(s, x) as int])),
    decreases s.len(),
{
    if s.len() > 0 && !ranked_before(T::key_of(x), T::key_of(s[0])) {
        lemma_insert_pos_bound::<T>(s.drop_first(), x);
        assert forall|i: int| 0 <= i < insert_pos::<T>(s, x) implies !ranked_before(T::key_of(x), T::key_of(#[trigger] s[i])) by {
            if i > 0 {
                assert(s[i] == s.drop_first()[i - 1]);
            }
        }
    }
}

pub proof fn lemma_ranked_sort_len<T: Ranked>(s: Seq<T::V>)
    ensures
        ranked_sort::<T>(s).len() == s.len(),
    decreases s.len(),
{
    if s.len() > 0 {
        lemma_ranked_sort_len::<T>(s.drop_last());
        lemma_insert_pos_bound::<T>(ranked_sort::<T>(s.drop_last()), s.last());
    }
}

/// `ranked_before` is a strict weak order: irreflexive, transitive, and incomparability is
/// transitive (it is lexicographic on a total order).
pub proof fn lemma_ranked_before_order(a: RankKey, b: RankKey, c: RankKey)
    ensures
        !ranked_before(a, a),
        ranked_before(a, b) && ranked_before(b, c) ==> ranked_before(a, c),
        ranked_before(a, b) ==> !ranked_before(b, a),
        !ranked_before(a, b) && !ranked_before(b, a) ==> a == b,
{
    lemma_lex_irrefl(a.1);
    lemma_lex_irrefl(a.2);
    if lex_lt(a.1, b.1) && lex_lt(b.1, c.1) {
        lemma_lex_trans(a.1, b.1, c.1);
    }
    if lex_lt(a.2, b.2) && lex_lt(b.2, c.2) {
        lemma_lex_trans(a.2, b.2, c.2);
    }
    if lex_lt(a.1, b.1) {
        lemma_lex_asym(a.1, b.1);
    }
    if lex_lt(a.2, b.2) {
        lemma_lex_asym(a.2, b.2);
    }
    lemma_lex_total(a.1, b.1);
    lemma_lex_total(a.2, b.2);
}

proof fn lemma_insert_keeps_ranked<T: Ranked>(s: Seq<T::V>, x: T::V)
    requires
        is_ranked::<T>(s),
    ensures
        is_ranked::<T>(s.insert(insert_pos::<T>(s, x) as int, x)),
{
    lemma_insert_pos_bound::<T>(s, x);
    let p = insert_pos::<T>(s, x) as int;
    let t = s.insert(p, x);
    assert forall|i: int, j: int| 0 <= i < j < t.len() implies !ranked_before(T::key_of(#[trigger] t[j]), T::key_of(#[trigger] t[i])) by {
        if j < p {
            assert(t[i] == s[i] && t[j] == s[j]);
        } else if j == p {
            assert(t[i] == s[i]);
            assert(!ranked_before(T::key_of(x), T::key_of(s[i])));
        } else if i == p {
            // x is ranked before s[p], and s[p] is not ranked after... use the order
            assert(t[j] == s[j - 1]);
            if p < s.len() {
                lemma_ranked_before_order(T::key_of(x), T::key_of(s[p]), T::key_of(s[j - 1]));
                lemma_ranked_before_order(T::key_of(s[j - 1]), T::key_of(x), T::key_of(s[p]));
                lemma_ranked_before_order(T::key_of(s[j - 1]), T::key_of(s[p]), T::key_of(x));
                if j - 1 > p {
                    assert(!ranked_before(T::key_of(s[j - 1]), T::key_of(s[p])));
                }
            }
        } else if i < p {
            assert(t[i] == s[i] && t[j] == s[j - 1]);
        } else {
            assert(t[i] == s[i - 1] && t[j] == s[j - 1]);
        }
    }
}

/// The ranked sort orders its output by rank.
pub proof fn lemma_ranked_sort_ranked<T: Ranked>(s: Seq<T::V>)
    ensures
        is_ranked::<T>(ranked_sort::<T>(s)),
    decreases s.len(),
{
    if s.len() > 0 {
        lemma_ranked_sort_ranked::<T>(s.drop_last());
        lemma_insert_keeps_ranked::<T>(ranked_sort::<T>(s.drop_last()), s.last());
    }
}

/// The ranked sort is a permutation of its input.
pub proof fn lemma_ranked_sort_perm<T: Ranked>(s: Seq<T::V>)
    ensures
        ranked_sort::<T>(s).to_multiset() == s.to_multiset(),
    decreases s.len(),
{
    broadcast use vstd::seq_lib::group_to_multiset_ensures;
    if s.len() > 0 {
        lemma_ranked_sort_perm::<T>(s.drop_last());
        let p = ranked_sort::<T>(s.drop_last());
        lemma_insert_pos_bound::<T>(p, s.last());
        assert(s =~= s.drop_last().push(s.last()));
        assert(s.drop_last().push(s.last()) =~= s.drop_last().insert(s.drop_last().len() as int, s.last()));
    }
}


/// No two elements share a reference.
pub open spec fn distinct_refs<T: Ranked>(s: Seq<T::V>) -> bool {
    forall|i: int, j: int| 0 <= i < j < s.len() ==> T::key_of(#[trigger] s[i]).2 != T::key_of(#[trigger] s[j]).2
}

/// The ranked sort holds exactly the elements of its input.
pub proof fn lemma_ranked_sort_contains<T: Ranked>(s: Seq<T::V>, x: T::V)
    ensures
        ranked_sort::<T>(s).contains(x) <==> s.contains(x),
{
    broadcast use vstd::seq_lib::group_to_multiset_ensures;
    lemma_ranked_sort_perm::<T>(s);
    assert(ranked_sort::<T>(s).to_multiset().contains(x) <==> s.to_multiset().contains(x));
}

/// Ranking keeps references distinct.
pub proof fn lemma_ranked_sort_distinct<T: Ranked>(s: Seq<T::V>)
    requires
        distinct_refs::<T>(s),
    ensures
        distinct_refs::<T>(ranked_sort::<T>(s)),
    decreases s.len(),
{
    if s.len() > 0 {
        let d = s.drop_last();
        let x = s.last();
        assert(distinct_refs::<T>(d)) by {
            assert forall|i: int, j: int| 0 <= i < j < d.len() implies T::key_of(#[trigger] d[i]).2 != T::key_of(#[trigger] d[j]).2 by {
                assert(d[i] == s[i] && d[j] == s[j]);
            }
        }
        lemma_ranked_sort_distinct::<T>(d);
        let p = ranked_sort::<T>(d);
        lemma_insert_pos_bound::<T>(p, x);
        lemma_ranked_sort_len::<T>(d);
        let k = insert_pos::<T>(p, x) as int;
        let q = p.insert(k, x);
        assert forall|i: int| 0 <= i < p.len() implies T::key_of(#[trigger] p[i]).2 != T::key_of(x).2 by {
            lemma_ranked_sort_contains::<T>(d, p[i]);
            assert(p.contains(p[i]));
            let j = choose|j: int| 0 <= j < d.len() && d[j] == p[i];
            assert(d[j] == s[j]);
            assert(s[s.len() - 1] == x);
        }
        assert forall|i: int, j: int| 0 <= i < j < q.len() implies T::key_of(#[trigger] q[i]).2 != T::key_of(#[trigger] q[j]).2 by {
            if j < k {
                assert(q[i] == p[i] && q[j] == p[j]);
            } else if j == k {
                assert(q[i] == p[i]);
            } else if i < k {
                assert(q[i] == p[i] && q[j] == p[j - 1]);
            } else if i == k {
                assert(q[j] == p[j - 1]);
            } else {
                assert(q[i] == p[i - 1] && q[j] == p[j - 1]);
            }
        }
    }
}

/// Exec: whether card `a` is ranked before card `b`.
pub fn rank_before<T: Ranked>(a: &T, b: &T) -> (r: bool)
    ensures
        r == ranked_before(T::key_of(a@), T::key_of(b@)),
{
    let sa = a.rank_score();
    let sb = b.rank_score();
    if sa != sb {
        return sa > sb;
    }
    let pa = to_chars(a.rank_path().as_str());
    let pb = to_chars(b.rank_path().as_str());
    if lex_lt_exec(&pa, &pb) {
        return true;
    }
    if !chars_eq(&pa, &pb) {
        return false;
    }
    let ra = to_chars(a.rank_ref().as_str());
    let rb = to_chars(b.rank_ref().as_str());
    lex_lt_exec(&ra, &rb)
}

fn find_insert_pos<T: Ranked>(out: &Vec<T>, x: &T) -> (r: usize)
    ensures
        r == insert_pos::<T>(card_views(out@), x@),
{
    let ghost ov = card_views(out@);
    let mut j: usize = 0;
    assert(ov.skip(0) =~= ov);
    while j < out.len()
        invariant
            0 <= j <= out.len(),
            ov == card_views(out@),
            insert_pos::<T>(ov, x@) == j + insert_pos::<T>(ov.skip(j as int), x@),
        decreases out.len() - j,
    {
        assert(ov.skip(j as int)[0] == out@[j as int]@);
        if rank_before(x, &out[j]) {
            return j;
        }
        assert(ov.skip(j as int).drop_first() =~= ov.skip(j + 1));
        j = j + 1;
    }
    assert(ov.skip(j as int).len() == 0);
    j
}

/// Sort cards by rank, stably.
pub fn sort_ranked<T: Ranked>(v: Vec<T>) -> (r: Vec<T>)
    ensures
        card_views(r@) == ranked_sort::<T>(card_views(v@)),
{
    let ghost s = card_views(v@);
    let ghost n = v@.len();
    let mut rest = v;
    let mut out: Vec<T> = Vec::new();
    let ghost mut k: int = 0;
    while rest.len() > 0
        invariant
            0 <= k <= n,
            n == s.len(),
            card_views(rest@) == s.subrange(k, n as int),
            card_views(out@) == ranked_sort::<T>(s.subrange(0, k)),
        decreases rest.len(),
    {
        proof {
            assert(card_views(rest@)[0] == rest@[0]@);
            assert(card_views(rest@).len() == rest@.len());
            assert(k < n);
            assert(s.subrange(k, n as int)[0] == s[k]);
        }
        let ghost before_rest = rest@;
        let x = rest.remove(0);
        proof {
            assert(card_views(rest@) =~= card_views(before_rest).drop_first());
            assert(card_views(before_rest).drop_first() =~= s.subrange(k + 1, n as int));
        }
        let p = find_insert_pos(&out, &x);
        proof {
            lemma_ranked_sort_len::<T>(s.subrange(0, k));
            lemma_insert_pos_bound::<T>(card_views(out@), x@);
        }
        let ghost before_out = out@;
        out.insert(p, x);
        proof {
            assert(s.subrange(0, k + 1).drop_last() =~= s.subrange(0, k));
            assert(s.subrange(0, k + 1).last() == x@);
            assert(card_views(out@) =~= card_views(before_out).insert(p as int, x@));
            assert(card_views(rest@) =~= s.subrange(k + 1, n as int));
            k = k + 1;
        }
    }
    proof {
        assert(s.subrange(0, k) =~= s);
    }
    out
}

} // verus!
