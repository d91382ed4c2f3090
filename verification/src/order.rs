//! Lexicographic order on strings (the order of `str`'s `Ord`, which compares UTF-8 bytes and
//! therefore code points) and sorted, duplicate-free sequences of strings.
use vstd::prelude::*;

verus! {

broadcast use vstd::seq::group_seq_axioms;

/// `a < b` in the order of `str`.
pub open spec fn lex_lt(a: Seq<char>, b: Seq<char>) -> bool
    decreases a.len(),
{
    if a.len() == 0 {
        b.len() > 0
    } else if b.len() == 0 {
        false
    } else if a[0] < b[0] {
        true
    } else if a[0] == b[0] {
        lex_lt(a.drop_first(), b.drop_first())
    } else {
        false
    }
}

pub proof fn lemma_lex_irrefl(a: Seq<char>)
    ensures
        !lex_lt(a, a),
    decreases a.len(),
{
    if a.len() > 0 {
        lemma_lex_irrefl(a.drop_first());
    }
}

pub proof fn lemma_lex_trans(a: Seq<char>, b: Seq<char>, c: Seq<char>)
    requires
        lex_lt(a, b),
        lex_lt(b, c),
    ensures
        lex_lt(a, c),
    decreases a.len(),
{
    if a.len() > 0 && b.len() > 0 && c.len() > 0 {
        if a[0] == b[0] && b[0] == c[0] {
            lemma_lex_trans(a.drop_first(), b.drop_first(), c.drop_first());
        }
    }
}

pub proof fn lemma_lex_total(a: Seq<char>, b: Seq<char>)
    ensures
        a == b || lex_lt(a, b) || lex_lt(b, a),
    decreases a.len(),
{
    if a.len() > 0 && b.len() > 0 && a[0] == b[0] {
        lemma_lex_total(a.drop_first(), b.drop_first());
        if a.drop_first() == b.drop_first() {
            assert(a =~= seq![a[0]] + a.drop_first());
            assert(b =~= seq![b[0]] + b.drop_first());
        }
    } else if a.len() == 0 && b.len() == 0 {
        assert(a =~= b);
    }
}

pub proof fn lemma_lex_asym(a: Seq<char>, b: Seq<char>)
    requires
        lex_lt(a, b),
    ensures
        !lex_lt(b, a),
{
    if lex_lt(b, a) {
        lemma_lex_trans(a, b, a);
        lemma_lex_irrefl(a);
    }
}

/// Exec: `a < b` for character vectors.
pub fn lex_lt_exec(a: &Vec<char>, b: &Vec<char>) -> (r: bool)
    ensures
        r == lex_lt(a@, b@),
{
    let mut i: usize = 0;
    assert(a@.subrange(0, a@.len() as int) =~= a@);
    assert(b@.subrange(0, b@.len() as int) =~= b@);
    while i < a.len() && i < b.len()
        invariant
            0 <= i <= a.len(),
            i <= b.len(),
            lex_lt(a@, b@) == lex_lt(a@.subrange(i as int, a@.len() as int), b@.subrange(
                i as int,
                b@.len() as int,
            )),
        decreases a.len() - i,
    {
        if a[i] < b[i] {
            return true;
        }
        if a[i] > b[i] {
            return false;
        }
        assert(a@.subrange(i as int, a@.len() as int).drop_first() =~= a@.subrange(
            i + 1,
            a@.len() as int,
        ));
        assert(b@.subrange(i as int, b@.len() as int).drop_first() =~= b@.subrange(
            i + 1,
            b@.len() as int,
        ));
        i = i + 1;
    }
    i < b.len()
}

/// Strictly increasing: sorted and free of duplicates.
pub open spec fn strictly_sorted(s: Seq<Seq<char>>) -> bool {
    forall|i: int, j: int| 0 <= i < j < s.len() ==> lex_lt(#[trigger] s[i], #[trigger] s[j])
}

/// The strictly increasing sequence that holds exactly the elements of a finite set.
pub open spec fn sorted_of_set(set: Set<Seq<char>>) -> Seq<Seq<char>> {
    choose|r: Seq<Seq<char>>| strictly_sorted(r) && r.to_set() == set
}

proof fn lemma_sorted_first_is_min(s: Seq<Seq<char>>, x: Seq<char>)
    requires
        strictly_sorted(s),
        s.contains(x),
        s.len() > 0,
    ensures
        s[0] == x || lex_lt(s[0], x),
{
    let k = choose|k: int| 0 <= k < s.len() && s[k] == x;
    if k > 0 {
        assert(lex_lt(s[0], s[k]));
    }
}

/// Two strictly sorted sequences with the same elements are equal.
pub proof fn lemma_sorted_unique(a: Seq<Seq<char>>, b: Seq<Seq<char>>)
    requires
        strictly_sorted(a),
        strictly_sorted(b),
        a.to_set() == b.to_set(),
    ensures
        a == b,
    decreases a.len(),
{
    if a.len() == 0 {
        if b.len() > 0 {
            assert(b.to_set().contains(b[0]));
            assert(a.to_set().contains(b[0]));
        }
        assert(a =~= b);
    } else if b.len() == 0 {
        assert(a.to_set().contains(a[0]));
        assert(b.to_set().contains(a[0]));
    } else {
        assert(a.to_set().contains(a[0]));
        assert(b.to_set().contains(b[0]));
        assert(b.contains(a[0]));
        assert(a.contains(b[0]));
        lemma_sorted_first_is_min(a, b[0]);
        lemma_sorted_first_is_min(b, a[0]);
        if a[0] != b[0] {
            lemma_lex_asym(a[0], b[0]);
        }
        let a1 = a.drop_first();
        let b1 = b.drop_first();
        assert forall|x: Seq<char>| a1.to_set().contains(x) == b1.to_set().contains(x) by {
            if a1.to_set().contains(x) {
                let k = choose|k: int| 0 <= k < a1.len() && a1[k] == x;
                assert(a[k + 1] == x);
                assert(lex_lt(a[0], a[k + 1]));
                assert(a.to_set().contains(x));
                assert(b.contains(x));
                let m = choose|m: int| 0 <= m < b.len() && b[m] == x;
                if m == 0 {
                    lemma_lex_irrefl(a[0]);
                }
                assert(b1[m - 1] == x);
            }
            if b1.to_set().contains(x) {
                let k = choose|k: int| 0 <= k < b1.len() && b1[k] == x;
                assert(b[k + 1] == x);
                assert(lex_lt(b[0], b[k + 1]));
                assert(b.to_set().contains(x));
                assert(a.contains(x));
                let m = choose|m: int| 0 <= m < a.len() && a[m] == x;
                if m == 0 {
                    lemma_lex_irrefl(b[0]);
                }
                assert(a1[m - 1] == x);
            }
        }
        assert(a1.to_set() =~= b1.to_set());
        assert forall|i: int, j: int| 0 <= i < j < a1.len() implies lex_lt(
            #[trigger] a1[i],
            #[trigger] a1[j],
        ) by {
            assert(lex_lt(a[i + 1], a[j + 1]));
        }
        assert forall|i: int, j: int| 0 <= i < j < b1.len() implies lex_lt(
            #[trigger] b1[i],
            #[trigger] b1[j],
        ) by {
            assert(lex_lt(b[i + 1], b[j + 1]));
        }
        lemma_sorted_unique(a1, b1);
        assert(a =~= seq![a[0]] + a1);
        assert(b =~= seq![b[0]] + b1);
    }
}

/// A strictly sorted sequence is the sorted form of its own set.
pub proof fn lemma_sorted_of_set(s: Seq<Seq<char>>)
    requires
        strictly_sorted(s),
    ensures
        sorted_of_set(s.to_set()) == s,
{
    let r = sorted_of_set(s.to_set());
    assert(strictly_sorted(s) && s.to_set() == s.to_set());
    lemma_sorted_unique(r, s);
}

/// Pushing onto a sequence inserts into its set.
pub proof fn lemma_push_to_set<T>(s: Seq<T>, x: T)
    ensures
        s.push(x).to_set() == s.to_set().insert(x),
{
    assert forall|y: T| s.push(x).to_set().contains(y) == s.to_set().insert(x).contains(y) by {
        if s.push(x).to_set().contains(y) {
            let k = choose|k: int| 0 <= k < s.push(x).len() && s.push(x)[k] == y;
            if k < s.len() {
                assert(s[k] == y);
            }
        }
        if s.to_set().contains(y) {
            let k = choose|k: int| 0 <= k < s.len() && s[k] == y;
            assert(s.push(x)[k] == y);
        }
        if y == x {
            assert(s.push(x)[s.len() as int] == y);
        }
    }
    assert(s.push(x).to_set() =~= s.to_set().insert(x));
}

/// Exec: inserts `w` into a strictly sorted vector unless it is already there.
pub fn insert_sorted_unique(acc: &mut Vec<Vec<char>>, w: Vec<char>)
    requires
        strictly_sorted(old(acc)@.map_values(|v: Vec<char>| v@)),
    ensures
        strictly_sorted(final(acc)@.map_values(|v: Vec<char>| v@)),
        final(acc)@.map_values(|v: Vec<char>| v@).to_set() == old(acc)@.map_values(
            |v: Vec<char>| v@,
        ).to_set().insert(w@),
{
    let ghost old_s = acc@.map_values(|v: Vec<char>| v@);
    let mut p: usize = 0;
    while p < acc.len() && lex_lt_exec(&acc[p], &w)
        invariant
            0 <= p <= acc.len(),
            acc@.map_values(|v: Vec<char>| v@) == old_s,
            forall|i: int| 0 <= i < p ==> lex_lt(#[trigger] old_s[i], w@),
        decreases acc.len() - p,
    {
        p = p + 1;
    }
    if p < acc.len() && crate::text::chars_eq(&acc[p], &w) {
        assert(old_s[p as int] == w@);
        assert(old_s.to_set().insert(w@) =~= old_s.to_set());
        return;
    }
    let ghost wv = w@;
    acc.insert(p, w);
    let ghost new_s = acc@.map_values(|v: Vec<char>| v@);
    assert(new_s =~= old_s.insert(p as int, wv));
    proof {
        if p < old_s.len() {
            lemma_lex_total(old_s[p as int], wv);
        }
        assert forall|i: int, j: int| 0 <= i < j < new_s.len() implies lex_lt(
            #[trigger] new_s[i],
            #[trigger] new_s[j],
        ) by {
            if i < p && j < p {
                assert(lex_lt(old_s[i], old_s[j]));
            } else if i < p && j == p {
            } else if i < p && j > p {
                assert(lex_lt(old_s[i], old_s[j - 1]));
            } else if i == p {
                if j - 1 > p {
                    assert(lex_lt(old_s[p as int], old_s[j - 1]));
                    lemma_lex_trans(wv, old_s[p as int], old_s[j - 1]);
                }
            } else {
                assert(lex_lt(old_s[i - 1], old_s[j - 1]));
            }
        }
        assert(new_s.to_set() =~= old_s.to_set().insert(wv)) by {
            assert forall|x: Seq<char>| new_s.to_set().contains(x) implies old_s.to_set().insert(
                wv,
            ).contains(x) by {
                let k = choose|k: int| 0 <= k < new_s.len() && new_s[k] == x;
                if k < p {
                    assert(old_s[k] == x);
                } else if k > p {
                    assert(old_s[k - 1] == x);
                }
            }
            assert forall|x: Seq<char>| old_s.to_set().insert(wv).contains(x) implies new_s.to_set().contains(x) by {
                if x == wv {
                    assert(new_s[p as int] == x);
                } else {
                    let k = choose|k: int| 0 <= k < old_s.len() && old_s[k] == x;
                    if k < p {
                        assert(new_s[k] == x);
                    } else {
                        assert(new_s[k + 1] == x);
                    }
                }
            }
        }
    }
}

} // verus!

verus! {

/// Exec: binary search of `t` in a strictly sorted vector. Returns whether it is present and
/// its position, or the position where it would be inserted.
pub fn find_sorted(v: &Vec<Vec<char>>, t: &Vec<char>) -> (r: (bool, usize))
    requires
        strictly_sorted(v@.map_values(|x: Vec<char>| x@)),
    ensures
        r.1 <= v@.len(),
        r.0 ==> r.1 < v@.len() && v@[r.1 as int]@ == t@,
        !r.0 ==> (forall|i: int| 0 <= i < r.1 ==> lex_lt(#[trigger] v@[i]@, t@)) && (forall|i: int|
            r.1 <= i < v@.len() ==> lex_lt(t@, #[trigger] v@[i]@)),
{
    let ghost s = v@.map_values(|x: Vec<char>| x@);
    let mut lo: usize = 0;
    let mut hi: usize = v.len();
    while lo < hi
        invariant
            0 <= lo <= hi <= v@.len(),
            s == v@.map_values(|x: Vec<char>| x@),
            strictly_sorted(s),
            forall|i: int| 0 <= i < lo ==> lex_lt(#[trigger] v@[i]@, t@),
            forall|i: int| hi <= i < v@.len() ==> lex_lt(t@, #[trigger] v@[i]@),
        decreases hi - lo,
    {
        let mid = lo + (hi - lo) / 2;
        if lex_lt_exec(&v[mid], t) {
            assert forall|i: int| 0 <= i < mid + 1 implies lex_lt(#[trigger] v@[i]@, t@) by {
                if i < mid {
                    assert(lex_lt(s[i], s[mid as int]));
                    lemma_lex_trans(v@[i]@, v@[mid as int]@, t@);
                }
            }
            lo = mid + 1;
        } else if crate::text::chars_eq(&v[mid], t) {
            return (true, mid);
        } else {
            proof {
                lemma_lex_total(v@[mid as int]@, t@);
            }
            assert forall|i: int| mid <= i < v@.len() implies lex_lt(t@, #[trigger] v@[i]@) by {
                if i > mid && i < hi {
                    assert(lex_lt(s[mid as int], s[i]));
                    lemma_lex_trans(t@, v@[mid as int]@, v@[i]@);
                }
            }
            hi = mid;
        }
    }
    (false, lo)
}

} // verus!

verus! {

/// Inserting at the position a failed binary search reports keeps a sequence strictly sorted.
pub proof fn lemma_insert_keeps_sorted(s: Seq<Seq<char>>, p: int, w: Seq<char>)
    requires
        strictly_sorted(s),
        0 <= p <= s.len(),
        forall|i: int| 0 <= i < p ==> lex_lt(#[trigger] s[i], w),
        forall|i: int| p <= i < s.len() ==> lex_lt(w, #[trigger] s[i]),
    ensures
        strictly_sorted(s.insert(p, w)),
{
    let n = s.insert(p, w);
    assert forall|i: int, j: int| 0 <= i < j < n.len() implies lex_lt(
        #[trigger] n[i],
        #[trigger] n[j],
    ) by {
        if i < p && j < p {
            assert(lex_lt(s[i], s[j]));
        } else if i < p && j == p {
        } else if i < p && j > p {
            assert(lex_lt(s[i], s[j - 1]));
        } else if i == p {
            assert(lex_lt(w, s[j - 1]));
        } else {
            assert(lex_lt(s[i - 1], s[j - 1]));
        }
    }
}

/// In a strictly sorted sequence an element occurs at one position only.
pub proof fn lemma_sorted_unique_pos(s: Seq<Seq<char>>, i: int, j: int)
    requires
        strictly_sorted(s),
        0 <= i < s.len(),
        0 <= j < s.len(),
        s[i] == s[j],
    ensures
        i == j,
{
    if i < j {
        assert(lex_lt(s[i], s[j]));
        lemma_lex_irrefl(s[i]);
    } else if j < i {
        assert(lex_lt(s[j], s[i]));
        lemma_lex_irrefl(s[i]);
    }
}

} // verus!
