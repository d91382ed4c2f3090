//! Slash-separated path handling, as `std::path` does it for relative Unix paths:
//! component normalization, file names and extensions.
use vstd::prelude::*;
use crate::text::{append_chars, join_with, lemma_join_with_push};

verus! {

broadcast use vstd::seq::group_seq_axioms;

/// The pieces of `s` between `sep` characters over its first `k` characters (empty ones too).
pub open spec fn split_pieces(s: Seq<char>, sep: char, k: int) -> Seq<Seq<char>>
    decreases k,
{
    if k <= 0 {
        seq![Seq::empty()]
    } else {
        let p = split_pieces(s, sep, k - 1);
        if s[k - 1] == sep {
            p.push(Seq::empty())
        } else {
            p.drop_last().push(p.last().push(s[k - 1]))
        }
    }
}

/// `str::split(sep)`: every piece, empty ones included.
pub open spec fn split_all(s: Seq<char>, sep: char) -> Seq<Seq<char>> {
    split_pieces(s, sep, s.len() as int)
}

pub proof fn lemma_split_pieces_nonempty(s: Seq<char>, sep: char, k: int)
    ensures
        split_pieces(s, sep, k).len() > 0,
    decreases k,
{
    if k > 0 {
        lemma_split_pieces_nonempty(s, sep, k - 1);
    }
}

/// Exec: `str::split(sep)`.
pub fn split_exec(s: &Vec<char>, sep: char) -> (r: Vec<Vec<char>>)
    ensures
        r@.map_values(|v: Vec<char>| v@) == split_all(s@, sep),
{
    let mut done: Vec<Vec<char>> = Vec::new();
    let mut cur: Vec<char> = Vec::new();
    let mut i: usize = 0;
    assert(split_pieces(s@, sep, 0).drop_last() =~= Seq::<Seq<char>>::empty());
    while i < s.len()
        invariant
            0 <= i <= s.len(),
            split_pieces(s@, sep, i as int).len() > 0,
            done@.map_values(|v: Vec<char>| v@) == split_pieces(s@, sep, i as int).drop_last(),
            cur@ == split_pieces(s@, sep, i as int).last(),
        decreases s.len() - i,
    {
        let ghost p = split_pieces(s@, sep, i as int);
        if s[i] == sep {
            let ghost cv = cur@;
            done.push(cur);
            cur = Vec::new();
            assert(done@.map_values(|v: Vec<char>| v@) =~= p.drop_last().push(cv));
            assert(p.push(Seq::empty()).drop_last() =~= p.drop_last().push(cv));
        } else {
            cur.push(s[i]);
            assert(p.drop_last().push(p.last().push(s[i as int])).drop_last() =~= p.drop_last());
        }
        i = i + 1;
        proof {
            lemma_split_pieces_nonempty(s@, sep, i as int);
        }
    }
    let ghost p = split_pieces(s@, sep, i as int);
    let ghost cv = cur@;
    let ghost db = done@.map_values(|v: Vec<char>| v@);
    done.push(cur);
    assert(done@.map_values(|v: Vec<char>| v@) =~= db.push(cv));
    assert(p =~= p.drop_last().push(p.last()));
    done
}

pub open spec fn is_dot(seg: Seq<char>) -> bool {
    seg == seq!['.']
}

pub open spec fn is_dotdot(seg: Seq<char>) -> bool {
    seg == seq!['.', '.']
}

/// Segments folded the way `PathBuf` normalization does: empty and `.` segments vanish,
/// `..` removes the previous kept segment (nothing when there is none).
pub open spec fn fold_segments(segs: Seq<Seq<char>>) -> Seq<Seq<char>>
    decreases segs.len(),
{
    if segs.len() == 0 {
        Seq::empty()
    } else {
        let prev = fold_segments(segs.drop_last());
        let s = segs.last();
        if s.len() == 0 || is_dot(s) {
            prev
        } else if is_dotdot(s) {
            if prev.len() > 0 {
                prev.drop_last()
            } else {
                prev
            }
        } else {
            prev.push(s)
        }
    }
}

/// `Path::new(base).join(rel)`, normalized and written with `/` separators.
pub open spec fn normalize_relative(base: Seq<char>, rel: Seq<char>) -> Seq<char> {
    let joined = if rel.len() > 0 && rel[0] == '/' {
        rel
    } else {
        base + seq!['/'] + rel
    };
    join_with(fold_segments(split_all(joined, '/')), seq!['/'])
}

proof fn lemma_fold_push(segs: Seq<Seq<char>>, s: Seq<char>)
    ensures
        fold_segments(segs.push(s)) == if s.len() == 0 || is_dot(s) {
            fold_segments(segs)
        } else if is_dotdot(s) {
            if fold_segments(segs).len() > 0 {
                fold_segments(segs).drop_last()
            } else {
                fold_segments(segs)
            }
        } else {
            fold_segments(segs).push(s)
        },
{
    assert(segs.push(s).drop_last() =~= segs);
}

/// A kept path segment: non-empty, neither `.` nor `..`, without `/`.
pub open spec fn normal_segment(s: Seq<char>) -> bool {
    s.len() > 0 && !is_dot(s) && !is_dotdot(s) && !s.contains('/')
}

/// Splitting depends only on the characters already read.
proof fn lemma_split_pieces_prefix(a: Seq<char>, b: Seq<char>, sep: char, k: int)
    requires
        0 <= k <= a.len(),
    ensures
        split_pieces(a + b, sep, k) == split_pieces(a, sep, k),
    decreases k,
{
    if k > 0 {
        lemma_split_pieces_prefix(a, b, sep, k - 1);
        assert((a + b)[k - 1] == a[k - 1]);
    }
}

/// The pieces of `a`, a separator and `b` are those of `a` followed by those of `b`.
proof fn lemma_split_concat(a: Seq<char>, b: Seq<char>, sep: char, j: int)
    requires
        0 <= j <= b.len(),
    ensures
        split_pieces(a + seq![sep] + b, sep, a.len() + 1 + j) == split_all(a, sep) + split_pieces(b, sep, j),
    decreases j,
{
    let s = a + seq![sep] + b;
    lemma_split_pieces_nonempty(b, sep, j);
    if j == 0 {
        lemma_split_pieces_prefix(a, seq![sep] + b, sep, a.len() as int);
        assert(s =~= a + (seq![sep] + b));
        assert(s[a.len() as int] == sep);
        assert(split_pieces(b, sep, 0) =~= seq![Seq::<char>::empty()]);
    } else {
        lemma_split_concat(a, b, sep, j - 1);
        lemma_split_pieces_nonempty(b, sep, j - 1);
        let pa = split_all(a, sep);
        let pb = split_pieces(b, sep, j - 1);
        assert(s[a.len() + 1 + j - 1] == b[j - 1]);
        if b[j - 1] == sep {
            assert((pa + pb).push(Seq::empty()) =~= pa + pb.push(Seq::empty()));
        } else {
            assert((pa + pb).drop_last() =~= pa + pb.drop_last());
            assert((pa + pb).last() == pb.last());
            assert((pa + pb).drop_last().push((pa + pb).last().push(b[j - 1])) =~= pa + pb.drop_last().push(
                pb.last().push(b[j - 1]),
            ));
        }
    }
}

/// A piece without separators splits into itself.
proof fn lemma_split_single(w: Seq<char>, sep: char, k: int)
    requires
        0 <= k <= w.len(),
        !w.contains(sep),
    ensures
        split_pieces(w, sep, k) == seq![w.subrange(0, k)],
    decreases k,
{
    if k > 0 {
        lemma_split_single(w, sep, k - 1);
        assert(w[k - 1] != sep) by {
            if w[k - 1] == sep {
                assert(w.contains(w[k - 1]));
            }
        }
        assert(w.subrange(0, k - 1).push(w[k - 1]) =~= w.subrange(0, k));
        assert(seq![w.subrange(0, k - 1)].drop_last().push(w.subrange(0, k - 1).push(w[k - 1])) =~= seq![w.subrange(0, k)]);
    } else {
        assert(w.subrange(0, 0) =~= Seq::<char>::empty());
    }
}

/// Normal segments joined with `/` split back into themselves.
pub proof fn lemma_split_join(segs: Seq<Seq<char>>)
    requires
        segs.len() > 0,
        forall|i: int| 0 <= i < segs.len() ==> normal_segment(#[trigger] segs[i]),
    ensures
        split_all(join_with(segs, seq!['/']), '/') == segs,
    decreases segs.len(),
{
    if segs.len() == 1 {
        lemma_split_single(segs[0], '/', segs[0].len() as int);
        assert(segs[0].subrange(0, segs[0].len() as int) =~= segs[0]);
        assert(segs =~= seq![segs[0]]);
    } else {
        let init = segs.drop_last();
        let w = segs.last();
        lemma_split_join(init);
        let a = join_with(init, seq!['/']);
        assert(join_with(segs, seq!['/']) == a + seq!['/'] + w);
        lemma_split_concat(a, w, '/', w.len() as int);
        lemma_split_single(w, '/', w.len() as int);
        assert(w.subrange(0, w.len() as int) =~= w);
        assert(a + seq!['/'] + w =~= a + seq!['/'] + w);
        assert(init + seq![w] =~= segs);
    }
}

/// Folding normal segments keeps them.
pub proof fn lemma_fold_normal(segs: Seq<Seq<char>>)
    requires
        forall|i: int| 0 <= i < segs.len() ==> normal_segment(#[trigger] segs[i]),
    ensures
        fold_segments(segs) == segs,
    decreases segs.len(),
{
    if segs.len() > 0 {
        lemma_fold_normal(segs.drop_last());
        assert(normal_segment(segs[segs.len() - 1]));
        assert(segs.drop_last().push(segs.last()) =~= segs);
    }
}

/// A leading empty segment folds away.
pub proof fn lemma_fold_leading_empty(segs: Seq<Seq<char>>)
    ensures
        fold_segments(seq![Seq::<char>::empty()] + segs) == fold_segments(segs),
    decreases segs.len(),
{
    let e = seq![Seq::<char>::empty()];
    if segs.len() == 0 {
        assert(e + segs =~= Seq::<Seq<char>>::empty().push(Seq::<char>::empty()));
        lemma_fold_push(Seq::<Seq<char>>::empty(), Seq::<char>::empty());
    } else {
        lemma_fold_leading_empty(segs.drop_last());
        assert(e + segs =~= (e + segs.drop_last()).push(segs.last()));
        assert(segs =~= segs.drop_last().push(segs.last()));
        lemma_fold_push(e + segs.drop_last(), segs.last());
        lemma_fold_push(segs.drop_last(), segs.last());
    }
}

/// Every piece of a split is free of the separator.
pub proof fn lemma_split_pieces_no_sep(s: Seq<char>, sep: char, k: int)
    requires
        0 <= k <= s.len(),
    ensures
        forall|i: int| 0 <= i < split_pieces(s, sep, k).len() ==> !(#[trigger] split_pieces(s, sep, k)[i]).contains(sep),
    decreases k,
{
    if k > 0 {
        lemma_split_pieces_no_sep(s, sep, k - 1);
        lemma_split_pieces_nonempty(s, sep, k - 1);
        let p = split_pieces(s, sep, k - 1);
        let q = split_pieces(s, sep, k);
        if s[k - 1] == sep {
            assert forall|i: int| 0 <= i < q.len() implies !(#[trigger] q[i]).contains(sep) by {
                if i < p.len() {
                    assert(q[i] == p[i]);
                } else {
                    assert(q[i] =~= Seq::<char>::empty());
                }
            }
        } else {
            assert forall|i: int| 0 <= i < q.len() implies !(#[trigger] q[i]).contains(sep) by {
                if i < p.len() - 1 {
                    assert(q[i] == p[i]);
                } else {
                    let l = p.last();
                    assert(q[i] == l.push(s[k - 1]));
                    assert(!l.contains(sep)) by {
                        assert(l == p[p.len() - 1]);
                    }
                    if q[i].contains(sep) {
                        let t = choose|t: int| 0 <= t < q[i].len() && q[i][t] == sep;
                        if t < l.len() {
                            assert(l[t] == sep);
                            assert(l.contains(l[t]));
                        }
                    }
                }
            }
        }
    } else {
        assert(split_pieces(s, sep, 0) =~= seq![Seq::<char>::empty()]);
    }
}

/// Folding keeps only normal segments of pieces without `/`.
pub proof fn lemma_fold_gives_normal(segs: Seq<Seq<char>>)
    requires
        forall|i: int| 0 <= i < segs.len() ==> !(#[trigger] segs[i]).contains('/'),
    ensures
        forall|i: int| 0 <= i < fold_segments(segs).len() ==> normal_segment(#[trigger] fold_segments(segs)[i]),
    decreases segs.len(),
{
    if segs.len() > 0 {
        let init = segs.drop_last();
        assert forall|i: int| 0 <= i < init.len() implies !(#[trigger] init[i]).contains('/') by {
            assert(init[i] == segs[i]);
        }
        lemma_fold_gives_normal(init);
        let prev = fold_segments(init);
        let s = segs.last();
        assert(!s.contains('/')) by {
            assert(s == segs[segs.len() - 1]);
        }
        let f = fold_segments(segs);
        if !(s.len() == 0 || is_dot(s)) && is_dotdot(s) && prev.len() > 0 {
            assert forall|i: int| 0 <= i < f.len() implies normal_segment(#[trigger] f[i]) by {
                assert(f[i] == prev[i]);
            }
        } else if !(s.len() == 0 || is_dot(s)) && !is_dotdot(s) {
            assert forall|i: int| 0 <= i < f.len() implies normal_segment(#[trigger] f[i]) by {
                if i < prev.len() {
                    assert(f[i] == prev[i]);
                }
            }
        }
    }
}

/// A join begins with its first piece.
pub proof fn lemma_join_starts_with_first(ws: Seq<Seq<char>>, sep: Seq<char>)
    requires
        ws.len() > 0,
    ensures
        join_with(ws, sep).len() >= ws[0].len(),
        join_with(ws, sep).subrange(0, ws[0].len() as int) == ws[0],
    decreases ws.len(),
{
    if ws.len() == 1 {
        assert(join_with(ws, sep) == ws[0]);
        assert(ws[0].subrange(0, ws[0].len() as int) =~= ws[0]);
    } else {
        lemma_join_starts_with_first(ws.drop_last(), sep);
        let a = join_with(ws.drop_last(), sep);
        assert(ws.drop_last()[0] == ws[0]);
        assert(join_with(ws, sep) == a + sep + ws.last());
        assert((a + sep + ws.last()).subrange(0, ws[0].len() as int) =~= a.subrange(0, ws[0].len() as int));
    }
}

/// The pieces of `/` followed by `b` are an empty piece and those of `b`.
pub proof fn lemma_split_leading_sep(b: Seq<char>)
    ensures
        split_all(seq!['/'] + b, '/') == seq![Seq::<char>::empty()] + split_all(b, '/'),
{
    lemma_split_concat(Seq::<char>::empty(), b, '/', b.len() as int);
    assert(Seq::<char>::empty() + seq!['/'] + b =~= seq!['/'] + b);
    assert(split_all(Seq::<char>::empty(), '/') =~= seq![Seq::<char>::empty()]);
}

fn seg_is_dot(s: &Vec<char>) -> (r: bool)
    ensures
        r == is_dot(s@),
{
    let r = s.len() == 1 && s[0] == '.';
    proof {
        if r {
            assert(s@ =~= seq!['.']);
        }
    }
    r
}

fn seg_is_dotdot(s: &Vec<char>) -> (r: bool)
    ensures
        r == is_dotdot(s@),
{
    let r = s.len() == 2 && s[0] == '.' && s[1] == '.';
    proof {
        if r {
            assert(s@ =~= seq!['.', '.']);
        }
    }
    r
}

/// Exec: `fold_segments`.
pub fn fold_segments_exec(segs: Vec<Vec<char>>) -> (r: Vec<Vec<char>>)
    ensures
        r@.map_values(|v: Vec<char>| v@) == fold_segments(segs@.map_values(|v: Vec<char>| v@)),
{
    let ghost sv = segs@.map_values(|v: Vec<char>| v@);
    let mut out: Vec<Vec<char>> = Vec::new();
    let mut segs = segs;
    let mut rest: Vec<Vec<char>> = Vec::new();
    // reverse so that popping yields the segments in order
    while segs.len() > 0
        invariant
            rest@.map_values(|v: Vec<char>| v@) + segs@.map_values(|v: Vec<char>| v@).reverse()
                == sv.reverse(),
        decreases segs.len(),
    {
        let ghost before = segs@.map_values(|v: Vec<char>| v@);
        let ghost rb = rest@.map_values(|v: Vec<char>| v@);
        let x = segs.pop().unwrap();
        let ghost xv = x@;
        rest.push(x);
        assert(before =~= segs@.map_values(|v: Vec<char>| v@).push(xv));
        assert(before.reverse() =~= seq![xv] + segs@.map_values(|v: Vec<char>| v@).reverse());
        assert(rest@.map_values(|v: Vec<char>| v@) =~= rb.push(xv));
    }
    assert(rest@.map_values(|v: Vec<char>| v@) =~= sv.reverse());
    let n = rest.len();
    let mut i: usize = 0;
    while i < n
        invariant
            n == sv.len(),
            0 <= i <= n,
            rest@.len() == n - i,
            rest@.map_values(|v: Vec<char>| v@) == sv.reverse().subrange(0, (n - i) as int),
            out@.map_values(|v: Vec<char>| v@) == fold_segments(sv.subrange(0, i as int)),
        decreases n - i,
    {
        let ghost rb = rest@.map_values(|v: Vec<char>| v@);
        let s = rest.pop().unwrap();
        assert(s@ == rb.last());
        assert(sv.reverse()[(n - i - 1) as int] == sv[i as int]);
        assert(s@ == sv[i as int]);
        proof {
            lemma_fold_push(sv.subrange(0, i as int), s@);
            assert(sv.subrange(0, i + 1) =~= sv.subrange(0, i as int).push(s@));
            assert(rest@.map_values(|v: Vec<char>| v@) =~= sv.reverse().subrange(0, (n - i - 1) as int));
        }
        let ghost ob = out@.map_values(|v: Vec<char>| v@);
        if s.len() == 0 || seg_is_dot(&s) {
        } else if seg_is_dotdot(&s) {
            if out.len() > 0 {
                out.pop();
                assert(out@.map_values(|v: Vec<char>| v@) =~= ob.drop_last());
            }
        } else {
            let ghost svv = s@;
            out.push(s);
            assert(out@.map_values(|v: Vec<char>| v@) =~= ob.push(svv));
        }
        i = i + 1;
    }
    assert(sv.subrange(0, n as int) =~= sv);
    out
}

/// Exec: joins segments with `sep`.
pub fn join_exec(segs: &Vec<Vec<char>>, sep: &Vec<char>) -> (r: Vec<char>)
    ensures
        r@ == join_with(segs@.map_values(|v: Vec<char>| v@), sep@),
{
    let ghost sv = segs@.map_values(|v: Vec<char>| v@);
    let mut out: Vec<char> = Vec::new();
    let mut i: usize = 0;
    while i < segs.len()
        invariant
            0 <= i <= segs.len(),
            sv == segs@.map_values(|v: Vec<char>| v@),
            out@ == join_with(sv.subrange(0, i as int), sep@),
        decreases segs.len() - i,
    {
        proof {
            lemma_join_with_push(sv.subrange(0, i as int), sep@, sv[i as int]);
            assert(sv.subrange(0, i + 1) =~= sv.subrange(0, i as int).push(sv[i as int]));
        }
        if i > 0 {
            append_chars(&mut out, sep);
        }
        append_chars(&mut out, &segs[i]);
        i = i + 1;
    }
    assert(sv.subrange(0, i as int) =~= sv);
    out
}

/// Exec: `normalize_relative`.
pub fn normalize_relative_exec(base: &Vec<char>, rel: &Vec<char>) -> (r: Vec<char>)
    ensures
        r@ == normalize_relative(base@, rel@),
{
    let mut joined: Vec<char> = Vec::new();
    if rel.len() > 0 && rel[0] == '/' {
        append_chars(&mut joined, rel);
        assert(joined@ =~= rel@);
    } else {
        append_chars(&mut joined, base);
        joined.push('/');
        append_chars(&mut joined, rel);
        assert(joined@ =~= base@ + seq!['/'] + rel@);
    }
    let segs = split_exec(&joined, '/');
    let folded = fold_segments_exec(segs);
    let mut sep: Vec<char> = Vec::new();
    sep.push('/');
    assert(sep@ =~= seq!['/']);
    join_exec(&folded, &sep)
}

// ---------------------------------------------------------------------------
// File names and extensions
// ---------------------------------------------------------------------------

/// The non-empty, non-`.` segments of a path, as `Path::components` lists its normal parts.
pub open spec fn kept_segments(segs: Seq<Seq<char>>) -> Seq<Seq<char>>
    decreases segs.len(),
{
    if segs.len() == 0 {
        Seq::empty()
    } else if segs.last().len() == 0 || is_dot(segs.last()) {
        kept_segments(segs.drop_last())
    } else {
        kept_segments(segs.drop_last()).push(segs.last())
    }
}

/// `Path::file_name`: the last component unless it is `..` (or there is none).
pub open spec fn file_name(p: Seq<char>) -> Option<Seq<char>> {
    let ks = kept_segments(split_all(p, '/'));
    if ks.len() == 0 || is_dotdot(ks.last()) {
        None
    } else {
        Some(ks.last())
    }
}

/// Index of the last `.` in `f`, if any.
pub open spec fn last_dot(f: Seq<char>) -> Option<int> {
    if exists|i: int| 0 <= i < f.len() && f[i] == '.' {
        Some(
            choose|i: int|
                0 <= i < f.len() && f[i] == '.' && forall|j: int| i < j < f.len() ==> f[j] != '.',
        )
    } else {
        None
    }
}

/// `Path::extension`: what follows the last `.` of the file name, when that `.` is not its
/// first character.
pub open spec fn extension(p: Seq<char>) -> Option<Seq<char>> {
    match file_name(p) {
        None => None,
        Some(f) => match last_dot(f) {
            Some(i) => if i > 0 {
                Some(f.subrange(i + 1, f.len() as int))
            } else {
                None
            },
            None => None,
        },
    }
}

proof fn lemma_kept_push(segs: Seq<Seq<char>>, s: Seq<char>)
    ensures
        kept_segments(segs.push(s)) == if s.len() == 0 || is_dot(s) {
            kept_segments(segs)
        } else {
            kept_segments(segs).push(s)
        },
{
    assert(segs.push(s).drop_last() =~= segs);
}

/// Exec: `file_name`.
pub fn file_name_exec(p: &Vec<char>) -> (r: Option<Vec<char>>)
    ensures
        match r {
            Some(f) => file_name(p@) == Some(f@),
            None => file_name(p@) is None,
        },
{
    let segs = split_exec(p, '/');
    let ghost sv = segs@.map_values(|v: Vec<char>| v@);
    let mut last: Option<usize> = None;
    let mut i: usize = 0;
    while i < segs.len()
        invariant
            0 <= i <= segs.len(),
            sv == segs@.map_values(|v: Vec<char>| v@),
            match last {
                Some(k) => k < i && kept_segments(sv.subrange(0, i as int)).len() > 0
                    && kept_segments(sv.subrange(0, i as int)).last() == sv[k as int],
                None => kept_segments(sv.subrange(0, i as int)).len() == 0,
            },
        decreases segs.len() - i,
    {
        proof {
            lemma_kept_push(sv.subrange(0, i as int), sv[i as int]);
            assert(sv.subrange(0, i + 1) =~= sv.subrange(0, i as int).push(sv[i as int]));
        }
        if !(segs[i].len() == 0 || seg_is_dot(&segs[i])) {
            last = Some(i);
        }
        i = i + 1;
    }
    assert(sv.subrange(0, i as int) =~= sv);
    match last {
        None => None,
        Some(k) => {
            if seg_is_dotdot(&segs[k]) {
                None
            } else {
                let f = crate::text::sub_chars(&segs[k], 0, segs[k].len());
                assert(segs[k as int]@.subrange(0, segs[k as int]@.len() as int) =~= segs[k as int]@);
                Some(f)
            }
        },
    }
}

/// Exec: `extension`.
pub fn extension_exec(p: &Vec<char>) -> (r: Option<Vec<char>>)
    ensures
        match r {
            Some(e) => extension(p@) == Some(e@),
            None => extension(p@) is None,
        },
{
    match file_name_exec(p) {
        None => None,
        Some(f) => {
            let mut i = f.len();
            while i > 0 && f[i - 1] != '.'
                invariant
                    0 <= i <= f.len(),
                    forall|j: int| i <= j < f.len() ==> f@[j] != '.',
                decreases i,
            {
                i = i - 1;
            }
            if i == 0 {
                proof {
                    assert(!(exists|k: int| 0 <= k < f@.len() && f@[k] == '.'));
                }
                None
            } else {
                let d = i - 1;
                proof {
                    let ld = last_dot(f@).unwrap();
                    assert(f@[d as int] == '.');
                    if ld < d {
                        assert(f@[d as int] != '.');
                    }
                    if ld > d {
                        assert(f@[ld] != '.');
                    }
                }
                if d == 0 {
                    None
                } else {
                    Some(crate::text::sub_chars(&f, d + 1, f.len()))
                }
            }
        },
    }
}

} // verus!
