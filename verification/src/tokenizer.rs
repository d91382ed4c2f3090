//! Text tokenization for identifiers, queries, and natural language.
use vstd::prelude::*;
use rust_stemmers::{Algorithm, Stemmer};
use crate::text::{
    ascii_lower, char_is_alphanumeric, char_is_lowercase, char_is_uppercase, from_chars, is_ascii_seq,
    spec_is_alphanumeric, spec_is_lowercase, spec_is_uppercase, spec_to_lowercase, str_to_lowercase,
    to_chars, utf8_len, utf8_len_below, views, lemma_views_push,
};

verus! {

broadcast use vstd::seq::group_seq_axioms;

// ---------------------------------------------------------------------------
// Stemming
// ---------------------------------------------------------------------------

/// The English Snowball (Porter 2) stem of a lowercase word, as computed by `rust_stemmers`.
pub uninterp spec fn spec_stem(word: Seq<char>) -> Seq<char>;

/// Calls `rust_stemmers::Stemmer::stem` with the English algorithm. The stem is a
/// function of the word alone; its rules are the Snowball algorithm and are not written out.
#[verifier::external_body]
fn stem_word(word: &str) -> (r: String)
    ensures
        r@ == spec_stem(word@),
{
    Stemmer::create(Algorithm::English).stem(word).to_string()
}

/// Tokens of at least two bytes, each replaced by its stem.
pub open spec fn stem_filter(ts: Seq<Seq<char>>) -> Seq<Seq<char>>
    decreases ts.len(),
{
    if ts.len() == 0 {
        Seq::empty()
    } else if utf8_len(ts.last()) > 1 {
        stem_filter(ts.drop_last()).push(spec_stem(ts.last()))
    } else {
        stem_filter(ts.drop_last())
    }
}

proof fn lemma_stem_filter_push(ts: Seq<Seq<char>>, t: Seq<char>)
    ensures
        stem_filter(ts.push(t)) == if utf8_len(t) > 1 {
            stem_filter(ts).push(spec_stem(t))
        } else {
            stem_filter(ts)
        },
{
    assert(ts.push(t).drop_last() =~= ts);
}

/// Stem a sequence of lowercase tokens, dropping the one-byte ones.
fn stem_tokens(tokens: &Vec<String>) -> (r: Vec<String>)
    ensures
        views(r@) == stem_filter(views(tokens@)),
{
    let mut r: Vec<String> = Vec::new();
    let mut i: usize = 0;
    while i < tokens.len()
        invariant
            0 <= i <= tokens.len(),
            views(r@) == stem_filter(views(tokens@.subrange(0, i as int))),
        decreases tokens.len() - i,
    {
        proof {
            assert(tokens@.subrange(0, i + 1) =~= tokens@.subrange(0, i as int).push(tokens@[i as int]));
            lemma_views_push(tokens@.subrange(0, i as int), tokens@[i as int]);
            lemma_stem_filter_push(views(tokens@.subrange(0, i as int)), tokens@[i as int]@);
        }
        let t = to_chars(tokens[i].as_str());
        if !utf8_len_below(&t, 2) {
            let s = stem_word(tokens[i].as_str());
            proof {
                lemma_views_push(r@, s);
            }
            r.push(s);
        }
        i = i + 1;
    }
    assert(tokens@.subrange(0, i as int) =~= tokens@);
    r
}

// ---------------------------------------------------------------------------
// Identifier splitting
// ---------------------------------------------------------------------------

/// Characters that always separate identifier parts.
pub open spec fn is_id_sep(c: char) -> bool {
    c == '_' || c == '-' || c == '.' || c == '/'
}

/// A case boundary before position `i`: `aB`, or the last capital of a run followed by a
/// lowercase letter (`ABc` splits before `B`).
pub open spec fn case_boundary(s: Seq<char>, i: int) -> bool {
    &&& 0 < i < s.len()
    &&& spec_is_uppercase(s[i])
    &&& (spec_is_lowercase(s[i - 1]) || (spec_is_uppercase(s[i - 1]) && i + 1 < s.len()
        && spec_is_lowercase(s[i + 1])))
}

/// The finished parts and the part in progress after reading the first `k` characters.
pub open spec fn id_split_state(s: Seq<char>, k: int) -> (Seq<Seq<char>>, Seq<char>)
    decreases k,
{
    if k <= 0 {
        (Seq::empty(), Seq::empty())
    } else {
        let (done, cur) = id_split_state(s, k - 1);
        let c = s[k - 1];
        if is_id_sep(c) {
            if cur.len() > 0 {
                (done.push(cur), Seq::empty())
            } else {
                (done, Seq::empty())
            }
        } else if case_boundary(s, k - 1) && cur.len() > 0 {
            (done.push(cur), seq![c])
        } else {
            (done, cur.push(c))
        }
    }
}

/// The parts of an identifier, before lowercasing.
pub open spec fn id_parts(s: Seq<char>) -> Seq<Seq<char>> {
    let (done, cur) = id_split_state(s, s.len() as int);
    if cur.len() > 0 {
        done.push(cur)
    } else {
        done
    }
}

/// `split_identifier` on the character view of a name.
pub open spec fn split_identifier_spec(s: Seq<char>) -> Seq<Seq<char>> {
    id_parts(s).map_values(|p: Seq<char>| spec_to_lowercase(p))
}

fn lower_token(cur: &Vec<char>) -> (r: String)
    ensures
        r@ == spec_to_lowercase(cur@),
        cur@.len() > 0 ==> r@.len() > 0,
        is_ascii_seq(cur@) ==> r@ == ascii_lower(cur@),
{
    let s = from_chars(cur.as_slice());
    str_to_lowercase(s.as_str())
}

/// Split a code identifier into lowercase tokens.
///
/// Handles `camelCase`, `PascalCase`, `snake_case`, `kebab-case`, and
/// consecutive uppercase runs (e.g. `parseJSON` -> `["parse", "json"]`).
pub fn split_identifier(name: &str) -> (r: Vec<String>)
    ensures
        views(r@) == split_identifier_spec(name@),
        forall|i: int| 0 <= i < r@.len() ==> (#[trigger] r@[i])@.len() > 0,
        is_ascii_seq(name@) ==> views(r@) == id_parts(name@).map_values(|p: Seq<char>| ascii_lower(p)),
{
    let chars = to_chars(name);
    let ghost s = chars@;
    let mut tokens: Vec<String> = Vec::new();
    let mut current: Vec<char> = Vec::new();
    let n = chars.len();
    let mut i: usize = 0;
    while i < n
        invariant
            n == chars.len(),
            s == chars@,
            0 <= i <= n,
            views(tokens@) == id_split_state(s, i as int).0.map_values(
                |p: Seq<char>| spec_to_lowercase(p),
            ),
            current@ == id_split_state(s, i as int).1,
            forall|j: int| 0 <= j < tokens@.len() ==> (#[trigger] tokens@[j])@.len() > 0,
            is_ascii_seq(s) ==> is_ascii_seq(current@),
            is_ascii_seq(s) ==> views(tokens@) == id_split_state(s, i as int).0.map_values(
                |p: Seq<char>| ascii_lower(p),
            ),
        decreases n - i,
    {
        let ch = chars[i];
        let ghost done = id_split_state(s, i as int).0;
        if ch == '_' || ch == '-' || ch == '.' || ch == '/' {
            if current.len() > 0 {
                let t = lower_token(&current);
                proof {
                    lemma_views_push(tokens@, t);
                    assert(done.push(current@).map_values(|p: Seq<char>| spec_to_lowercase(p))
                        =~= done.map_values(|p: Seq<char>| spec_to_lowercase(p)).push(t@));
                    assert(done.push(current@).map_values(|p: Seq<char>| ascii_lower(p))
                        =~= done.map_values(|p: Seq<char>| ascii_lower(p)).push(ascii_lower(current@)));
                }
                tokens.push(t);
                current = Vec::new();
            }
        } else {
            let mut split = false;
            if char_is_uppercase(ch) {
                let prev_lower = i > 0 && char_is_lowercase(chars[i - 1]);
                let next_lower = i + 1 < n && char_is_lowercase(chars[i + 1]);
                let curr_upper_run = i > 0 && char_is_uppercase(chars[i - 1]);
                split = (prev_lower || (curr_upper_run && next_lower)) && current.len() > 0;
            }
            proof {
                if current@.len() > 0 {
                    assert(split == case_boundary(s, i as int));
                }
            }
            if split {
                let t = lower_token(&current);
                proof {
                    lemma_views_push(tokens@, t);
                    assert(done.push(current@).map_values(|p: Seq<char>| spec_to_lowercase(p))
                        =~= done.map_values(|p: Seq<char>| spec_to_lowercase(p)).push(t@));
                    assert(done.push(current@).map_values(|p: Seq<char>| ascii_lower(p))
                        =~= done.map_values(|p: Seq<char>| ascii_lower(p)).push(ascii_lower(current@)));
                }
                tokens.push(t);
                current = Vec::new();
                current.push(ch);
                assert(current@ =~= seq![ch]);
                assert(is_ascii_seq(s) ==> (ch as u32) < 128);
            } else {
                let ghost before = current@;
                current.push(ch);
                assert(is_ascii_seq(s) ==> (ch as u32) < 128);
                assert(current@ == before.push(ch));
            }
        }
        i = i + 1;
    }
    if current.len() > 0 {
        let ghost done = id_split_state(s, i as int).0;
        let t = lower_token(&current);
        proof {
            lemma_views_push(tokens@, t);
            assert(done.push(current@).map_values(|p: Seq<char>| spec_to_lowercase(p))
                =~= done.map_values(|p: Seq<char>| spec_to_lowercase(p)).push(t@));
            assert(done.push(current@).map_values(|p: Seq<char>| ascii_lower(p))
                =~= done.map_values(|p: Seq<char>| ascii_lower(p)).push(ascii_lower(current@)));
        }
        tokens.push(t);
    }
    tokens
}


/// Whether `x` occurs in one of the parts.
pub open spec fn in_parts(ps: Seq<Seq<char>>, x: char) -> bool {
    exists|i: int, m: int| 0 <= i < ps.len() && 0 <= m < ps[i].len() && #[trigger] ps[i][m] == x
}

proof fn lemma_in_parts_push(ps: Seq<Seq<char>>, p: Seq<char>, x: char)
    requires
        in_parts(ps, x) || p.contains(x),
    ensures
        in_parts(ps.push(p), x),
{
    if in_parts(ps, x) {
        let (i, m) = choose|i: int, m: int| 0 <= i < ps.len() && 0 <= m < ps[i].len() && #[trigger] ps[i][m] == x;
        assert(ps.push(p)[i][m] == x);
    } else {
        let m = choose|m: int| 0 <= m < p.len() && p[m] == x;
        assert(ps.push(p)[ps.len() as int][m] == x);
    }
}

proof fn lemma_state_keeps_char(s: Seq<char>, k: int, j: int)
    requires
        0 <= k < j <= s.len(),
        !is_id_sep(s[k]),
    ensures
        in_parts(id_split_state(s, j).0, s[k]) || id_split_state(s, j).1.contains(s[k]),
    decreases j,
{
    let (done, cur) = id_split_state(s, j - 1);
    let c = s[j - 1];
    if j - 1 == k {
        if case_boundary(s, k) && cur.len() > 0 {
            assert(seq![c][0] == c);
        } else {
            assert(cur.push(c)[cur.len() as int] == c);
        }
    } else {
        lemma_state_keeps_char(s, k, j - 1);
        if is_id_sep(c) {
            if cur.len() > 0 {
                lemma_in_parts_push(done, cur, s[k]);
            } else {
                assert(!cur.contains(s[k]));
            }
        } else if case_boundary(s, j - 1) && cur.len() > 0 {
            lemma_in_parts_push(done, cur, s[k]);
        } else {
            if cur.contains(s[k]) {
                let m = choose|m: int| 0 <= m < cur.len() && cur[m] == s[k];
                assert(cur.push(c)[m] == s[k]);
            }
        }
    }
}

/// Splitting an identifier loses only its separators (`_`, `-`, `.`, `/`): every other
/// character lands in one of the parts.
pub proof fn lemma_id_parts_keep_chars(s: Seq<char>, k: int)
    requires
        0 <= k < s.len(),
        !is_id_sep(s[k]),
    ensures
        in_parts(id_parts(s), s[k]),
{
    lemma_state_keeps_char(s, k, s.len() as int);
    let (done, cur) = id_split_state(s, s.len() as int);
    if cur.len() > 0 {
        lemma_in_parts_push(done, cur, s[k]);
    } else {
        assert(!cur.contains(s[k]));
    }
}

/// For an ASCII identifier, every character other than a separator appears, ASCII-lowercased,
/// in one of its tokens (which `split_identifier` returns for such names).
pub proof fn lemma_split_tokens_keep_chars(s: Seq<char>, k: int)
    requires
        0 <= k < s.len(),
        !is_id_sep(s[k]),
    ensures
        in_parts(id_parts(s).map_values(|p: Seq<char>| ascii_lower(p)), crate::text::ascii_lower_char(s[k])),
{
    lemma_id_parts_keep_chars(s, k);
    let ps = id_parts(s);
    let (i, m) = choose|i: int, m: int| 0 <= i < ps.len() && 0 <= m < ps[i].len() && #[trigger] ps[i][m] == s[k];
    let ls = ps.map_values(|p: Seq<char>| ascii_lower(p));
    assert(ls[i] == ascii_lower(ps[i]));
    assert(ls[i][m] == crate::text::ascii_lower_char(s[k]));
}

/// The parts of an identifier are never empty.
pub proof fn lemma_id_parts_nonempty(s: Seq<char>)
    ensures
        forall|i: int| 0 <= i < id_parts(s).len() ==> (#[trigger] id_parts(s)[i]).len() > 0,
{
    lemma_state_parts_nonempty(s, s.len() as int);
}

proof fn lemma_state_parts_nonempty(s: Seq<char>, j: int)
    ensures
        forall|i: int| 0 <= i < id_split_state(s, j).0.len() ==> (#[trigger] id_split_state(s, j).0[i]).len() > 0,
    decreases j,
{
    if j > 0 {
        lemma_state_parts_nonempty(s, j - 1);
        let (done, cur) = id_split_state(s, j - 1);
        let nd = id_split_state(s, j).0;
        assert forall|i: int| 0 <= i < nd.len() implies (#[trigger] nd[i]).len() > 0 by {
            if i < done.len() {
                assert(nd[i] == done[i]);
            }
        }
    }
}

// ---------------------------------------------------------------------------
// Text tokenization
// ---------------------------------------------------------------------------

/// Characters that separate words in natural-language text.
pub open spec fn is_text_sep(c: char) -> bool {
    !spec_is_alphanumeric(c) && c != '_'
}

/// `str::split` on `is_text_sep` over the first `k` characters: every piece, empty ones included.
pub open spec fn text_pieces(s: Seq<char>, k: int) -> Seq<Seq<char>>
    decreases k,
{
    if k <= 0 {
        seq![Seq::empty()]
    } else {
        let p = text_pieces(s, k - 1);
        let c = s[k - 1];
        if is_text_sep(c) {
            p.push(Seq::empty())
        } else {
            p.drop_last().push(p.last().push(c))
        }
    }
}

/// The words of `s`: the pieces of `str::split` on non-alphanumeric, non-underscore characters.
pub open spec fn text_words(s: Seq<char>) -> Seq<Seq<char>> {
    text_pieces(s, s.len() as int)
}

pub proof fn lemma_text_pieces_nonempty(s: Seq<char>, k: int)
    ensures
        text_pieces(s, k).len() > 0,
    decreases k,
{
    if k > 0 {
        lemma_text_pieces_nonempty(s, k - 1);
    }
}

/// The token one word contributes: words under 80 bytes are lowercased, and kept when the
/// lowercase form has at least two bytes.
pub open spec fn word_keeps(w: Seq<char>) -> bool {
    utf8_len(w) < 80 && utf8_len(spec_to_lowercase(w)) > 1
}

/// Stemmed tokens of a sequence of words.
pub open spec fn word_tokens(ws: Seq<Seq<char>>) -> Seq<Seq<char>>
    decreases ws.len(),
{
    if ws.len() == 0 {
        Seq::empty()
    } else if word_keeps(ws.last()) {
        word_tokens(ws.drop_last()).push(spec_stem(spec_to_lowercase(ws.last())))
    } else {
        word_tokens(ws.drop_last())
    }
}

proof fn lemma_word_tokens_push(ws: Seq<Seq<char>>, w: Seq<char>)
    ensures
        word_tokens(ws.push(w)) == if word_keeps(w) {
            word_tokens(ws).push(spec_stem(spec_to_lowercase(w)))
        } else {
            word_tokens(ws)
        },
{
    assert(ws.push(w).drop_last() =~= ws);
}

/// `tokenize_text` on the character view of a text.
pub open spec fn tokenize_text_spec(s: Seq<char>) -> Seq<Seq<char>> {
    word_tokens(text_words(s))
}

/// Appends the token of one finished word, if it yields one.
fn finish_word(word: &Vec<char>, out: &mut Vec<String>)
    ensures
        views(final(out)@) == if word_keeps(word@) {
            views(old(out)@).push(spec_stem(spec_to_lowercase(word@)))
        } else {
            views(old(out)@)
        },
{
    if utf8_len_below(word, 80) {
        let w = from_chars(word.as_slice());
        let lower = str_to_lowercase(w.as_str());
        let lv = to_chars(lower.as_str());
        if !utf8_len_below(&lv, 2) {
            let st = stem_word(lower.as_str());
            proof {
                lemma_views_push(out@, st);
            }
            out.push(st);
        }
    }
}

/// Tokenize natural language text into lowercase stemmed tokens.
pub fn tokenize_text(text: &str) -> (r: Vec<String>)
    ensures
        views(r@) == tokenize_text_spec(text@),
{
    let chars = to_chars(text);
    let ghost s = chars@;
    let mut out: Vec<String> = Vec::new();
    let mut word: Vec<char> = Vec::new();
    let n = chars.len();
    let mut i: usize = 0;
    proof {
        assert(text_pieces(s, 0).drop_last() =~= Seq::<Seq<char>>::empty());
    }
    while i < n
        invariant
            n == chars.len(),
            s == chars@,
            0 <= i <= n,
            text_pieces(s, i as int).len() > 0,
            views(out@) == word_tokens(text_pieces(s, i as int).drop_last()),
            word@ == text_pieces(s, i as int).last(),
        decreases n - i,
    {
        let ch = chars[i];
        let ghost p = text_pieces(s, i as int);
        let is_sep = !char_is_alphanumeric(ch) && ch != '_';
        if is_sep {
            finish_word(&word, &mut out);
            word = Vec::new();
            proof {
                assert(p.push(Seq::empty()).drop_last() =~= p);
                assert(p =~= p.drop_last().push(p.last()));
                lemma_word_tokens_push(p.drop_last(), p.last());
            }
        } else {
            word.push(ch);
            proof {
                assert(p.drop_last().push(p.last().push(ch)).drop_last() =~= p.drop_last());
            }
        }
        i = i + 1;
        proof {
            lemma_text_pieces_nonempty(s, i as int);
        }
    }
    finish_word(&word, &mut out);
    proof {
        let p = text_pieces(s, n as int);
        assert(p =~= p.drop_last().push(p.last()));
        lemma_word_tokens_push(p.drop_last(), p.last());
    }
    out
}

/// Tokenize a code identifier: split then stem each part.
pub fn tokenize_identifier(name: &str) -> (r: Vec<String>)
    ensures
        views(r@) == stem_filter(split_identifier_spec(name@)),
{
    let parts = split_identifier(name);
    stem_tokens(&parts)
}

/// Tokenize a query string (same pipeline as text, for consistent matching).
pub fn tokenize_query(query: &str) -> (r: Vec<String>)
    ensures
        views(r@) == tokenize_text_spec(query@),
{
    tokenize_text(query)
}

} // verus!
