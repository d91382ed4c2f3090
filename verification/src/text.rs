//! Character and string helpers shared by the tokenizer, the parsers and the index.
//!
//! Strings are reasoned about through their `Seq<char>` views. Most routines work on
//! `Vec<char>` copies of the input and build `String`s back at the end.
use vstd::prelude::*;

verus! {

broadcast use vstd::seq::group_seq_axioms;

// ---------------------------------------------------------------------------
// Character classes
// ---------------------------------------------------------------------------

/// Unicode `White_Space`, which is what `char::is_whitespace` tests.
pub open spec fn is_ws(c: char) -> bool {
    let u = c as u32;
    (0x9 <= u && u <= 0xD) || u == 0x20 || u == 0x85 || u == 0xA0 || u == 0x1680 || (0x2000 <= u
        && u <= 0x200A) || u == 0x2028 || u == 0x2029 || u == 0x202F || u == 0x205F || u == 0x3000
}

/// Exec counterpart of `is_ws`.
pub fn char_is_whitespace(c: char) -> (r: bool)
    ensures
        r == is_ws(c),
{
    let u = c as u32;
    (0x9 <= u && u <= 0xD) || u == 0x20 || u == 0x85 || u == 0xA0 || u == 0x1680 || (0x2000 <= u
        && u <= 0x200A) || u == 0x2028 || u == 0x2029 || u == 0x202F || u == 0x205F || u == 0x3000
}

pub open spec fn is_ascii_upper(c: char) -> bool {
    'A' <= c && c <= 'Z'
}

pub open spec fn is_ascii_lower_letter(c: char) -> bool {
    'a' <= c && c <= 'z'
}

pub open spec fn is_ascii_digit(c: char) -> bool {
    '0' <= c && c <= '9'
}

/// `char::to_ascii_lowercase`.
pub open spec fn ascii_lower_char(c: char) -> char {
    if is_ascii_upper(c) {
        ((c as u32) + 32) as char
    } else {
        c
    }
}

/// `str::to_ascii_lowercase`.
pub open spec fn ascii_lower(s: Seq<char>) -> Seq<char> {
    s.map_values(|c: char| ascii_lower_char(c))
}

pub fn char_to_ascii_lowercase(c: char) -> (r: char)
    ensures
        r == ascii_lower_char(c),
{
    if 'A' <= c && c <= 'Z' {
        let u = (c as u32) + 32;
        assert(0x61 <= u <= 0x7a);
        char_from_ascii(u)
    } else {
        c
    }
}

/// Converts a code point in the ASCII letter range back to a `char`.
fn char_from_ascii(u: u32) -> (r: char)
    requires
        u < 128,
    ensures
        r == u as char,
        r as u32 == u,
{
    let b = u as u8;
    b as char
}

/// `char::is_alphanumeric`: Unicode `Alphabetic` or `Numeric` (`Nd`, `Nl`, `No`).
pub uninterp spec fn spec_is_alphanumeric(c: char) -> bool;

/// `char::is_alphabetic`: Unicode `Alphabetic`.
pub uninterp spec fn spec_is_alphabetic(c: char) -> bool;

/// `char::is_uppercase`: Unicode `Uppercase`.
pub uninterp spec fn spec_is_uppercase(c: char) -> bool;

/// `char::is_lowercase`: Unicode `Lowercase`.
pub uninterp spec fn spec_is_lowercase(c: char) -> bool;

/// `str::to_lowercase`: the Unicode lowercase mapping of a string.
pub uninterp spec fn spec_to_lowercase(s: Seq<char>) -> Seq<char>;

/// Calls `char::is_alphanumeric`. On ASCII input the result is stated: letters and digits.
/// Outside ASCII it is the Unicode table, which is not written out here.
#[verifier::external_body]
pub(crate) fn char_is_alphanumeric(c: char) -> (r: bool)
    ensures
        r == spec_is_alphanumeric(c),
        (c as u32) < 128 ==> (r <==> (is_ascii_upper(c) || is_ascii_lower_letter(c)
            || is_ascii_digit(c))),
{
    c.is_alphanumeric()
}

/// Calls `char::is_alphabetic`. On ASCII input: exactly the letters.
#[verifier::external_body]
pub(crate) fn char_is_alphabetic(c: char) -> (r: bool)
    ensures
        r == spec_is_alphabetic(c),
        (c as u32) < 128 ==> (r <==> (is_ascii_upper(c) || is_ascii_lower_letter(c))),
{
    c.is_alphabetic()
}

/// Calls `char::is_uppercase`. On ASCII input: exactly `A`..=`Z`.
#[verifier::external_body]
pub(crate) fn char_is_uppercase(c: char) -> (r: bool)
    ensures
        r == spec_is_uppercase(c),
        (c as u32) < 128 ==> (r <==> is_ascii_upper(c)),
{
    c.is_uppercase()
}

/// Calls `char::is_lowercase`. On ASCII input: exactly `a`..=`z`.
#[verifier::external_body]
pub(crate) fn char_is_lowercase(c: char) -> (r: bool)
    ensures
        r == spec_is_lowercase(c),
        (c as u32) < 128 ==> (r <==> is_ascii_lower_letter(c)),
{
    c.is_lowercase()
}

/// Calls `str::to_lowercase`. Every character maps to at least one character, so a
/// non-empty input gives a non-empty output; on ASCII input the mapping is the ASCII one.
#[verifier::external_body]
pub(crate) fn str_to_lowercase(s: &str) -> (r: String)
    ensures
        r@ == spec_to_lowercase(s@),
        s@.len() > 0 ==> r@.len() > 0,
        is_ascii_seq(s@) ==> r@ == ascii_lower(s@),
{
    s.to_lowercase()
}

pub open spec fn is_ascii_seq(s: Seq<char>) -> bool {
    forall|i: int| 0 <= i < s.len() ==> (#[trigger] s[i] as u32) < 128
}

// ---------------------------------------------------------------------------
// UTF-8 lengths
// ---------------------------------------------------------------------------

/// Number of bytes `c` takes in UTF-8 (`char::len_utf8`).
pub open spec fn utf8_width(c: char) -> nat {
    let u = c as u32;
    if u < 0x80 {
        1
    } else if u < 0x800 {
        2
    } else if u < 0x10000 {
        3
    } else {
        4
    }
}

/// Byte length of the UTF-8 encoding of `s` (`str::len`).
pub open spec fn utf8_len(s: Seq<char>) -> nat
    decreases s.len(),
{
    if s.len() == 0 {
        0
    } else {
        utf8_len(s.drop_last()) + utf8_width(s.last())
    }
}

pub fn char_utf8_width(c: char) -> (r: usize)
    ensures
        r == utf8_width(c),
        1 <= r <= 4,
{
    let u = c as u32;
    if u < 0x80 {
        1
    } else if u < 0x800 {
        2
    } else if u < 0x10000 {
        3
    } else {
        4
    }
}

pub proof fn lemma_utf8_len_ge_len(s: Seq<char>)
    ensures
        utf8_len(s) >= s.len(),
    decreases s.len(),
{
    if s.len() > 0 {
        lemma_utf8_len_ge_len(s.drop_last());
    }
}

pub proof fn lemma_utf8_len_push(s: Seq<char>, c: char)
    ensures
        utf8_len(s.push(c)) == utf8_len(s) + utf8_width(c),
{
    assert(s.push(c).drop_last() =~= s);
}

/// Whether the UTF-8 byte length of `s` is below `bound`; stops counting once it is reached.
pub fn utf8_len_below(s: &Vec<char>, bound: usize) -> (r: bool)
    ensures
        r == (utf8_len(s@) < bound),
{
    if bound == 0 {
        return false;
    }
    let mut total: usize = 0;
    let mut i: usize = 0;
    while i < s.len()
        invariant
            0 <= i <= s.len(),
            total == utf8_len(s@.subrange(0, i as int)),
            total < bound,
        decreases s.len() - i,
    {
        proof {
            lemma_utf8_len_push(s@.subrange(0, i as int), s@[i as int]);
            assert(s@.subrange(0, i as int).push(s@[i as int]) =~= s@.subrange(0, i + 1));
        }
        let w = char_utf8_width(s[i]);
        if w >= bound - total {
            proof {
                lemma_utf8_len_prefix_le(s@, i + 1);
            }
            return false;
        }
        total = total + w;
        i = i + 1;
    }
    proof {
        assert(s@.subrange(0, i as int) =~= s@);
    }
    true
}

/// A prefix is never longer in bytes than the whole sequence.
pub proof fn lemma_utf8_len_prefix_le(s: Seq<char>, k: int)
    requires
        0 <= k <= s.len(),
    ensures
        utf8_len(s.subrange(0, k)) <= utf8_len(s),
    decreases s.len(),
{
    if k < s.len() {
        assert(s.drop_last().subrange(0, k) =~= s.subrange(0, k));
        lemma_utf8_len_prefix_le(s.drop_last(), k);
    } else {
        assert(s.subrange(0, k) =~= s);
    }
}

// ---------------------------------------------------------------------------
// Trimming, prefixes and substrings
// ---------------------------------------------------------------------------

/// `str::trim_start`.
pub open spec fn trim_start(s: Seq<char>) -> Seq<char>
    decreases s.len(),
{
    if s.len() > 0 && is_ws(s[0]) {
        trim_start(s.drop_first())
    } else {
        s
    }
}

/// `str::trim_end`.
pub open spec fn trim_end(s: Seq<char>) -> Seq<char>
    decreases s.len(),
{
    if s.len() > 0 && is_ws(s.last()) {
        trim_end(s.drop_last())
    } else {
        s
    }
}

/// `str::trim`.
pub open spec fn trim(s: Seq<char>) -> Seq<char> {
    trim_end(trim_start(s))
}

pub open spec fn starts_with(s: Seq<char>, p: Seq<char>) -> bool {
    p.len() <= s.len() && s.subrange(0, p.len() as int) == p
}

pub open spec fn ends_with(s: Seq<char>, p: Seq<char>) -> bool {
    p.len() <= s.len() && s.subrange(s.len() - p.len(), s.len() as int) == p
}

/// `needle` occurs in `hay` starting at `i`.
pub open spec fn occurs_at(hay: Seq<char>, needle: Seq<char>, i: int) -> bool {
    0 <= i && i + needle.len() <= hay.len() && hay.subrange(i, i + needle.len()) == needle
}

/// `str::contains` with a string pattern.
pub open spec fn contains_sub(hay: Seq<char>, needle: Seq<char>) -> bool {
    exists|i: int| occurs_at(hay, needle, i)
}

/// Every occurrence of `from` replaced by `to` (`str::replace` with char patterns).
pub open spec fn replace_char(s: Seq<char>, from: char, to: char) -> Seq<char> {
    s.map_values(|c: char| if c == from { to } else { c })
}

pub proof fn lemma_trim_start_suffix(s: Seq<char>)
    ensures
        exists|k: int|
            0 <= k <= s.len() && trim_start(s) == s.subrange(k, s.len() as int) && (forall|j: int|
                0 <= j < k ==> is_ws(#[trigger] s[j])),
        trim_start(s).len() > 0 ==> !is_ws(trim_start(s)[0]),
    decreases s.len(),
{
    if s.len() > 0 && is_ws(s[0]) {
        lemma_trim_start_suffix(s.drop_first());
        let k = choose|k: int|
            0 <= k <= s.drop_first().len() && trim_start(s.drop_first())
                == s.drop_first().subrange(k, s.drop_first().len() as int) && (forall|j: int|
                0 <= j < k ==> is_ws(#[trigger] s.drop_first()[j]));
        assert(s.drop_first().subrange(k, s.drop_first().len() as int) =~= s.subrange(
            k + 1,
            s.len() as int,
        ));
        assert forall|j: int| 0 <= j < k + 1 implies is_ws(#[trigger] s[j]) by {
            if j > 0 {
                assert(s[j] == s.drop_first()[j - 1]);
            }
        }
    } else {
        assert(s.subrange(0, s.len() as int) =~= s);
    }
}

/// Exec: the index of the first non-whitespace character (or the length).
pub fn trim_start_index(v: &Vec<char>, from: usize, to: usize) -> (k: usize)
    requires
        from <= to <= v.len(),
    ensures
        from <= k <= to,
        trim_start(v@.subrange(from as int, to as int)) == v@.subrange(k as int, to as int),
{
    let mut k = from;
    while k < to && char_is_whitespace(v[k])
        invariant
            from <= k <= to <= v.len(),
            trim_start(v@.subrange(from as int, to as int)) == trim_start(
                v@.subrange(k as int, to as int),
            ),
        decreases to - k,
    {
        assert(v@.subrange(k as int, to as int).drop_first() =~= v@.subrange(k + 1, to as int));
        k = k + 1;
    }
    k
}

/// Exec: the end of the range once trailing whitespace is removed.
pub fn trim_end_index(v: &Vec<char>, from: usize, to: usize) -> (k: usize)
    requires
        from <= to <= v.len(),
    ensures
        from <= k <= to,
        trim_end(v@.subrange(from as int, to as int)) == v@.subrange(from as int, k as int),
{
    let mut k = to;
    while k > from && char_is_whitespace(v[k - 1])
        invariant
            from <= k <= to <= v.len(),
            trim_end(v@.subrange(from as int, to as int)) == trim_end(
                v@.subrange(from as int, k as int),
            ),
        decreases k - from,
    {
        assert(v@.subrange(from as int, k as int).drop_last() =~= v@.subrange(
            from as int,
            k - 1,
        ));
        k = k - 1;
    }
    k
}

/// Exec: `(start, end)` such that `v[start..end]` is `trim(v[from..to])`.
pub fn trim_bounds(v: &Vec<char>, from: usize, to: usize) -> (r: (usize, usize))
    requires
        from <= to <= v.len(),
    ensures
        from <= r.0 <= r.1 <= to,
        trim(v@.subrange(from as int, to as int)) == v@.subrange(r.0 as int, r.1 as int),
{
    let s = trim_start_index(v, from, to);
    let e = trim_end_index(v, s, to);
    (s, e)
}

/// Exec: copies `v[from..to]`.
pub fn sub_chars(v: &Vec<char>, from: usize, to: usize) -> (r: Vec<char>)
    requires
        from <= to <= v.len(),
    ensures
        r@ == v@.subrange(from as int, to as int),
{
    let mut r: Vec<char> = Vec::with_capacity(to - from);
    let mut i = from;
    while i < to
        invariant
            from <= i <= to <= v.len(),
            r@ == v@.subrange(from as int, i as int),
        decreases to - i,
    {
        r.push(v[i]);
        i = i + 1;
        assert(r@ =~= v@.subrange(from as int, i as int));
    }
    r
}

/// Exec: the characters of a string slice.
pub fn to_chars(s: &str) -> (r: Vec<char>)
    ensures
        r@ == s@,
{
    let mut r: Vec<char> = Vec::new();
    for c in it: s.chars()
        invariant
            r@ == it.seq().take(it.index() as int),
            it.seq() == s@,
    {
        r.push(c);
        assert(r@ =~= it.seq().take(it.index() + 1));
    }
    assert(r@ =~= s@);
    r
}

/// Builds a `String` from characters, through `FromIterator<char> for String`.
#[verifier::external_body]
pub(crate) fn from_chars(v: &[char]) -> (r: String)
    ensures
        r@ == v@,
{
    v.iter().collect()
}

/// Exec: whether `needle` occurs in `hay` at position `i`.
pub fn occurs_at_exec(hay: &Vec<char>, needle: &Vec<char>, i: usize) -> (r: bool)
    ensures
        r == occurs_at(hay@, needle@, i as int),
{
    if i > hay.len() || needle.len() > hay.len() - i {
        return false;
    }
    let mut j: usize = 0;
    while j < needle.len()
        invariant
            i + needle.len() <= hay.len(),
            0 <= j <= needle.len(),
            forall|k: int| 0 <= k < j ==> hay@[i + k] == needle@[k],
        decreases needle.len() - j,
    {
        if hay[i + j] != needle[j] {
            assert(hay@.subrange(i as int, i + needle.len())[j as int] != needle@[j as int]);
            return false;
        }
        j = j + 1;
    }
    assert(hay@.subrange(i as int, i + needle.len()) =~= needle@);
    true
}

/// Exec: `str::contains` on character vectors.
pub fn contains_exec(hay: &Vec<char>, needle: &Vec<char>) -> (r: bool)
    ensures
        r == contains_sub(hay@, needle@),
{
    if needle.len() > hay.len() {
        assert forall|i: int| !occurs_at(hay@, needle@, i) by {}
        return false;
    }
    let last = hay.len() - needle.len();
    let mut i: usize = 0;
    while i < last
        invariant
            needle.len() <= hay.len(),
            last == hay.len() - needle.len(),
            0 <= i <= last,
            forall|k: int| 0 <= k < i ==> !occurs_at(hay@, needle@, k),
        decreases last - i,
    {
        if occurs_at_exec(hay, needle, i) {
            return true;
        }
        i = i + 1;
    }
    if occurs_at_exec(hay, needle, last) {
        return true;
    }
    assert forall|k: int| !occurs_at(hay@, needle@, k) by {
        if 0 <= k && k + needle@.len() <= hay@.len() {
            assert(k <= last);
        }
    }
    false
}

/// Exec: `str::starts_with`.
pub fn starts_with_exec(s: &Vec<char>, p: &Vec<char>) -> (r: bool)
    ensures
        r == starts_with(s@, p@),
{
    occurs_at_exec(s, p, 0)
}

/// Exec: `str::ends_with`.
pub fn ends_with_exec(s: &Vec<char>, p: &Vec<char>) -> (r: bool)
    ensures
        r == ends_with(s@, p@),
{
    if p.len() > s.len() {
        return false;
    }
    occurs_at_exec(s, p, s.len() - p.len())
}

/// Exec: replaces every `from` by `to`.
pub fn replace_char_exec(s: &Vec<char>, from: char, to: char) -> (r: Vec<char>)
    ensures
        r@ == replace_char(s@, from, to),
{
    let mut r: Vec<char> = Vec::with_capacity(s.len());
    let mut i: usize = 0;
    while i < s.len()
        invariant
            0 <= i <= s.len(),
            r@ == replace_char(s@.subrange(0, i as int), from, to),
        decreases s.len() - i,
    {
        let c = s[i];
        if c == from {
            r.push(to);
        } else {
            r.push(c);
        }
        i = i + 1;
        assert(r@ =~= replace_char(s@.subrange(0, i as int), from, to));
    }
    assert(s@.subrange(0, i as int) =~= s@);
    r
}

/// Exec: `str::to_ascii_lowercase`.
pub fn ascii_lower_exec(s: &Vec<char>) -> (r: Vec<char>)
    ensures
        r@ == ascii_lower(s@),
{
    let mut r: Vec<char> = Vec::with_capacity(s.len());
    let mut i: usize = 0;
    while i < s.len()
        invariant
            0 <= i <= s.len(),
            r@ == ascii_lower(s@.subrange(0, i as int)),
        decreases s.len() - i,
    {
        let c = char_to_ascii_lowercase(s[i]);
        r.push(c);
        i = i + 1;
        assert(r@ =~= ascii_lower(s@.subrange(0, i as int)));
    }
    assert(s@.subrange(0, i as int) =~= s@);
    r
}

/// Exec: equality of character vectors.
pub fn chars_eq(a: &Vec<char>, b: &Vec<char>) -> (r: bool)
    ensures
        r == (a@ == b@),
{
    if a.len() != b.len() {
        return false;
    }
    let r = occurs_at_exec(a, b, 0);
    proof {
        assert(a@.subrange(0, b@.len() as int) =~= a@);
    }
    r
}

/// Exec: equality of a `String` with characters.
pub fn string_eq_chars(a: &String, b: &Vec<char>) -> (r: bool)
    ensures
        r == (a@ == b@),
{
    let av = to_chars(a.as_str());
    chars_eq(&av, b)
}

/// Exec: equality of two strings.
pub fn str_eq(a: &str, b: &str) -> (r: bool)
    ensures
        r == (a@ == b@),
{
    let av = to_chars(a);
    let bv = to_chars(b);
    chars_eq(&av, &bv)
}

} // verus!

verus! {

/// The character views of a sequence of strings.
pub open spec fn views(v: Seq<String>) -> Seq<Seq<char>> {
    v.map_values(|s: String| s@)
}

pub proof fn lemma_views_push(v: Seq<String>, s: String)
    ensures
        views(v.push(s)) == views(v).push(s@),
{
    assert(views(v.push(s)) =~= views(v).push(s@));
}

/// Concatenation of a sequence of character sequences.
pub open spec fn concat_all(ps: Seq<Seq<char>>) -> Seq<char>
    decreases ps.len(),
{
    if ps.len() == 0 {
        Seq::empty()
    } else {
        concat_all(ps.drop_last()) + ps.last()
    }
}

} // verus!

verus! {

/// Words finished and the word in progress of `str::split_whitespace` after `k` characters.
pub open spec fn ws_words_state(s: Seq<char>, k: int) -> (Seq<Seq<char>>, Seq<char>)
    decreases k,
{
    if k <= 0 {
        (Seq::empty(), Seq::empty())
    } else {
        let (done, cur) = ws_words_state(s, k - 1);
        if is_ws(s[k - 1]) {
            if cur.len() > 0 {
                (done.push(cur), Seq::empty())
            } else {
                (done, Seq::empty())
            }
        } else {
            (done, cur.push(s[k - 1]))
        }
    }
}

/// `str::split_whitespace`.
pub open spec fn ws_words(s: Seq<char>) -> Seq<Seq<char>> {
    let (done, cur) = ws_words_state(s, s.len() as int);
    if cur.len() > 0 {
        done.push(cur)
    } else {
        done
    }
}

/// `[..].join(sep)`.
pub open spec fn join_with(ws: Seq<Seq<char>>, sep: Seq<char>) -> Seq<char>
    decreases ws.len(),
{
    if ws.len() == 0 {
        Seq::empty()
    } else if ws.len() == 1 {
        ws[0]
    } else {
        join_with(ws.drop_last(), sep) + sep + ws.last()
    }
}

pub proof fn lemma_join_with_push(ws: Seq<Seq<char>>, sep: Seq<char>, w: Seq<char>)
    ensures
        join_with(ws.push(w), sep) == if ws.len() == 0 {
            w
        } else {
            join_with(ws, sep) + sep + w
        },
{
    assert(ws.push(w).drop_last() =~= ws);
    if ws.len() == 0 {
        assert(ws.push(w)[0] == w);
    }
}

/// Exec: appends `b` to `a`.
pub fn append_chars(a: &mut Vec<char>, b: &Vec<char>)
    ensures
        final(a)@ == old(a)@ + b@,
{
    let mut i: usize = 0;
    while i < b.len()
        invariant
            0 <= i <= b.len(),
            a@ == old(a)@ + b@.subrange(0, i as int),
        decreases b.len() - i,
    {
        a.push(b[i]);
        i = i + 1;
        assert(a@ =~= old(a)@ + b@.subrange(0, i as int));
    }
    assert(b@.subrange(0, i as int) =~= b@);
}

/// `text.split_whitespace().collect::<Vec<_>>().join(" ")`.
pub open spec fn normalize_ws(s: Seq<char>) -> Seq<char> {
    join_with(ws_words(s), seq![' '])
}

proof fn lemma_join_words_empty(ws: Seq<Seq<char>>, sep: Seq<char>)
    requires
        forall|i: int| 0 <= i < ws.len() ==> (#[trigger] ws[i]).len() > 0,
    ensures
        (join_with(ws, sep).len() == 0) == (ws.len() == 0),
    decreases ws.len(),
{
    if ws.len() > 1 {
        assert(ws.last() == ws[ws.len() - 1]);
    } else if ws.len() == 1 {
        assert(ws[0].len() > 0);
    }
}

proof fn lemma_ws_words_state_nonempty(s: Seq<char>, k: int)
    ensures
        forall|i: int|
            0 <= i < ws_words_state(s, k).0.len() ==> (#[trigger] ws_words_state(s, k).0[i]).len()
                > 0,
    decreases k,
{
    if k > 0 {
        lemma_ws_words_state_nonempty(s, k - 1);
        let prev = ws_words_state(s, k - 1);
        let now = ws_words_state(s, k);
        assert forall|i: int| 0 <= i < now.0.len() implies (#[trigger] now.0[i]).len() > 0 by {
            if i < prev.0.len() {
                assert(now.0[i] == prev.0[i]);
            }
        }
    }
}

/// The words of `split_whitespace` are never empty.
pub proof fn lemma_ws_words_nonempty(s: Seq<char>)
    ensures
        forall|i: int| 0 <= i < ws_words(s).len() ==> (#[trigger] ws_words(s)[i]).len() > 0,
{
    lemma_ws_words_state_nonempty(s, s.len() as int);
}

/// Exec: `normalize_ws`; also reports whether the result is empty through its length.
pub fn normalize_ws_exec(s: &Vec<char>) -> (r: Vec<char>)
    ensures
        r@ == normalize_ws(s@),
        (r@.len() == 0) == (ws_words(s@).len() == 0),
{
    let mut out: Vec<char> = Vec::new();
    let mut cur: Vec<char> = Vec::new();
    let mut nwords: usize = 0;
    let mut i: usize = 0;
    let ghost sp = seq![' '];
    while i < s.len()
        invariant
            0 <= i <= s.len(),
            out@ == join_with(ws_words_state(s@, i as int).0, sp),
            cur@ == ws_words_state(s@, i as int).1,
            sp == seq![' '],
            (nwords == 0) == (ws_words_state(s@, i as int).0.len() == 0),
        decreases s.len() - i,
    {
        let c = s[i];
        if char_is_whitespace(c) {
            if cur.len() > 0 {
                proof {
                    lemma_join_with_push(ws_words_state(s@, i as int).0, sp, cur@);
                }
                if nwords > 0 {
                    out.push(' ');
                }
                append_chars(&mut out, &cur);
                if nwords == 0 {
                    nwords = 1;
                }
                assert(out@ =~= join_with(ws_words_state(s@, i + 1).0, sp));
                cur = Vec::new();
            }
        } else {
            cur.push(c);
        }
        i = i + 1;
    }
    if cur.len() > 0 {
        proof {
            lemma_join_with_push(ws_words_state(s@, i as int).0, sp, cur@);
        }
        if nwords > 0 {
            out.push(' ');
        }
        append_chars(&mut out, &cur);
        assert(out@ =~= join_with(ws_words(s@), sp));
    }
    proof {
        lemma_ws_words_nonempty(s@);
        lemma_join_words_empty(ws_words(s@), sp);
    }
    out
}

} // verus!

verus! {

/// Exec: copies a vector of strings.
pub fn clone_strings(v: &Vec<String>) -> (r: Vec<String>)
    ensures
        views(r@) == views(v@),
{
    let mut r: Vec<String> = Vec::with_capacity(v.len());
    let mut i: usize = 0;
    while i < v.len()
        invariant
            0 <= i <= v.len(),
            views(r@) == views(v@.subrange(0, i as int)),
        decreases v.len() - i,
    {
        let s = v[i].clone();
        proof {
            lemma_views_push(r@, s);
        }
        r.push(s);
        i = i + 1;
        assert(views(v@.subrange(0, i as int)) =~= views(v@.subrange(0, i - 1)).push(v@[i - 1]@));
    }
    assert(v@.subrange(0, i as int) =~= v@);
    r
}

/// Exec: appends the strings of `src` to `dst`.
pub fn extend_strings(dst: &mut Vec<String>, src: Vec<String>)
    ensures
        views(final(dst)@) == views(old(dst)@) + views(src@),
{
    let ghost d0 = views(dst@);
    let mut k: usize = 0;
    while k < src.len()
        invariant
            0 <= k <= src.len(),
            views(dst@) == d0 + views(src@).subrange(0, k as int),
        decreases src.len() - k,
    {
        let sym = src[k].clone();
        proof {
            lemma_views_push(dst@, sym);
        }
        dst.push(sym);
        k = k + 1;
        assert(views(dst@) =~= d0 + views(src@).subrange(0, k as int));
    }
    assert(views(src@).subrange(0, k as int) =~= views(src@));
}

/// Exec: a copy of a character vector.
pub fn copy_chars(v: &Vec<char>) -> (r: Vec<char>)
    ensures
        r@ == v@,
{
    let r = sub_chars(v, 0, v.len());
    assert(v@.subrange(0, v@.len() as int) =~= v@);
    r
}

/// Exec: a `String` with the characters of `s`.
pub fn string_of(s: &str) -> (r: String)
    ensures
        r@ == s@,
{
    let v = to_chars(s);
    from_chars(v.as_slice())
}

} // verus!
