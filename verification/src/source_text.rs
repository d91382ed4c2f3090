//! Source text addressed by UTF-8 byte offsets, as parse trees address it.
use vstd::prelude::*;
use vstd::utf8::{encode_scalar, encode_utf8};
use crate::text::{from_chars, to_chars};

verus! {

/// The length in bytes of the UTF-8 encoding of `s`.
pub open spec fn utf8_len(s: Seq<char>) -> nat {
    encode_utf8(s).len()
}

/// The characters of `source` between the byte offsets `start` and `end`, as `str::get` gives
/// them: empty unless both offsets fall on character boundaries with `start <= end`.
pub open spec fn byte_slice(source: Seq<char>, start: usize, end: usize) -> Seq<char> {
    if exists|i: int, j: int|
        0 <= i <= j <= source.len() && #[trigger] utf8_len(source.take(i)) == start && #[trigger] utf8_len(source.take(j)) == end
    {
        let (i, j) = choose|i: int, j: int|
            0 <= i <= j <= source.len() && #[trigger] utf8_len(source.take(i)) == start && #[trigger] utf8_len(source.take(j)) == end;
        source.subrange(i, j)
    } else {
        Seq::empty()
    }
}

/// Encoding a concatenation encodes each part in turn.
pub proof fn lemma_encode_utf8_concat(a: Seq<char>, b: Seq<char>)
    ensures
        encode_utf8(a + b) == encode_utf8(a) + encode_utf8(b),
    decreases a.len(),
{
    if a.len() == 0 {
        assert(a + b =~= b);
        assert(encode_utf8(a) + encode_utf8(b) =~= encode_utf8(b));
    } else {
        assert((a + b).drop_first() =~= a.drop_first() + b);
        assert((a + b)[0] == a[0]);
        lemma_encode_utf8_concat(a.drop_first(), b);
        assert(encode_utf8(a + b) =~= encode_scalar(a[0] as u32) + (encode_utf8(a.drop_first()) + encode_utf8(b)));
        assert(encode_utf8(a) + encode_utf8(b) =~= encode_scalar(a[0] as u32) + encode_utf8(a.drop_first()) + encode_utf8(b));
    }
}

/// The byte offset after `k + 1` characters is that after `k` plus the width of character `k`,
/// which is one to four bytes.
proof fn lemma_utf8_len_step(s: Seq<char>, k: int)
    requires
        0 <= k < s.len(),
    ensures
        utf8_len(s.take(k + 1)) == utf8_len(s.take(k)) + encode_scalar(s[k] as u32).len(),
        1 <= encode_scalar(s[k] as u32).len() <= 4,
{
    assert(s.take(k + 1) =~= s.take(k) + seq![s[k]]);
    lemma_encode_utf8_concat(s.take(k), seq![s[k]]);
    assert(seq![s[k]].drop_first() =~= Seq::<char>::empty());
    assert(encode_utf8(seq![s[k]]) =~= encode_scalar(s[k] as u32) + encode_utf8(Seq::<char>::empty()));
}

/// Byte offsets grow strictly with the number of characters.
proof fn lemma_utf8_len_strict(s: Seq<char>, a: int, b: int)
    requires
        0 <= a < b <= s.len(),
    ensures
        utf8_len(s.take(a)) < utf8_len(s.take(b)),
    decreases b - a,
{
    lemma_utf8_len_step(s, b - 1);
    if a < b - 1 {
        lemma_utf8_len_strict(s, a, b - 1);
    }
}

/// The width in bytes of the UTF-8 encoding of `c`.
fn char_width(c: char) -> (r: usize)
    ensures
        r == encode_scalar(c as u32).len(),
{
    let v = c as u32;
    if v <= 0x7F {
        1
    } else if v <= 0x7FF {
        2
    } else if v <= 0xFFFF {
        3
    } else {
        4
    }
}

/// A source text with the byte offset of each of its characters, so that byte ranges can be
/// cut out of it.
pub struct SourceText {
    chars: Vec<char>,
    offsets: Vec<usize>,
}

impl View for SourceText {
    type V = Seq<char>;

    closed spec fn view(&self) -> Seq<char> {
        self.chars@
    }
}

impl SourceText {
    /// Offset `k` is the byte offset of character `k`, for every character whose offset fits a
    /// `usize`; the offsets after the last one kept do not fit.
    #[verifier::type_invariant]
    spec fn offsets_wf(&self) -> bool {
        &&& 1 <= self.offsets@.len() <= self.chars@.len() + 1
        &&& forall|k: int| 0 <= k < self.offsets@.len() ==> #[trigger] self.offsets@[k] == utf8_len(self.chars@.take(k))
        &&& self.offsets@.len() <= self.chars@.len() ==> utf8_len(self.chars@.take(self.offsets@.len() as int)) > usize::MAX
    }

    /// The text of `source`, with its byte offsets.
    pub fn new(source: &str) -> (r: Self)
        ensures
            r@ == source@,
    {
        let chars = to_chars(source);
        let n = chars.len();
        let mut offsets: Vec<usize> = Vec::new();
        offsets.push(0);
        proof {
            assert(chars@.take(0) =~= Seq::<char>::empty());
        }
        let mut acc: usize = 0;
        let mut k: usize = 0;
        while k < n
            invariant
                k <= n,
                n == chars@.len(),
                chars@ == source@,
                offsets@.len() == k + 1,
                acc == utf8_len(chars@.take(k as int)),
                forall|i: int| 0 <= i < offsets@.len() ==> #[trigger] offsets@[i] == utf8_len(chars@.take(i)),
            decreases n - k,
        {
            let w = char_width(chars[k]);
            proof {
                lemma_utf8_len_step(chars@, k as int);
            }
            match acc.checked_add(w) {
                Some(next) => {
                    offsets.push(next);
                    acc = next;
                    k = k + 1;
                },
                None => {
                    return SourceText { chars, offsets };
                },
            }
        }
        SourceText { chars, offsets }
    }

    /// The index of the character at byte offset `b`, if a character starts there.
    fn char_at_offset(&self, b: usize) -> (r: Option<usize>)
        ensures
            match r {
                Some(i) => i <= self@.len() && utf8_len(self@.take(i as int)) == b,
                None => forall|i: int| 0 <= i <= self@.len() ==> #[trigger] utf8_len(self@.take(i)) != b,
            },
    {
        proof {
            use_type_invariant(self);
        }
        let len = self.offsets.len();
        let mut lo: usize = 0;
        let mut hi: usize = len;
        while lo < hi
            invariant
                lo <= hi <= len,
                len == self.offsets@.len(),
                len <= self.chars@.len() + 1,
                forall|k: int| 0 <= k < len ==> #[trigger] self.offsets@[k] == utf8_len(self.chars@.take(k)),
                forall|k: int| 0 <= k < lo ==> #[trigger] self.offsets@[k] < b,
                forall|k: int| hi <= k < len ==> #[trigger] self.offsets@[k] >= b,
            decreases hi - lo,
        {
            let mid = lo + (hi - lo) / 2;
            if self.offsets[mid] < b {
                proof {
                    assert forall|k: int| 0 <= k < mid + 1 implies #[trigger] self.offsets@[k] < b by {
                        if k < mid {
                            lemma_utf8_len_strict(self.chars@, k, mid as int);
                        }
                    }
                }
                lo = mid + 1;
            } else {
                proof {
                    assert forall|k: int| mid <= k < len implies #[trigger] self.offsets@[k] >= b by {
                        if k > mid {
                            lemma_utf8_len_strict(self.chars@, mid as int, k);
                        }
                    }
                }
                hi = mid;
            }
        }
        if lo < len && self.offsets[lo] == b {
            Some(lo)
        } else {
            proof {
                use_type_invariant(self);
                assert forall|i: int| 0 <= i <= self@.len() implies #[trigger] utf8_len(self@.take(i)) != b by {
                    if i < len {
                        assert(self.offsets@[i] == utf8_len(self.chars@.take(i)));
                        if i > lo && lo < len {
                            assert(self.offsets@[lo as int] >= b);
                            lemma_utf8_len_strict(self.chars@, lo as int, i);
                        }
                    } else {
                        if i > len {
                            lemma_utf8_len_strict(self.chars@, len as int, i);
                        }
                    }
                }
            }
            None
        }
    }

    /// The text between the byte offsets `start` and `end` (`str::get` on that range; empty when
    /// it does not fall on character boundaries).
    pub fn slice(&self, start: usize, end: usize) -> (r: String)
        ensures
            r@ == byte_slice(self@, start, end),
    {
        let ghost s = self@;
        match (self.char_at_offset(start), self.char_at_offset(end)) {
            (Some(i), Some(j)) => {
                if i <= j {
                    let mut out: Vec<char> = Vec::new();
                    let mut k: usize = i;
                    while k < j
                        invariant
                            i <= k <= j <= s.len(),
                            s == self.chars@,
                            out@ == s.subrange(i as int, k as int),
                        decreases j - k,
                    {
                        out.push(self.chars[k]);
                        proof {
                            assert(s.subrange(i as int, k + 1) =~= s.subrange(i as int, k as int).push(s[k as int]));
                        }
                        k = k + 1;
                    }
                    proof {
                        let (a, c) = choose|a: int, c: int|
                            0 <= a <= c <= s.len() && #[trigger] utf8_len(s.take(a)) == start && #[trigger] utf8_len(s.take(c)) == end;
                        if a != i as int {
                            if a < i { lemma_utf8_len_strict(s, a, i as int); } else { lemma_utf8_len_strict(s, i as int, a); }
                        }
                        if c != j as int {
                            if c < j { lemma_utf8_len_strict(s, c, j as int); } else { lemma_utf8_len_strict(s, j as int, c); }
                        }
                    }
                    from_chars(out.as_slice())
                } else {
                    proof {
                        assert forall|a: int, c: int|
                            0 <= a <= c <= s.len() && #[trigger] utf8_len(s.take(a)) == start implies #[trigger] utf8_len(s.take(c)) != end by {
                            if a != i as int {
                                if a < i { lemma_utf8_len_strict(s, a, i as int); } else { lemma_utf8_len_strict(s, i as int, a); }
                            }
                            if c != j as int {
                                if c < j { lemma_utf8_len_strict(s, c, j as int); } else { lemma_utf8_len_strict(s, j as int, c); }
                            }
                        }
                    }
                    String::new()
                }
            },
            _ => String::new(),
        }
    }
}

} // verus!
