//! Inverted index construction and the integer side of search: which postings a query hits,
//! with the statistics BM25 needs, and the result filters.
use vstd::prelude::*;
use crate::order::{find_sorted, lex_lt, strictly_sorted, lemma_lex_irrefl, lemma_lex_asym, lemma_lex_trans};
use crate::paths::{extension, extension_exec};
use crate::text::{
    append_chars, ascii_lower, ascii_lower_exec, chars_eq, contains_exec, contains_sub,
    from_chars, lemma_views_push, replace_char, replace_char_exec, spec_to_lowercase,
    starts_with, starts_with_exec, str_to_lowercase, to_chars, views,
};
use crate::tokenizer::{
    split_identifier_spec, stem_filter, tokenize_identifier, tokenize_text, tokenize_text_spec,
    tokenize_query,
};
use crate::types::{
    CommentInfo, DocSection, IndexDocument, IndexDocumentView, SearchDocumentType, SearchFilters,
    Symbol, SymbolKind, doc_views, opt_view, searchable_text_of, take_chars,
};

verus! {

broadcast use vstd::seq::group_seq_axioms;

// ---------------------------------------------------------------------------
// Index internal types
// ---------------------------------------------------------------------------

/// Numeric identifier for an indexed document.
pub type DocId = u32;

/// Numeric identifier for a field within a document.
pub type FieldId = u8;

/// Field index for symbol name or section heading.
pub const FIELD_SYMBOL_NAME: FieldId = 0;

/// Field index for doc comment or section body content.
pub const FIELD_DOC_CONTENT: FieldId = 1;

/// Field index for parameter names or code symbols in docs.
pub const FIELD_PARAMS: FieldId = 2;

/// Field index for the file path.
pub const FIELD_FILEPATH: FieldId = 3;

/// Total number of indexed fields per document.
pub const NUM_FIELDS: usize = 4;

/// A single term occurrence record in the inverted index.
#[derive(Debug, Clone, Copy, PartialEq, Eq, Structural)]
pub struct Posting {
    /// The document containing this term.
    pub doc_id: DocId,
    /// The field in which the term appears.
    pub field_id: FieldId,
    /// How many times the term appears in this field.
    pub term_freq: u16,
}

/// Aggregate statistics for a single field across all documents.
#[derive(Debug, Clone, Copy, PartialEq, Eq, Structural)]
pub struct FieldStats {
    /// Sum of field lengths across all documents.
    pub total_length: u64,
    /// Number of documents that have a non-empty value for this field.
    pub doc_count: u32,
}

/// Inputs for scoring a single term hit in one document field.
#[derive(Debug, Clone, Copy, PartialEq, Eq, Structural)]
pub struct ScoreInput {
    /// How many times the term appears in the field.
    pub term_freq: u16,
    /// Number of tokens in the field.
    pub field_length: u16,
    /// Which logical field the hit belongs to.
    pub field_id: FieldId,
    /// Aggregate corpus stats for that field.
    pub field_stats: FieldStats,
    /// Number of documents containing the term.
    pub doc_freq: u32,
    /// Total number of indexed documents.
    pub total_docs: u32,
}

/// Stored document metadata, returned with search hits.
#[derive(Debug, Clone)]
pub enum StoredDoc {
    /// A code symbol.
    Code {
        filepath: String,
        name: String,
        kind: SymbolKind,
        start_line: u32,
        end_line: u32,
        is_example: bool,
    },
    /// A documentation section.
    Doc { filepath: String, section_title: String, content_preview: String },
}

/// The mathematical content of a `StoredDoc`.
pub enum StoredDocView {
    Code {
        filepath: Seq<char>,
        name: Seq<char>,
        kind: SymbolKind,
        start_line: u32,
        end_line: u32,
        is_example: bool,
    },
    Doc { filepath: Seq<char>, section_title: Seq<char>, content_preview: Seq<char> },
}

impl View for StoredDoc {
    type V = StoredDocView;

    open spec fn view(&self) -> StoredDocView {
        match self {
            StoredDoc::Code { filepath, name, kind, start_line, end_line, is_example } => {
                StoredDocView::Code {
                    filepath: filepath@,
                    name: name@,
                    kind: *kind,
                    start_line: *start_line,
                    end_line: *end_line,
                    is_example: *is_example,
                }
            },
            StoredDoc::Doc { filepath, section_title, content_preview } => StoredDocView::Doc {
                filepath: filepath@,
                section_title: section_title@,
                content_preview: content_preview@,
            },
        }
    }
}

impl StoredDoc {
    /// The file path of the stored document.
    pub fn filepath(&self) -> (r: &String)
        ensures
            r@ == stored_filepath(self@),
    {
        match self {
            StoredDoc::Code { filepath, .. } => filepath,
            StoredDoc::Doc { filepath, .. } => filepath,
        }
    }
}

pub open spec fn stored_filepath(d: StoredDocView) -> Seq<char> {
    match d {
        StoredDocView::Code { filepath, .. } => filepath,
        StoredDocView::Doc { filepath, .. } => filepath,
    }
}

// ---------------------------------------------------------------------------
// What the index holds, as functions of the documents
// ---------------------------------------------------------------------------

/// Occurrences of `t` in `ts`.
pub open spec fn cnt(ts: Seq<Seq<char>>, t: Seq<char>) -> nat
    decreases ts.len(),
{
    if ts.len() == 0 {
        0
    } else {
        cnt(ts.drop_last(), t) + if ts.last() == t {
            1nat
        } else {
            0
        }
    }
}

/// Identifier tokens: split, then stemmed.
pub open spec fn ident_tokens(s: Seq<char>) -> Seq<Seq<char>> {
    stem_filter(split_identifier_spec(s))
}

/// Identifier tokens of several strings, one after another.
pub open spec fn flat_ident_tokens(xs: Seq<Seq<char>>) -> Seq<Seq<char>>
    decreases xs.len(),
{
    if xs.len() == 0 {
        Seq::empty()
    } else {
        flat_ident_tokens(xs.drop_last()) + ident_tokens(xs.last())
    }
}

/// Text tokens of several strings, one after another.
pub open spec fn flat_text_tokens(xs: Seq<Seq<char>>) -> Seq<Seq<char>>
    decreases xs.len(),
{
    if xs.len() == 0 {
        Seq::empty()
    } else {
        flat_text_tokens(xs.drop_last()) + tokenize_text_spec(xs.last())
    }
}

/// The tokens of field `f` of a document. Fields: name or heading (with its ancestors),
/// comment or body, parameters or code-block identifiers, and file path.
pub open spec fn field_tokens(d: IndexDocumentView, f: int) -> Seq<Seq<char>> {
    match d {
        IndexDocumentView::Code(s) => if f == 0 {
            ident_tokens(s.name)
        } else if f == 1 {
            match s.comment {
                Some(c) => match searchable_text_of(c.summary_line, c.body_preview) {
                    Some(text) => tokenize_text_spec(text),
                    None => Seq::empty(),
                },
                None => Seq::empty(),
            }
        } else if f == 2 {
            flat_ident_tokens(s.params)
        } else {
            ident_tokens(s.filepath)
        },
        IndexDocumentView::Doc(sec) => if f == 0 {
            tokenize_text_spec(sec.section_title) + flat_text_tokens(sec.heading_hierarchy)
        } else if f == 1 {
            tokenize_text_spec(sec.content)
        } else if f == 2 {
            flat_ident_tokens(sec.code_symbols)
        } else {
            ident_tokens(sec.filepath)
        },
        IndexDocumentView::Reexport(_) => Seq::empty(),
    }
}

/// The documents that are indexed: code symbols and documentation sections, in order.
/// Re-export surfaces are kept for investigation only.
pub open spec fn indexed(docs: Seq<IndexDocumentView>) -> Seq<IndexDocumentView>
    decreases docs.len(),
{
    if docs.len() == 0 {
        Seq::empty()
    } else if docs.last() is Reexport {
        indexed(docs.drop_last())
    } else {
        indexed(docs.drop_last()).push(docs.last())
    }
}

/// The posting of term `t` in field `f` of document `id`, when the term occurs there.
pub open spec fn field_posting(d: IndexDocumentView, id: u32, f: int, t: Seq<char>) -> Seq<Posting> {
    if cnt(field_tokens(d, f), t) > 0 {
        seq![Posting { doc_id: id, field_id: f as u8, term_freq: cnt(field_tokens(d, f), t) as u16 }]
    } else {
        Seq::empty()
    }
}

/// Postings of `t` in the first `j` fields of a document.
pub open spec fn doc_postings(d: IndexDocumentView, id: u32, t: Seq<char>, j: int) -> Seq<Posting>
    decreases j,
{
    if j <= 0 {
        Seq::empty()
    } else {
        doc_postings(d, id, t, j - 1) + field_posting(d, id, j - 1, t)
    }
}

/// Postings of `t` in the first `k` indexed documents: by document, then by field.
pub open spec fn postings_upto(ds: Seq<IndexDocumentView>, t: Seq<char>, k: int) -> Seq<Posting>
    decreases k,
{
    if k <= 0 {
        Seq::empty()
    } else {
        postings_upto(ds, t, k - 1) + doc_postings(ds[k - 1], (k - 1) as u32, t, 4)
    }
}

/// Number of the first `k` indexed documents that contain `t` in some field.
pub open spec fn df_upto(ds: Seq<IndexDocumentView>, t: Seq<char>, k: int) -> nat
    decreases k,
{
    if k <= 0 {
        0
    } else {
        df_upto(ds, t, k - 1) + if doc_postings(ds[k - 1], (k - 1) as u32, t, 4).len() > 0 {
            1nat
        } else {
            0
        }
    }
}

/// Length of a field, capped at `u16::MAX`.
pub open spec fn field_len(d: IndexDocumentView, f: int) -> u16 {
    if field_tokens(d, f).len() > 65535 {
        65535
    } else {
        field_tokens(d, f).len() as u16
    }
}

/// Sum of the lengths of field `f` over the first `k` documents.
pub open spec fn total_len_upto(ds: Seq<IndexDocumentView>, f: int, k: int) -> nat
    decreases k,
{
    if k <= 0 {
        0
    } else {
        total_len_upto(ds, f, k - 1) + field_len(ds[k - 1], f) as nat
    }
}

/// Number of the first `k` documents in which field `f` is non-empty.
pub open spec fn nonempty_upto(ds: Seq<IndexDocumentView>, f: int, k: int) -> nat
    decreases k,
{
    if k <= 0 {
        0
    } else {
        nonempty_upto(ds, f, k - 1) + if field_len(ds[k - 1], f) > 0 {
            1nat
        } else {
            0
        }
    }
}

/// Whether a path names an example, sample or demo file.
pub open spec fn is_example_spec(p: Seq<char>) -> bool {
    let l = spec_to_lowercase(p);
    contains_sub(l, "example"@) || contains_sub(l, "sample"@) || contains_sub(l, "demo"@)
}

/// The metadata stored for a document.
pub open spec fn stored_of(d: IndexDocumentView) -> StoredDocView {
    match d {
        IndexDocumentView::Code(s) => StoredDocView::Code {
            filepath: s.filepath,
            name: s.name,
            kind: s.kind,
            start_line: s.start_line,
            end_line: s.end_line,
            is_example: is_example_spec(s.filepath),
        },
        IndexDocumentView::Doc(sec) => StoredDocView::Doc {
            filepath: sec.filepath,
            section_title: sec.section_title,
            content_preview: take_chars(sec.content, 200),
        },
        IndexDocumentView::Reexport(r) => StoredDocView::Doc {
            filepath: r.filepath,
            section_title: Seq::empty(),
            content_preview: Seq::empty(),
        },
    }
}

/// Term frequencies fit the `u16` the index stores them in.
pub open spec fn counts_fit(ds: Seq<IndexDocumentView>) -> bool {
    forall|k: int, f: int, t: Seq<char>|
        0 <= k < ds.len() && 0 <= f < 4 ==> #[trigger] cnt(field_tokens(ds[k], f), t) <= 65535
}

// ---------------------------------------------------------------------------
// Counting terms
// ---------------------------------------------------------------------------

proof fn lemma_cnt_push(ts: Seq<Seq<char>>, x: Seq<char>, t: Seq<char>)
    ensures
        cnt(ts.push(x), t) == cnt(ts, t) + if x == t {
            1nat
        } else {
            0
        },
{
    assert(ts.push(x).drop_last() =~= ts);
}

/// Distinct terms of a token list, sorted, each with its number of occurrences.
/// `None` when some term occurs more than `u16::MAX` times.
fn count_terms(tokens: &Vec<String>) -> (r: Option<(Vec<Vec<char>>, Vec<u16>)>)
    ensures
        (r is None) == (exists|t: Seq<char>| cnt(views(tokens@), t) > 65535),
        r matches Some((terms, counts)) ==> {
            &&& terms@.len() == counts@.len()
            &&& strictly_sorted(terms@.map_values(|v: Vec<char>| v@))
            &&& forall|i: int|
                0 <= i < terms@.len() ==> counts@[i] as nat == cnt(views(tokens@), #[trigger] terms@[i]@)
                    && counts@[i] > 0
            &&& forall|t: Seq<char>|
                cnt(views(tokens@), t) > 0 ==> exists|i: int|
                    0 <= i < terms@.len() && #[trigger] terms@[i]@ == t
        },
{
    let ghost ts = views(tokens@);
    let mut terms: Vec<Vec<char>> = Vec::new();
    let mut counts: Vec<u16> = Vec::new();
    let mut k: usize = 0;
    while k < tokens.len()
        invariant
            0 <= k <= tokens.len(),
            ts == views(tokens@),
            terms@.len() == counts@.len(),
            strictly_sorted(terms@.map_values(|v: Vec<char>| v@)),
            forall|i: int|
                0 <= i < terms@.len() ==> counts@[i] as nat == cnt(
                    ts.subrange(0, k as int),
                    #[trigger] terms@[i]@,
                ) && counts@[i] > 0,
            forall|t: Seq<char>|
                cnt(ts.subrange(0, k as int), t) > 0 ==> exists|i: int|
                    0 <= i < terms@.len() && #[trigger] terms@[i]@ == t,
            forall|t: Seq<char>| cnt(ts.subrange(0, k as int), t) <= 65535,
        decreases tokens.len() - k,
    {
        let w = to_chars(tokens[k].as_str());
        let ghost prev = ts.subrange(0, k as int);
        proof {
            assert(ts.subrange(0, k + 1) =~= prev.push(w@));
            assert forall|t: Seq<char>| #[trigger] cnt(ts.subrange(0, k + 1), t) == cnt(prev, t) + if w@ == t {
                1nat
            } else {
                0
            } by {
                lemma_cnt_push(prev, w@, t);
            }
        }
        let (found, pos) = find_sorted(&terms, &w);
        if found {
            if counts[pos] == 65535 {
                proof {
                    assert(cnt(ts.subrange(0, k + 1), w@) > 65535);
                    lemma_cnt_prefix_le(ts, k + 1, w@);
                }
                return None;
            }
            let c = counts[pos];
            counts.set(pos, c + 1);
            proof {
                assert forall|i: int| 0 <= i < terms@.len() && i != pos implies terms@[i]@ != w@ by {
                    let s = terms@.map_values(|v: Vec<char>| v@);
                    if i < pos {
                        assert(lex_lt(s[i], s[pos as int]));
                    } else {
                        assert(lex_lt(s[pos as int], s[i]));
                    }
                    if terms@[i]@ == w@ {
                        lemma_lex_irrefl(w@);
                    }
                }
            }
        } else {
            let ghost old_terms = terms@.map_values(|v: Vec<char>| v@);
            let ghost wv = w@;
            let ghost old_t = terms@;
            let ghost old_c = counts@;
            terms.insert(pos, w);
            counts.insert(pos, 1);
            proof {
                assert(terms@.map_values(|v: Vec<char>| v@) =~= old_terms.insert(pos as int, wv));
                crate::order::lemma_insert_keeps_sorted(old_terms, pos as int, wv);
                assert forall|q: int| 0 <= q < old_t.len() implies #[trigger] old_t[q]@ != wv by {
                    if q < pos {
                        assert(lex_lt(old_t[q]@, wv));
                    } else {
                        assert(lex_lt(wv, old_t[q]@));
                    }
                    if old_t[q]@ == wv {
                        lemma_lex_irrefl(wv);
                    }
                }
                assert forall|i: int| 0 <= i < terms@.len() implies counts@[i] as nat == cnt(
                    ts.subrange(0, k + 1),
                    #[trigger] terms@[i]@,
                ) && counts@[i] > 0 by {
                    if i < pos {
                        assert(terms@[i] == old_t[i]);
                        assert(counts@[i] == old_c[i]);
                    } else if i > pos {
                        assert(terms@[i] == old_t[i - 1]);
                        assert(counts@[i] == old_c[i - 1]);
                    } else {
                        if cnt(prev, wv) > 0 {
                            let q = choose|q: int| 0 <= q < old_t.len() && #[trigger] old_t[q]@ == wv;
                            assert(old_t[q]@ != wv);
                        }
                    }
                }
                assert forall|t: Seq<char>|
                    #[trigger] cnt(ts.subrange(0, k + 1), t) > 0 implies exists|i: int|
                        0 <= i < terms@.len() && #[trigger] terms@[i]@ == t by {
                    if t == wv {
                        assert(terms@[pos as int]@ == t);
                    } else {
                        let q = choose|q: int| 0 <= q < old_t.len() && #[trigger] old_t[q]@ == t;
                        if q < pos {
                            assert(terms@[q]@ == t);
                        } else {
                            assert(terms@[q + 1]@ == t);
                        }
                    }
                }
            }
        }
        k = k + 1;
    }
    proof {
        assert(ts.subrange(0, k as int) =~= ts);
    }
    Some((terms, counts))
}

proof fn lemma_cnt_prefix_le(ts: Seq<Seq<char>>, k: int, t: Seq<char>)
    requires
        0 <= k <= ts.len(),
    ensures
        cnt(ts.subrange(0, k), t) <= cnt(ts, t),
    decreases ts.len(),
{
    if k < ts.len() {
        assert(ts.drop_last().subrange(0, k) =~= ts.subrange(0, k));
        lemma_cnt_prefix_le(ts.drop_last(), k, t);
    } else {
        assert(ts.subrange(0, k) =~= ts);
    }
}


// ---------------------------------------------------------------------------
// Facts about the expected postings
// ---------------------------------------------------------------------------

proof fn lemma_doc_postings_ids(d: IndexDocumentView, id: u32, t: Seq<char>, j: int)
    requires
        0 <= j <= 4,
    ensures
        forall|q: int|
            0 <= q < doc_postings(d, id, t, j).len() ==> (#[trigger] doc_postings(d, id, t, j)[q]).doc_id
                == id && doc_postings(d, id, t, j)[q].field_id < j,
        doc_postings(d, id, t, j).len() <= j,
    decreases j,
{
    if j > 0 {
        lemma_doc_postings_ids(d, id, t, j - 1);
        let a = doc_postings(d, id, t, j - 1);
        let b = field_posting(d, id, j - 1, t);
        assert forall|q: int| 0 <= q < (a + b).len() implies (#[trigger] (a + b)[q]).doc_id == id
            && (a + b)[q].field_id < j by {
            if q < a.len() {
                assert((a + b)[q] == a[q]);
            } else {
                assert((a + b)[q] == b[q - a.len()]);
            }
        }
    }
}

proof fn lemma_postings_upto_ids(ds: Seq<IndexDocumentView>, t: Seq<char>, k: int)
    requires
        0 <= k < u32::MAX,
    ensures
        forall|q: int|
            0 <= q < postings_upto(ds, t, k).len() ==> (#[trigger] postings_upto(ds, t, k)[q]).doc_id
                < k && postings_upto(ds, t, k)[q].field_id < 4,
        df_upto(ds, t, k) <= k,
        postings_upto(ds, t, k).len() == 0 ==> df_upto(ds, t, k) == 0,
        postings_upto(ds, t, k).len() <= 4 * k,
    decreases k,
{
    if k > 0 {
        lemma_postings_upto_ids(ds, t, k - 1);
        lemma_doc_postings_ids(ds[k - 1], (k - 1) as u32, t, 4);
        let a = postings_upto(ds, t, k - 1);
        let b = doc_postings(ds[k - 1], (k - 1) as u32, t, 4);
        assert forall|q: int| 0 <= q < (a + b).len() implies (#[trigger] (a + b)[q]).doc_id < k
            && (a + b)[q].field_id < 4 by {
            if q < a.len() {
                assert((a + b)[q] == a[q]);
            } else {
                assert((a + b)[q] == b[q - a.len()]);
            }
        }
    }
}

/// Postings expected after `k` whole documents and `j` fields of the next one.
pub open spec fn exp_post(ds: Seq<IndexDocumentView>, t: Seq<char>, k: int, j: int) -> Seq<Posting> {
    postings_upto(ds, t, k) + doc_postings(ds[k], k as u32, t, j)
}

/// Document frequency expected after `k` whole documents and `j` fields of the next one.
pub open spec fn exp_df(ds: Seq<IndexDocumentView>, t: Seq<char>, k: int, j: int) -> nat {
    df_upto(ds, t, k) + if doc_postings(ds[k], k as u32, t, j).len() > 0 {
        1nat
    } else {
        0
    }
}

/// The term table while the index is being built.
struct Table {
    terms: Vec<Vec<char>>,
    postings: Vec<Vec<Posting>>,
    dfs: Vec<u32>,
}

impl Table {
    spec fn terms_view(&self) -> Seq<Seq<char>> {
        self.terms@.map_values(|v: Vec<char>| v@)
    }

    /// The table holds, for each term, its expected postings and document frequency.
    spec fn holds(&self, ds: Seq<IndexDocumentView>, k: int, j: int) -> bool {
        &&& self.terms@.len() == self.postings@.len()
        &&& self.terms@.len() == self.dfs@.len()
        &&& strictly_sorted(self.terms_view())
        &&& forall|i: int|
            0 <= i < self.terms@.len() ==> #[trigger] self.postings@[i]@ == exp_post(
                ds,
                self.terms@[i]@,
                k,
                j,
            ) && self.dfs@[i] as nat == exp_df(ds, self.terms@[i]@, k, j) && self.postings@[i]@.len()
                > 0
        &&& forall|t: Seq<char>|
            (#[trigger] exp_post(ds, t, k, j)).len() > 0 ==> term_in(self.terms@, t)
    }
}

spec fn in_first(cts: Seq<Vec<char>>, m: int, t: Seq<char>) -> bool {
    exists|q: int| 0 <= q < m && #[trigger] cts[q]@ == t
}

spec fn counted_ok(cts: Seq<Vec<char>>, ccs: Seq<u16>, ft: Seq<Seq<char>>) -> bool {
    &&& forall|i: int|
        0 <= i < cts.len() ==> ccs[i] as nat == cnt(ft, #[trigger] cts[i]@) && ccs[i] > 0
    &&& forall|t: Seq<char>| cnt(ft, t) > 0 ==> exists|i: int| 0 <= i < cts.len() && #[trigger] cts[i]@ == t
}

spec fn term_in(terms: Seq<Vec<char>>, t: Seq<char>) -> bool {
    exists|i: int| 0 <= i < terms.len() && #[trigger] terms[i]@ == t
}

spec fn post_at(cts: Seq<Vec<char>>, m: int, ds: Seq<IndexDocumentView>, t: Seq<char>, k: int, j: int) -> Seq<Posting> {
    if in_first(cts, m, t) {
        exp_post(ds, t, k, j + 1)
    } else {
        exp_post(ds, t, k, j)
    }
}

spec fn df_at(cts: Seq<Vec<char>>, m: int, ds: Seq<IndexDocumentView>, t: Seq<char>, k: int, j: int) -> nat {
    if in_first(cts, m, t) {
        exp_df(ds, t, k, j + 1)
    } else {
        exp_df(ds, t, k, j)
    }
}

/// Adds field `j` of document `k` (whose tokens are given) to the table.
fn add_field(
    tb: &mut Table,
    tokens: &Vec<String>,
    k: u32,
    j: u8,
    ghost_ds: Ghost<Seq<IndexDocumentView>>,
)
    requires
        old(tb).holds(ghost_ds@, k as int, j as int),
        0 <= k < ghost_ds@.len(),
        k < u32::MAX - 1,
        j < 4,
        views(tokens@) == field_tokens(ghost_ds@[k as int], j as int),
        counts_fit(ghost_ds@),
    ensures
        final(tb).holds(ghost_ds@, k as int, j + 1),
{
    let ghost ds = ghost_ds@;
    let ghost d = ds[k as int];
    let ghost ft = field_tokens(d, j as int);
    let counted = count_terms(tokens);
    let (cterms, ccounts) = match counted {
        Some(p) => p,
        None => {
            proof {
                let t = choose|t: Seq<char>| cnt(views(tokens@), t) > 65535;
                assert(cnt(field_tokens(ds[k as int], j as int), t) <= 65535);
            }
            return;
        },
    };
    let ghost cts = cterms@;
    proof {
        assert forall|t: Seq<char>| #[trigger] exp_post(ds, t, k as int, j + 1) == exp_post(ds, t, k as int, j as int) + field_posting(d, k, j as int, t) by {
            assert(doc_postings(d, k, t, j + 1) == doc_postings(d, k, t, j as int) + field_posting(d, k, j as int, t));
        }
    }
    let mut m: usize = 0;
    while m < cterms.len()
        invariant
            0 <= m <= cterms.len(),
            cts == cterms@,
            cterms@.len() == ccounts@.len(),
            strictly_sorted(cterms@.map_values(|v: Vec<char>| v@)),
            counted_ok(cterms@, ccounts@, ft),
            ds == ghost_ds@,
            d == ds[k as int],
            ft == field_tokens(d, j as int),
            0 <= k < ds.len(),
            k < u32::MAX - 1,
            j < 4,
            forall|t: Seq<char>| #[trigger] exp_post(ds, t, k as int, j + 1) == exp_post(ds, t, k as int, j as int) + field_posting(d, k, j as int, t),
            tb.terms@.len() == tb.postings@.len(),
            tb.terms@.len() == tb.dfs@.len(),
            strictly_sorted(tb.terms_view()),
            forall|i: int|
                0 <= i < tb.terms@.len() ==> #[trigger] tb.postings@[i]@ == post_at(cts, m as int, ds, tb.terms@[i]@, k as int, j as int)
                    && tb.dfs@[i] as nat == df_at(cts, m as int, ds, tb.terms@[i]@, k as int, j as int)
                    && tb.postings@[i]@.len() > 0,
            forall|t: Seq<char>|
                (#[trigger] post_at(cts, m as int, ds, t, k as int, j as int)).len() > 0 ==> term_in(tb.terms@, t),
        decreases cterms.len() - m,
    {
        let ghost tv = cterms@[m as int]@;
        let c = ccounts[m];
        assert(c as nat == cnt(ft, tv) && c > 0);
        let p = Posting { doc_id: k, field_id: j, term_freq: c };
        proof {
            assert(field_posting(d, k, j as int, tv) =~= seq![p]);
            assert(!in_first(cts, m as int, tv)) by {
                if in_first(cts, m as int, tv) {
                    let q = choose|q: int| 0 <= q < m && #[trigger] cts[q]@ == tv;
                    crate::order::lemma_sorted_unique_pos(cterms@.map_values(|v: Vec<char>| v@), q, m as int);
                }
            }
            lemma_postings_upto_ids(ds, tv, k as int);
            lemma_doc_postings_ids(d, k, tv, j as int);
        }
        let (found, pos) = find_sorted(&tb.terms, &cterms[m]);
        let ghost old_terms = tb.terms@;
        let ghost old_posts = tb.postings@;
        let ghost old_dfs = tb.dfs@;
        if found {
            let plen = tb.postings[pos].len();
            let already = plen > 0 && tb.postings[pos][plen - 1].doc_id == k;
            proof {
                let pv = old_posts[pos as int]@;
                assert(pv == exp_post(ds, tv, k as int, j as int));
                let a = postings_upto(ds, tv, k as int);
                let b = doc_postings(d, k, tv, j as int);
                if b.len() > 0 {
                    assert(pv.last() == b.last());
                    assert(b[b.len() - 1].doc_id == k);
                } else {
                    assert(pv =~= a);
                    if pv.len() > 0 {
                        assert(a[a.len() - 1].doc_id < k);
                    }
                }
                assert(already == (b.len() > 0));
            }
            tb.postings[pos].push(p);
            assert(tb.postings@[pos as int]@ =~= old_posts[pos as int]@.push(p));
            if !already {
                let df = tb.dfs[pos];
                tb.dfs.set(pos, df + 1);
            }
            proof {
                assert forall|i: int| 0 <= i < tb.terms@.len() implies #[trigger] tb.postings@[i]@ == post_at(cts, m + 1, ds, tb.terms@[i]@, k as int, j as int)
                    && tb.dfs@[i] as nat == df_at(cts, m + 1, ds, tb.terms@[i]@, k as int, j as int)
                    && tb.postings@[i]@.len() > 0 by {
                    let ti = tb.terms@[i]@;
                    assert(tb.terms@ == old_terms);
                    if i == pos {
                        assert(ti == tv);
                        assert(in_first(cts, m + 1, ti)) by {
                            assert(cts[m as int]@ == ti);
                        }
                        assert(old_posts[i]@ == post_at(cts, m as int, ds, ti, k as int, j as int));
                        assert(old_dfs[i] as nat == df_at(cts, m as int, ds, ti, k as int, j as int));
                        assert(post_at(cts, m as int, ds, ti, k as int, j as int) == exp_post(ds, ti, k as int, j as int));
                        assert(exp_post(ds, ti, k as int, j + 1) == exp_post(ds, ti, k as int, j as int) + field_posting(d, k, j as int, ti));
                        assert(doc_postings(d, k, ti, j + 1) == doc_postings(d, k, ti, j as int) + field_posting(d, k, j as int, ti));
                        assert(tb.postings@[i]@ =~= exp_post(ds, ti, k as int, j + 1));
                    } else {
                        assert(tb.postings@[i] == old_posts[i]);
                        assert(tb.dfs@[i] == old_dfs[i]);
                        assert(ti != tv) by {
                            if ti == tv {
                                crate::order::lemma_sorted_unique_pos(tb.terms_view(), i, pos as int);
                            }
                        }
                        assert(in_first(cts, m + 1, ti) == in_first(cts, m as int, ti)) by {
                            if in_first(cts, m + 1, ti) {
                                let q = choose|q: int| 0 <= q < m + 1 && #[trigger] cts[q]@ == ti;
                                assert(q != m);
                            }
                        }
                    }
                }
                assert forall|t: Seq<char>|
                    (#[trigger] post_at(cts, m + 1, ds, t, k as int, j as int)).len() > 0 implies term_in(tb.terms@, t) by {
                    assert(tb.terms@ == old_terms);
                    if t == tv {
                        assert(tb.terms@[pos as int]@ == t);
                    } else {
                        if in_first(cts, m + 1, t) {
                            let q = choose|q: int| 0 <= q < m + 1 && #[trigger] cts[q]@ == t;
                            assert(q != m);
                            assert(in_first(cts, m as int, t));
                        }
                        assert(post_at(cts, m + 1, ds, t, k as int, j as int) == post_at(cts, m as int, ds, t, k as int, j as int));
                    }
                }
            }
        } else {
            let mut ps: Vec<Posting> = Vec::new();
            ps.push(p);
            let term = crate::text::sub_chars(&cterms[m], 0, cterms[m].len());
            proof {
                assert(cterms@[m as int]@.subrange(0, cterms@[m as int]@.len() as int) =~= tv);
                assert(exp_post(ds, tv, k as int, j as int).len() == 0) by {
                    if exp_post(ds, tv, k as int, j as int).len() > 0 {
                        assert(post_at(cts, m as int, ds, tv, k as int, j as int) == exp_post(ds, tv, k as int, j as int));
                        assert(term_in(tb.terms@, tv));
                        let i = choose|i: int| 0 <= i < old_terms.len() && #[trigger] old_terms[i]@ == tv;
                        if i < pos {
                            assert(lex_lt(old_terms[i]@, tv));
                        } else {
                            assert(lex_lt(tv, old_terms[i]@));
                        }
                        lemma_lex_irrefl(tv);
                    }
                }
                assert(postings_upto(ds, tv, k as int).len() == 0);
                assert(doc_postings(d, k, tv, j as int).len() == 0);
                crate::order::lemma_insert_keeps_sorted(tb.terms_view(), pos as int, tv);
            }
            tb.terms.insert(pos, term);
            tb.postings.insert(pos, ps);
            tb.dfs.insert(pos, 1);
            proof {
                assert(tb.terms_view() =~= old_terms.map_values(|v: Vec<char>| v@).insert(pos as int, tv));
                assert forall|q: int| 0 <= q < old_terms.len() implies #[trigger] old_terms[q]@ != tv by {
                    if q < pos {
                        assert(lex_lt(old_terms[q]@, tv));
                    } else {
                        assert(lex_lt(tv, old_terms[q]@));
                    }
                    if old_terms[q]@ == tv {
                        lemma_lex_irrefl(tv);
                    }
                }
                assert forall|i: int| 0 <= i < tb.terms@.len() implies #[trigger] tb.postings@[i]@ == post_at(cts, m + 1, ds, tb.terms@[i]@, k as int, j as int)
                    && tb.dfs@[i] as nat == df_at(cts, m + 1, ds, tb.terms@[i]@, k as int, j as int)
                    && tb.postings@[i]@.len() > 0 by {
                    let ti = tb.terms@[i]@;
                    if i == pos {
                        assert(ti == tv);
                        assert(in_first(cts, m + 1, ti)) by {
                            assert(cts[m as int]@ == ti);
                        }
                        assert(doc_postings(d, k, ti, j + 1) == doc_postings(d, k, ti, j as int) + field_posting(d, k, j as int, ti));
                        assert(tb.postings@[i]@ =~= seq![p]);
                        assert(exp_post(ds, ti, k as int, j + 1) =~= seq![p]);
                    } else {
                        let oi = if i < pos { i } else { i - 1 };
                        assert(tb.terms@[i] == old_terms[oi]);
                        assert(tb.postings@[i] == old_posts[oi]);
                        assert(tb.dfs@[i] == old_dfs[oi]);
                        assert(ti != tv);
                        assert(in_first(cts, m + 1, ti) == in_first(cts, m as int, ti)) by {
                            if in_first(cts, m + 1, ti) {
                                let q = choose|q: int| 0 <= q < m + 1 && #[trigger] cts[q]@ == ti;
                                assert(q != m);
                            }
                        }
                    }
                }
                assert forall|t: Seq<char>|
                    (#[trigger] post_at(cts, m + 1, ds, t, k as int, j as int)).len() > 0 implies term_in(tb.terms@, t) by {
                    if t == tv {
                        assert(tb.terms@[pos as int]@ == t);
                    } else {
                        if in_first(cts, m + 1, t) {
                            let q = choose|q: int| 0 <= q < m + 1 && #[trigger] cts[q]@ == t;
                            assert(q != m);
                            assert(in_first(cts, m as int, t));
                        }
                        assert(post_at(cts, m + 1, ds, t, k as int, j as int) == post_at(cts, m as int, ds, t, k as int, j as int));
                        assert(term_in(old_terms, t));
                        let i = choose|i: int| 0 <= i < old_terms.len() && #[trigger] old_terms[i]@ == t;
                        if i < pos {
                            assert(tb.terms@[i]@ == t);
                        } else {
                            assert(tb.terms@[i + 1]@ == t);
                        }
                    }
                }
            }
        }
        m = m + 1;
    }
    proof {
        assert forall|t: Seq<char>| !in_first(cts, cts.len() as int, t) implies #[trigger] exp_post(ds, t, k as int, j + 1) == exp_post(ds, t, k as int, j as int) by {
            if cnt(ft, t) > 0 {
                assert(counted_ok(cterms@, ccounts@, ft));
                let i = choose|i: int| 0 <= i < cts.len() && #[trigger] cts[i]@ == t;
                assert(in_first(cts, cts.len() as int, t));
            }
            assert(field_posting(d, k, j as int, t) =~= Seq::<Posting>::empty());
            assert(exp_post(ds, t, k as int, j as int) + Seq::<Posting>::empty() =~= exp_post(ds, t, k as int, j as int));
        }
        assert forall|t: Seq<char>| !in_first(cts, cts.len() as int, t) implies #[trigger] exp_df(ds, t, k as int, j + 1) == exp_df(ds, t, k as int, j as int) by {
            assert(doc_postings(d, k, t, j + 1) == doc_postings(d, k, t, j as int) + field_posting(d, k, j as int, t));
            if cnt(ft, t) > 0 {
                assert(counted_ok(cterms@, ccounts@, ft));
                let i = choose|i: int| 0 <= i < cts.len() && #[trigger] cts[i]@ == t;
                assert(in_first(cts, cts.len() as int, t));
            }
            assert(field_posting(d, k, j as int, t) =~= Seq::<Posting>::empty());
            assert(doc_postings(d, k, t, j + 1) =~= doc_postings(d, k, t, j as int));
        }
        let n = cts.len() as int;
        assert forall|i: int| 0 <= i < tb.terms@.len() implies #[trigger] tb.postings@[i]@ == exp_post(
            ds,
            tb.terms@[i]@,
            k as int,
            j + 1,
        ) && tb.dfs@[i] as nat == exp_df(ds, tb.terms@[i]@, k as int, j + 1) && tb.postings@[i]@.len() > 0 by {
            let ti = tb.terms@[i]@;
            assert(tb.postings@[i]@ == post_at(cts, n, ds, ti, k as int, j as int));
            assert(tb.dfs@[i] as nat == df_at(cts, n, ds, ti, k as int, j as int));
            if !in_first(cts, n, ti) {
                assert(exp_post(ds, ti, k as int, j + 1) == exp_post(ds, ti, k as int, j as int));
                assert(exp_df(ds, ti, k as int, j + 1) == exp_df(ds, ti, k as int, j as int));
            }
        }
        assert forall|t: Seq<char>| (#[trigger] exp_post(ds, t, k as int, j + 1)).len() > 0 implies term_in(tb.terms@, t) by {
            if !in_first(cts, n, t) {
                assert(exp_post(ds, t, k as int, j + 1) == exp_post(ds, t, k as int, j as int));
            }
            assert(post_at(cts, n, ds, t, k as int, j as int) == exp_post(ds, t, k as int, j + 1));
        }
    }
}


// ---------------------------------------------------------------------------
// Per-document tokens and metadata
// ---------------------------------------------------------------------------

fn flat_ident_exec(xs: &Vec<String>) -> (r: Vec<String>)
    ensures
        views(r@) == flat_ident_tokens(views(xs@)),
{
    let mut out: Vec<String> = Vec::new();
    let mut i: usize = 0;
    while i < xs.len()
        invariant
            0 <= i <= xs.len(),
            views(out@) == flat_ident_tokens(views(xs@).subrange(0, i as int)),
        decreases xs.len() - i,
    {
        let ts = tokenize_identifier(xs[i].as_str());
        crate::text::extend_strings(&mut out, ts);
        proof {
            let pre = views(xs@).subrange(0, i as int);
            assert(views(xs@).subrange(0, i + 1) =~= pre.push(xs@[i as int]@));
            assert(pre.push(xs@[i as int]@).drop_last() =~= pre);
        }
        i = i + 1;
    }
    assert(views(xs@).subrange(0, i as int) =~= views(xs@));
    out
}

fn flat_text_exec(xs: &Vec<String>) -> (r: Vec<String>)
    ensures
        views(r@) == flat_text_tokens(views(xs@)),
{
    let mut out: Vec<String> = Vec::new();
    let mut i: usize = 0;
    while i < xs.len()
        invariant
            0 <= i <= xs.len(),
            views(out@) == flat_text_tokens(views(xs@).subrange(0, i as int)),
        decreases xs.len() - i,
    {
        let ts = tokenize_text(xs[i].as_str());
        crate::text::extend_strings(&mut out, ts);
        proof {
            let pre = views(xs@).subrange(0, i as int);
            assert(views(xs@).subrange(0, i + 1) =~= pre.push(xs@[i as int]@));
            assert(pre.push(xs@[i as int]@).drop_last() =~= pre);
        }
        i = i + 1;
    }
    assert(views(xs@).subrange(0, i as int) =~= views(xs@));
    out
}

/// The tokens of field `f` of a document.
fn doc_field_tokens(doc: &IndexDocument, f: u8) -> (r: Vec<String>)
    requires
        f < 4,
    ensures
        views(r@) == field_tokens(doc@, f as int),
{
    match doc {
        IndexDocument::Code(symbol) => {
            if f == 0 {
                tokenize_identifier(symbol.name.as_str())
            } else if f == 1 {
                match &symbol.comment {
                    Some(c) => match c.searchable_text() {
                        Some(t) => tokenize_text(t.as_str()),
                        None => Vec::new(),
                    },
                    None => Vec::new(),
                }
            } else if f == 2 {
                flat_ident_exec(&symbol.params)
            } else {
                tokenize_identifier(symbol.filepath.as_str())
            }
        },
        IndexDocument::Doc(section) => {
            if f == 0 {
                let mut ts = tokenize_text(section.section_title.as_str());
                let rest = flat_text_exec(&section.heading_hierarchy);
                crate::text::extend_strings(&mut ts, rest);
                ts
            } else if f == 1 {
                tokenize_text(section.content.as_str())
            } else if f == 2 {
                flat_ident_exec(&section.code_symbols)
            } else {
                tokenize_identifier(section.filepath.as_str())
            }
        },
        IndexDocument::Reexport(_) => {
            let r: Vec<String> = Vec::new();
            assert(views(r@) =~= Seq::<Seq<char>>::empty());
            r
        },
    }
}

/// Whether a path names an example, sample or demo file.
fn is_example_path(filepath: &str) -> (r: bool)
    ensures
        r == is_example_spec(filepath@),
{
    let lower = str_to_lowercase(filepath);
    let l = to_chars(lower.as_str());
    contains_exec(&l, &to_chars("example")) || contains_exec(&l, &to_chars("sample"))
        || contains_exec(&l, &to_chars("demo"))
}

fn stored_doc_of(doc: &IndexDocument) -> (r: StoredDoc)
    requires
        !(doc@ is Reexport),
    ensures
        r@ == stored_of(doc@),
{
    match doc {
        IndexDocument::Code(symbol) => StoredDoc::Code {
            filepath: symbol.filepath.clone(),
            name: symbol.name.clone(),
            kind: symbol.kind,
            start_line: symbol.start_line,
            end_line: symbol.end_line,
            is_example: is_example_path(symbol.filepath.as_str()),
        },
        IndexDocument::Doc(section) => {
            let content = to_chars(section.content.as_str());
            let n = if content.len() <= 200 {
                content.len()
            } else {
                200
            };
            let preview = crate::text::sub_chars(&content, 0, n);
            proof {
                if content@.len() <= 200 {
                    assert(content@.subrange(0, n as int) =~= content@);
                }
            }
            StoredDoc::Doc {
                filepath: section.filepath.clone(),
                section_title: section.section_title.clone(),
                content_preview: from_chars(preview.as_slice()),
            }
        },
        IndexDocument::Reexport(_) => {
            assert(false);
            StoredDoc::Doc { filepath: String::new(), section_title: String::new(), content_preview: String::new() }
        },
    }
}

fn saturating_u16(value: usize) -> (r: u16)
    ensures
        r == if value > 65535 {
            65535
        } else {
            value
        },
{
    if value > 65535 {
        65535
    } else {
        value as u16
    }
}


// ---------------------------------------------------------------------------
// Inverted index
// ---------------------------------------------------------------------------

/// BM25-backed inverted index over code symbols and documentation sections.
///
/// Terms are kept sorted, each with its postings (by document, then by field) and its
/// document frequency.
pub struct InvertedIndex {
    terms: Vec<Vec<char>>,
    postings: Vec<Vec<Posting>>,
    doc_freqs: Vec<u32>,
    documents: Vec<StoredDoc>,
    field_lengths: Vec<[u16; 4]>,
    field_stats: [FieldStats; 4],
}

/// Every document that is not a re-export is indexed, in input order: with no re-export among
/// the inputs, the indexed documents are the inputs themselves, so an index built from them
/// stores one document per input.
pub proof fn lemma_build_keeps_every_document(docs: Seq<IndexDocumentView>)
    requires
        forall|i: int| 0 <= i < docs.len() ==> !(#[trigger] docs[i] is Reexport),
    ensures
        indexed(docs) == docs,
    decreases docs.len(),
{
    if docs.len() > 0 {
        let rest = docs.drop_last();
        assert forall|i: int| 0 <= i < rest.len() implies !(#[trigger] rest[i] is Reexport) by {
            assert(rest[i] == docs[i]);
        }
        lemma_build_keeps_every_document(rest);
        assert(!(docs[docs.len() - 1] is Reexport));
        assert(rest.push(docs.last()) =~= docs);
    }
}

/// The parameter field of a code symbol holds the identifier tokens of its parameter names,
/// one parameter after another: none without parameters, and one more parameter appends its
/// tokens.
pub proof fn lemma_param_field_tokens(s: crate::types::SymbolView, p: Seq<char>)
    ensures
        s.params.len() == 0 ==> field_tokens(IndexDocumentView::Code(s), 2) == Seq::<Seq<char>>::empty(),
        field_tokens(IndexDocumentView::Code(crate::types::SymbolView { params: s.params.push(p), ..s }), 2)
            == field_tokens(IndexDocumentView::Code(s), 2) + ident_tokens(p),
{
    assert(s.params.push(p).drop_last() =~= s.params);
}

proof fn lemma_flat_ident_has(xs: Seq<Seq<char>>, i: int, k: int)
    requires
        0 <= i < xs.len(),
        0 <= k < ident_tokens(xs[i]).len(),
    ensures
        exists|j: int| 0 <= j < flat_ident_tokens(xs).len() && flat_ident_tokens(xs)[j] == ident_tokens(xs[i])[k],
    decreases xs.len(),
{
    let prev = flat_ident_tokens(xs.drop_last());
    let last = ident_tokens(xs.last());
    assert(flat_ident_tokens(xs) == prev + last);
    if i < xs.len() - 1 {
        assert(xs.drop_last()[i] == xs[i]);
        lemma_flat_ident_has(xs.drop_last(), i, k);
        let j = choose|j: int| 0 <= j < prev.len() && prev[j] == ident_tokens(xs[i])[k];
        assert((prev + last)[j] == prev[j]);
    } else {
        assert((prev + last)[prev.len() + k] == last[k]);
    }
}

proof fn lemma_cnt_of_member(ts: Seq<Seq<char>>, j: int)
    requires
        0 <= j < ts.len(),
    ensures
        cnt(ts, ts[j]) > 0,
    decreases ts.len(),
{
    if j < ts.len() - 1 {
        assert(ts.drop_last()[j] == ts[j]);
        lemma_cnt_of_member(ts.drop_last(), j);
    }
}

/// Every identifier token of a parameter name of a code symbol gives the symbol a posting in
/// the parameter field, so a query for that token hits the symbol there.
pub proof fn lemma_param_tokens_hit(s: crate::types::SymbolView, id: u32, i: int, k: int)
    requires
        0 <= i < s.params.len(),
        0 <= k < ident_tokens(s.params[i]).len(),
    ensures
        ({
            let d = IndexDocumentView::Code(s);
            let t = ident_tokens(s.params[i])[k];
            &&& cnt(field_tokens(d, 2), t) > 0
            &&& field_posting(d, id, 2, t) == seq![Posting { doc_id: id, field_id: 2, term_freq: cnt(field_tokens(d, 2), t) as u16 }]
        }),
{
    lemma_flat_ident_has(s.params, i, k);
    let ts = field_tokens(IndexDocumentView::Code(s), 2);
    let j = choose|j: int| 0 <= j < ts.len() && ts[j] == ident_tokens(s.params[i])[k];
    lemma_cnt_of_member(ts, j);
}

proof fn lemma_indexed_prefix(s: Seq<IndexDocumentView>, i: int)
    requires
        0 <= i <= s.len(),
    ensures
        indexed(s.subrange(0, i)).len() <= indexed(s).len(),
        indexed(s.subrange(0, i)) == indexed(s).subrange(0, indexed(s.subrange(0, i)).len() as int),
    decreases s.len(),
{
    if i < s.len() {
        assert(s.drop_last().subrange(0, i) =~= s.subrange(0, i));
        lemma_indexed_prefix(s.drop_last(), i);
        let a = indexed(s.drop_last());
        let b = indexed(s);
        if !(s.last() is Reexport) {
            assert(b == a.push(s.last()));
            assert(a.push(s.last()).subrange(0, indexed(s.subrange(0, i)).len() as int) =~= a.subrange(0, indexed(s.subrange(0, i)).len() as int));
        }
    } else {
        assert(s.subrange(0, i) =~= s);
        assert(indexed(s).subrange(0, indexed(s).len() as int) =~= indexed(s));
    }
}

proof fn lemma_indexed_step(s: Seq<IndexDocumentView>, i: int)
    requires
        0 <= i < s.len(),
    ensures
        indexed(s.subrange(0, i + 1)) == if s[i] is Reexport {
            indexed(s.subrange(0, i))
        } else {
            indexed(s.subrange(0, i)).push(s[i])
        },
{
    assert(s.subrange(0, i + 1).drop_last() =~= s.subrange(0, i));
}

proof fn lemma_totals_bounded(ds: Seq<IndexDocumentView>, f: int, k: int)
    requires
        k >= 0,
    ensures
        total_len_upto(ds, f, k) <= 65535 * k,
        nonempty_upto(ds, f, k) <= k,
    decreases k,
{
    if k > 0 {
        lemma_totals_bounded(ds, f, k - 1);
    }
}

impl InvertedIndex {
    /// Internal consistency: parallel tables, sorted terms, and postings that point at stored
    /// documents and real fields.
    #[verifier::type_invariant]
    closed spec fn wf(&self) -> bool {
        &&& self.terms@.len() == self.postings@.len()
        &&& self.terms@.len() == self.doc_freqs@.len()
        &&& strictly_sorted(self.terms@.map_values(|v: Vec<char>| v@))
        &&& self.field_lengths@.len() == self.documents@.len()
        &&& self.documents@.len() < u32::MAX
        &&& forall|i: int, q: int|
            0 <= i < self.postings@.len() && 0 <= q < self.postings@[i]@.len() ==> (
            #[trigger] self.postings@[i]@[q]).doc_id < self.documents@.len()
                && self.postings@[i]@[q].field_id < 4
    }

    /// The postings of term `t` (empty when the term is not indexed).
    pub closed spec fn postings_of(&self, t: Seq<char>) -> Seq<Posting> {
        if exists|i: int| 0 <= i < self.terms@.len() && #[trigger] self.terms@[i]@ == t {
            self.postings@[choose|i: int| 0 <= i < self.terms@.len() && #[trigger] self.terms@[i]@ == t]@
        } else {
            Seq::empty()
        }
    }

    /// The document frequency of term `t`.
    pub closed spec fn doc_freq_of(&self, t: Seq<char>) -> nat {
        if exists|i: int| 0 <= i < self.terms@.len() && #[trigger] self.terms@[i]@ == t {
            self.doc_freqs@[choose|i: int| 0 <= i < self.terms@.len() && #[trigger] self.terms@[i]@ == t] as nat
        } else {
            0
        }
    }

    /// The stored metadata of the indexed documents, by document id.
    pub closed spec fn stored(&self) -> Seq<StoredDocView> {
        self.documents@.map_values(|d: StoredDoc| d@)
    }

    /// Whether this is the index of `docs`: it stores each document that is not a re-export, in
    /// order, with its postings, document frequencies, field lengths and field statistics.
    pub open spec fn built_from(&self, docs: Seq<IndexDocumentView>) -> bool {
        let ds = indexed(docs);
        &&& self.stored() == ds.map_values(|d: IndexDocumentView| stored_of(d))
        &&& forall|t: Seq<char>| #[trigger] self.postings_of(t) == postings_upto(ds, t, ds.len() as int)
        &&& forall|t: Seq<char>| #[trigger] self.doc_freq_of(t) == df_upto(ds, t, ds.len() as int)
        &&& forall|d: int, f: int|
            0 <= d < ds.len() && 0 <= f < 4 ==> #[trigger] self.field_length(d, f) == field_len(ds[d], f)
        &&& forall|f: int|
            0 <= f < 4 ==> #[trigger] self.stats(f) == FieldStats {
                total_length: total_len_upto(ds, f, ds.len() as int) as u64,
                doc_count: nonempty_upto(ds, f, ds.len() as int) as u32,
            }
    }

    /// The length of field `f` of document `d`.
    pub closed spec fn field_length(&self, d: int, f: int) -> u16 {
        self.field_lengths@[d]@[f]
    }

    /// The corpus statistics of field `f`.
    pub closed spec fn stats(&self, f: int) -> FieldStats {
        self.field_stats@[f]
    }

    /// Build an index from a collection of parsed documents.
    ///
    /// Code symbols and documentation sections are indexed in order (re-exports are not);
    /// each term gets its postings and the number of documents it occurs in.
    pub fn build(docs: &Vec<IndexDocument>) -> (r: Self)
        requires
            docs@.len() < u32::MAX - 1,
            counts_fit(indexed(doc_views(docs@))),
        ensures
            r.built_from(doc_views(docs@)),
    {
        let ghost dv = doc_views(docs@);
        let ghost ds = indexed(dv);
        let mut tb = Table { terms: Vec::new(), postings: Vec::new(), dfs: Vec::new() };
        let mut documents: Vec<StoredDoc> = Vec::new();
        let mut field_lengths: Vec<[u16; 4]> = Vec::new();
        let mut tot: [u64; 4] = [0, 0, 0, 0];
        let mut dc: [u32; 4] = [0, 0, 0, 0];
        let mut k: u32 = 0;
        let mut i: usize = 0;
        proof {
            assert(dv.subrange(0, 0) =~= Seq::<IndexDocumentView>::empty());
            assert forall|t: Seq<char>| (#[trigger] exp_post(ds, t, 0, 0)).len() == 0 by {
                assert(exp_post(ds, t, 0, 0) =~= Seq::<Posting>::empty());
            }
        }
        while i < docs.len()
            invariant
                0 <= i <= docs.len(),
                docs@.len() < u32::MAX - 1,
                dv == doc_views(docs@),
                ds == indexed(dv),
                counts_fit(ds),
                k as int == indexed(dv.subrange(0, i as int)).len(),
                k <= i,
                k <= ds.len(),
                tb.holds(ds, k as int, 0),
                documents@.map_values(|d: StoredDoc| d@) == ds.subrange(0, k as int).map_values(
                    |d: IndexDocumentView| stored_of(d),
                ),
                field_lengths@.len() == k,
                forall|d: int, f: int|
                    0 <= d < k && 0 <= f < 4 ==> #[trigger] field_lengths@[d]@[f] == field_len(ds[d], f),
                forall|f: int| 0 <= f < 4 ==> #[trigger] tot@[f] == total_len_upto(ds, f, k as int),
                forall|f: int| 0 <= f < 4 ==> #[trigger] dc@[f] == nonempty_upto(ds, f, k as int),
            decreases docs.len() - i,
        {
            proof {
                lemma_indexed_step(dv, i as int);
                lemma_indexed_prefix(dv, i + 1);
                assert(dv[i as int] == docs@[i as int]@);
            }
            let doc = &docs[i];
            let is_reexport = match doc {
                IndexDocument::Reexport(_) => true,
                _ => false,
            };
            if !is_reexport {
                proof {
                    let pre = indexed(dv.subrange(0, i + 1));
                    assert(pre == indexed(dv.subrange(0, i as int)).push(dv[i as int]));
                    assert(pre.len() == k + 1);
                    assert(pre[k as int] == dv[i as int]);
                    assert(pre == ds.subrange(0, k + 1));
                    assert(ds.subrange(0, k + 1)[k as int] == ds[k as int]);
                    assert(ds[k as int] == dv[i as int]);
                }
                let mut lens: [u16; 4] = [0, 0, 0, 0];
                let mut f: u8 = 0;
                while f < 4
                    invariant
                        0 <= f <= 4,
                        k < ds.len(),
                        k < u32::MAX - 1,
                        ds[k as int] == doc@,
                        counts_fit(ds),
                        tb.holds(ds, k as int, f as int),
                        forall|g: int| 0 <= g < f ==> #[trigger] lens@[g] == field_len(ds[k as int], g),
                    decreases 4 - f,
                {
                    let ts = doc_field_tokens(doc, f);
                    add_field(&mut tb, &ts, k, f, Ghost(ds));
                    let len = saturating_u16(ts.len());
                    lens.set(f as usize, len);
                    f = f + 1;
                }
                let sd = stored_doc_of(doc);
                let ghost dbefore = documents@.map_values(|d: StoredDoc| d@);
                documents.push(sd);
                field_lengths.push(lens);
                proof {
                    lemma_totals_bounded(ds, 0, k as int);
                    lemma_totals_bounded(ds, 1, k as int);
                    lemma_totals_bounded(ds, 2, k as int);
                    lemma_totals_bounded(ds, 3, k as int);
                }
                let mut g: usize = 0;
                while g < 4
                    invariant
                        0 <= g <= 4,
                        k < ds.len(),
                        k < u32::MAX - 1,
                        forall|h: int| 0 <= h < 4 ==> #[trigger] lens@[h] == field_len(ds[k as int], h),
                        forall|h: int| 0 <= h < g ==> #[trigger] tot@[h] == total_len_upto(ds, h, k + 1),
                        forall|h: int| g <= h < 4 ==> #[trigger] tot@[h] == total_len_upto(ds, h, k as int),
                        forall|h: int| 0 <= h < g ==> #[trigger] dc@[h] == nonempty_upto(ds, h, k + 1),
                        forall|h: int| g <= h < 4 ==> #[trigger] dc@[h] == nonempty_upto(ds, h, k as int),
                        forall|h: int| 0 <= h < 4 ==> total_len_upto(ds, h, k as int) <= 65535 * k,
                        forall|h: int| 0 <= h < 4 ==> nonempty_upto(ds, h, k as int) <= k,
                    decreases 4 - g,
                {
                    proof {
                        lemma_totals_bounded(ds, g as int, k as int);
                    }
                    let t = tot[g];
                    tot.set(g, t + lens[g] as u64);
                    if lens[g] > 0 {
                        let c = dc[g];
                        dc.set(g, c + 1);
                    }
                    g = g + 1;
                }
                proof {
                    assert(ds.subrange(0, k + 1).map_values(|d: IndexDocumentView| stored_of(d)) =~= ds.subrange(0, k as int).map_values(|d: IndexDocumentView| stored_of(d)).push(stored_of(ds[k as int])));
                    assert(documents@.map_values(|d: StoredDoc| d@) =~= dbefore.push(sd@));
                    assert forall|t: Seq<char>| #[trigger] exp_post(ds, t, k + 1, 0) == exp_post(ds, t, k as int, 4) by {
                        assert(doc_postings(ds[k + 1], (k + 1) as u32, t, 0) =~= Seq::<Posting>::empty());
                        assert(exp_post(ds, t, k + 1, 0) =~= postings_upto(ds, t, k + 1));
                    }
                    assert forall|t: Seq<char>| #[trigger] exp_df(ds, t, k + 1, 0) == exp_df(ds, t, k as int, 4) by {
                        assert(doc_postings(ds[k + 1], (k + 1) as u32, t, 0) =~= Seq::<Posting>::empty());
                    }
                    assert forall|d: int, f: int|
                        0 <= d < k + 1 && 0 <= f < 4 implies #[trigger] field_lengths@[d]@[f] == field_len(ds[d], f) by {
                        if d == k {
                            assert(field_lengths@[d] == lens);
                        }
                    }
                }
                k = k + 1;
            }
            i = i + 1;
        }
        proof {
            assert(dv.subrange(0, i as int) =~= dv);
            assert(ds.subrange(0, k as int) =~= ds);
        }
        let ghost ts = tb.terms@;
        let ghost ps = tb.postings@;
        let ghost dfsv = tb.dfs@;
        let ghost n = k as int;
        proof {
            assert forall|t: Seq<char>| #[trigger] exp_post(ds, t, n, 0) == postings_upto(ds, t, n) by {
                assert(exp_post(ds, t, n, 0) =~= postings_upto(ds, t, n));
            }
            assert forall|i: int, q: int|
                0 <= i < ps.len() && 0 <= q < ps[i]@.len() implies (#[trigger] ps[i]@[q]).doc_id < n
                    && ps[i]@[q].field_id < 4 by {
                lemma_postings_upto_ids(ds, ts[i]@, n);
                assert(ps[i]@ == exp_post(ds, ts[i]@, n, 0));
            }
        }
        let r = InvertedIndex {
            terms: tb.terms,
            postings: tb.postings,
            doc_freqs: tb.dfs,
            documents,
            field_lengths,
            field_stats: [
                FieldStats { total_length: tot[0], doc_count: dc[0] },
                FieldStats { total_length: tot[1], doc_count: dc[1] },
                FieldStats { total_length: tot[2], doc_count: dc[2] },
                FieldStats { total_length: tot[3], doc_count: dc[3] },
            ],
        };
        proof {
            assert(r.stored() =~= ds.map_values(|d: IndexDocumentView| stored_of(d)));
            assert forall|t: Seq<char>| #[trigger] r.postings_of(t) == postings_upto(ds, t, n) by {
                if exists|i: int| 0 <= i < ts.len() && #[trigger] ts[i]@ == t {
                    let i = choose|i: int| 0 <= i < ts.len() && #[trigger] ts[i]@ == t;
                    assert(ps[i]@ == exp_post(ds, t, n, 0));
                } else {
                    lemma_postings_upto_ids(ds, t, n);
                    if postings_upto(ds, t, n).len() > 0 {
                        assert(exp_post(ds, t, n, 0).len() > 0);
                        assert(term_in(ts, t));
                    }
                }
            }
            assert forall|t: Seq<char>| #[trigger] r.doc_freq_of(t) == df_upto(ds, t, n) by {
                assert(exp_df(ds, t, n, 0) == df_upto(ds, t, n)) by {
                    assert(doc_postings(ds[n], n as u32, t, 0) =~= Seq::<Posting>::empty());
                }
                if exists|i: int| 0 <= i < ts.len() && #[trigger] ts[i]@ == t {
                    let i = choose|i: int| 0 <= i < ts.len() && #[trigger] ts[i]@ == t;
                    assert(ps[i]@ == exp_post(ds, t, n, 0));
                    assert(dfsv[i] as nat == exp_df(ds, t, n, 0));
                    assert(r.doc_freqs@ == dfsv);
                } else {
                    lemma_postings_upto_ids(ds, t, n);
                    if postings_upto(ds, t, n).len() > 0 {
                        assert(exp_post(ds, t, n, 0).len() > 0);
                        assert(term_in(ts, t));
                    }
                }
            }
            assert forall|f: int| 0 <= f < 4 implies #[trigger] r.stats(f) == FieldStats {
                total_length: total_len_upto(ds, f, n) as u64,
                doc_count: nonempty_upto(ds, f, n) as u32,
            } by {
                assert(tot@[f] == total_len_upto(ds, f, n));
                assert(dc@[f] == nonempty_upto(ds, f, n));
            }
        }
        r
    }
}


// ---------------------------------------------------------------------------
// Query hits and filters
// ---------------------------------------------------------------------------

/// Whether `filepath`, with `\` read as `/`, lies under directory `dir`.
pub open spec fn path_in_dir(filepath: Seq<char>, dir: Seq<char>) -> bool {
    starts_with(replace_char(filepath, '\\', '/'), dir + seq!['/'])
}

/// Whether a stored document passes the directory, extension and type filters.
pub open spec fn passes_filters(d: StoredDocView, dirs: Seq<Seq<char>>, exts: Seq<Seq<char>>, result_type: Option<SearchDocumentType>) -> bool {
    let fp = stored_filepath(d);
    let ty = match d {
        StoredDocView::Code { .. } => SearchDocumentType::Code,
        StoredDocView::Doc { .. } => SearchDocumentType::Doc,
    };
    &&& (result_type matches Some(rt) ==> rt == ty)
    &&& (dirs.len() > 0 ==> exists|i: int| 0 <= i < dirs.len() && path_in_dir(fp, #[trigger] dirs[i]))
    &&& (exts.len() > 0 ==> (extension(fp) matches Some(e) && exists|i: int|
        0 <= i < exts.len() && #[trigger] exts[i] == ascii_lower(e)))
}

fn path_matches_dir(filepath: &Vec<char>, dir: &String) -> (r: bool)
    ensures
        r == path_in_dir(filepath@, dir@),
{
    let normalized = replace_char_exec(filepath, '\\', '/');
    let mut prefix = to_chars(dir.as_str());
    prefix.push('/');
    assert(prefix@ =~= dir@ + seq!['/']);
    starts_with_exec(&normalized, &prefix)
}

fn any_dir_matches(filepath: &Vec<char>, dirs: &Vec<String>) -> (r: bool)
    ensures
        r == exists|i: int| 0 <= i < dirs@.len() && path_in_dir(filepath@, #[trigger] views(dirs@)[i]),
{
    let mut i: usize = 0;
    while i < dirs.len()
        invariant
            0 <= i <= dirs.len(),
            forall|j: int| 0 <= j < i ==> !path_in_dir(filepath@, #[trigger] views(dirs@)[j]),
        decreases dirs.len() - i,
    {
        if path_matches_dir(filepath, &dirs[i]) {
            assert(views(dirs@)[i as int] == dirs@[i as int]@);
            return true;
        }
        i = i + 1;
    }
    false
}

fn any_ext_matches(ext: &Vec<char>, exts: &Vec<String>) -> (r: bool)
    ensures
        r == exists|i: int| 0 <= i < exts@.len() && #[trigger] views(exts@)[i] == ext@,
{
    let mut i: usize = 0;
    while i < exts.len()
        invariant
            0 <= i <= exts.len(),
            forall|j: int| 0 <= j < i ==> #[trigger] views(exts@)[j] != ext@,
        decreases exts.len() - i,
    {
        if crate::text::string_eq_chars(&exts[i], ext) {
            assert(views(exts@)[i as int] == exts@[i as int]@);
            return true;
        }
        i = i + 1;
    }
    false
}

/// The score input of one posting of a term.
pub open spec fn input_of(idx: &InvertedIndex, t: Seq<char>, p: Posting) -> ScoreInput {
    ScoreInput {
        term_freq: p.term_freq,
        field_length: idx.field_length(p.doc_id as int, p.field_id as int),
        field_id: p.field_id,
        field_stats: idx.stats(p.field_id as int),
        doc_freq: idx.doc_freq_of(t) as u32,
        total_docs: idx.stored().len() as u32,
    }
}

/// Every posting of every query token (repeated tokens count again), with its score input.
pub open spec fn query_hits(idx: &InvertedIndex, qts: Seq<Seq<char>>) -> Seq<(DocId, ScoreInput)>
    decreases qts.len(),
{
    if qts.len() == 0 {
        Seq::empty()
    } else {
        query_hits(idx, qts.drop_last()) + idx.postings_of(qts.last()).map_values(
            |p: Posting| (p.doc_id, input_of(idx, qts.last(), p)),
        )
    }
}

impl InvertedIndex {
    /// Return the total number of indexed documents.
    pub fn doc_count(&self) -> (r: usize)
        ensures
            r == self.stored().len(),
    {
        self.documents.len()
    }

    /// The stored metadata of document `doc_id`.
    pub fn stored_doc(&self, doc_id: DocId) -> (r: &StoredDoc)
        requires
            doc_id < self.stored().len(),
        ensures
            r@ == self.stored()[doc_id as int],
    {
        &self.documents[doc_id as usize]
    }

    fn lookup(&self, t: &Vec<char>) -> (r: Option<usize>)
        ensures
            match r {
                Some(i) => i < self.postings@.len() && i < self.doc_freqs@.len()
                    && self.postings@[i as int]@ == self.postings_of(t@)
                    && self.doc_freqs@[i as int] as nat == self.doc_freq_of(t@),
                None => self.postings_of(t@).len() == 0 && self.doc_freq_of(t@) == 0,
            },
    {
        proof {
            use_type_invariant(self);
        }
        let (found, pos) = find_sorted(&self.terms, t);
        if found {
            proof {
                let ts = self.terms@;
                let c = choose|i: int| 0 <= i < ts.len() && #[trigger] ts[i]@ == t@;
                crate::order::lemma_sorted_unique_pos(ts.map_values(|v: Vec<char>| v@), c, pos as int);
            }
            Some(pos)
        } else {
            proof {
                if exists|i: int| 0 <= i < self.terms@.len() && #[trigger] self.terms@[i]@ == t@ {
                    let c = choose|i: int| 0 <= i < self.terms@.len() && #[trigger] self.terms@[i]@ == t@;
                    if c < pos {
                        assert(lex_lt(self.terms@[c]@, t@));
                    } else {
                        assert(lex_lt(t@, self.terms@[c]@));
                    }
                    lemma_lex_irrefl(t@);
                }
            }
            None
        }
    }

    /// The postings hit by a query, each with the statistics its BM25 score needs. The
    /// query is tokenized like text; an empty result means nothing matches.
    pub fn hits_for_query(&self, query: &str) -> (r: Vec<(DocId, ScoreInput)>)
        ensures
            r@ == query_hits(self, tokenize_text_spec(query@)),
            forall|q: int| 0 <= q < r@.len() ==> (#[trigger] r@[q]).0 < self.stored().len(),
    {
        proof {
            use_type_invariant(self);
        }
        let qts = tokenize_query(query);
        let ghost qv = views(qts@);
        let total = self.documents.len() as u32;
        let mut out: Vec<(DocId, ScoreInput)> = Vec::new();
        let mut i: usize = 0;
        while i < qts.len()
            invariant
                0 <= i <= qts.len(),
                qv == views(qts@),
                total as int == self.stored().len(),
                out@ == query_hits(self, qv.subrange(0, i as int)),
                forall|q: int| 0 <= q < out@.len() ==> (#[trigger] out@[q]).0 < self.stored().len(),
            decreases qts.len() - i,
        {
            let t = to_chars(qts[i].as_str());
            proof {
                assert(qv.subrange(0, i + 1).drop_last() =~= qv.subrange(0, i as int));
                assert(qv.subrange(0, i + 1).last() == t@);
            }
            match self.lookup(&t) {
                None => {
                    assert(self.postings_of(t@).map_values(|p: Posting| (p.doc_id, input_of(self, t@, p))) =~= Seq::<(DocId, ScoreInput)>::empty());
                    assert(out@ =~= query_hits(self, qv.subrange(0, i + 1)));
                },
                Some(ti) => {
                    let doc_freq = self.doc_freqs[ti];
                    let ps = &self.postings[ti];
                    let ghost base = out@;
                    let mut q: usize = 0;
                    while q < ps.len()
                        invariant
                            0 <= q <= ps.len(),
                            ps@ == self.postings_of(t@),
                            ti < self.postings@.len(),
                            ps == self.postings@[ti as int],
                            doc_freq as nat == self.doc_freq_of(t@),
                            total as int == self.stored().len(),
                            out@ == base + ps@.subrange(0, q as int).map_values(
                                |p: Posting| (p.doc_id, input_of(self, t@, p)),
                            ),
                            forall|k: int| 0 <= k < out@.len() ==> (#[trigger] out@[k]).0 < self.stored().len(),
                            forall|k: int| 0 <= k < base.len() ==> (#[trigger] base[k]).0 < self.stored().len(),
                        decreases ps.len() - q,
                    {
                        proof {
                            use_type_invariant(self);
                            assert(self.postings@[ti as int]@[q as int] == ps@[q as int]);
                        }
                        let p = ps[q];
                        let d = p.doc_id as usize;
                        let f = p.field_id as usize;
                        let input = ScoreInput {
                            term_freq: p.term_freq,
                            field_length: self.field_lengths[d][f],
                            field_id: p.field_id,
                            field_stats: self.field_stats[f],
                            doc_freq,
                            total_docs: total,
                        };
                        out.push((p.doc_id, input));
                        q = q + 1;
                        assert(out@ =~= base + ps@.subrange(0, q as int).map_values(
                            |p: Posting| (p.doc_id, input_of(self, t@, p)),
                        ));
                    }
                    assert(ps@.subrange(0, q as int) =~= ps@);
                    assert(out@ =~= query_hits(self, qv.subrange(0, i + 1)));
                },
            }
            i = i + 1;
        }
        assert(qv.subrange(0, i as int) =~= qv);
        out
    }

    /// Whether document `d` is hit by the query tokens `qts` and passes the filters.
    pub open spec fn is_candidate(&self, qts: Seq<Seq<char>>, d: DocId, filters: SearchFilters) -> bool {
        &&& d < self.stored().len()
        &&& exists|q: int| 0 <= q < query_hits(self, qts).len() && (#[trigger] query_hits(self, qts)[q]).0 == d
        &&& passes_filters(self.stored()[d as int], views(filters.dirs@), views(filters.exts@), filters.result_type)
    }

    /// The documents that a query hits and that pass the filters: each once, in increasing
    /// order of document id. These are the documents a search scores and ranks.
    pub fn candidates(&self, query: &str, filters: &SearchFilters) -> (r: Vec<DocId>)
        ensures
            forall|i: int, j: int| 0 <= i < j < r@.len() ==> r@[i] < r@[j],
            forall|d: DocId| r@.contains(d) <==> self.is_candidate(tokenize_text_spec(query@), d, *filters),
    {
        proof {
            use_type_invariant(self);
        }
        let hits = self.hits_for_query(query);
        let ghost qts = tokenize_text_spec(query@);
        let n = self.documents.len();
        let mut seen: Vec<bool> = Vec::new();
        let mut k: usize = 0;
        while k < n
            invariant
                k <= n,
                n == self.stored().len(),
                seen@.len() == k,
                forall|d: int| 0 <= d < k ==> !seen@[d],
            decreases n - k,
        {
            seen.push(false);
            k = k + 1;
        }
        let mut h: usize = 0;
        while h < hits.len()
            invariant
                h <= hits.len(),
                n == self.stored().len(),
                hits@ == query_hits(self, qts),
                forall|q: int| 0 <= q < hits@.len() ==> (#[trigger] hits@[q]).0 < self.stored().len(),
                seen@.len() == n,
                forall|d: int| 0 <= d < n ==> (#[trigger] seen@[d] <==> (
                    (exists|q: int| 0 <= q < h && (#[trigger] hits@[q]).0 == d)
                    && passes_filters(self.stored()[d], views(filters.dirs@), views(filters.exts@), filters.result_type))),
            decreases hits.len() - h,
        {
            let d = hits[h].0;
            if self.matches_filters(d, filters) {
                seen.set(d as usize, true);
            }
            proof {
                assert forall|e: int| 0 <= e < n implies (#[trigger] seen@[e] <==> (
                    (exists|q: int| 0 <= q < h + 1 && (#[trigger] hits@[q]).0 == e)
                    && passes_filters(self.stored()[e], views(filters.dirs@), views(filters.exts@), filters.result_type))) by {
                    if e == d as int {
                        assert(hits@[h as int].0 == e);
                    } else {
                        if exists|q: int| 0 <= q < h + 1 && (#[trigger] hits@[q]).0 == e {
                            let q = choose|q: int| 0 <= q < h + 1 && (#[trigger] hits@[q]).0 == e;
                            assert(q < h);
                        }
                    }
                }
            }
            h = h + 1;
        }
        let mut out: Vec<DocId> = Vec::new();
        let mut i: usize = 0;
        while i < n
            invariant
                i <= n,
                n == self.stored().len(),
                n < u32::MAX,
                seen@.len() == n,
                forall|a: int, b: int| 0 <= a < b < out@.len() ==> out@[a] < out@[b],
                forall|a: int| 0 <= a < out@.len() ==> out@[a] < i,
                forall|d: DocId| (d < i && seen@[d as int]) <==> out@.contains(d),
            decreases n - i,
        {
            if seen[i] {
                let ghost pre = out@;
                out.push(i as DocId);
                proof {
                    assert forall|d: DocId| (d < i + 1 && seen@[d as int]) <==> out@.contains(d) by {
                        if d == i as DocId {
                            assert(out@[out@.len() - 1] == d);
                        } else if out@.contains(d) {
                            let a = choose|a: int| 0 <= a < out@.len() && out@[a] == d;
                            if a < pre.len() {
                                assert(pre[a] == d);
                            }
                        } else if d < i && seen@[d as int] {
                            let a = choose|a: int| 0 <= a < pre.len() && pre[a] == d;
                            assert(out@[a] == d);
                        }
                    }
                }
            } else {
                proof {
                    assert forall|d: DocId| (d < i + 1 && seen@[d as int]) <==> out@.contains(d) by {
                        if out@.contains(d) {
                            let a = choose|a: int| 0 <= a < out@.len() && out@[a] == d;
                            assert(out@[a] < i);
                        }
                    }
                }
            }
            i = i + 1;
        }
        proof {
            assert forall|d: DocId| out@.contains(d) <==> self.is_candidate(qts, d, *filters) by {
                if d < n {
                    assert(seen@[d as int] <==> self.is_candidate(qts, d, *filters));
                } else if out@.contains(d) {
                    let a = choose|a: int| 0 <= a < out@.len() && out@[a] == d;
                }
            }
        }
        out
    }

    /// Whether document `doc_id` passes the directory, extension and type filters.
    pub fn matches_filters(&self, doc_id: DocId, filters: &SearchFilters) -> (r: bool)
        ensures
            r == (doc_id < self.stored().len() && passes_filters(
                self.stored()[doc_id as int],
                views(filters.dirs@),
                views(filters.exts@),
                filters.result_type,
            )),
    {
        if doc_id as usize >= self.documents.len() {
            return false;
        }
        let doc = &self.documents[doc_id as usize];
        let is_code = match doc {
            StoredDoc::Code { .. } => true,
            StoredDoc::Doc { .. } => false,
        };
        let fp = to_chars(doc.filepath().as_str());
        match filters.result_type {
            Some(SearchDocumentType::Code) => {
                if !is_code {
                    return false;
                }
            },
            Some(SearchDocumentType::Doc) => {
                if is_code {
                    return false;
                }
            },
            None => {},
        }
        if filters.dirs.len() > 0 && !any_dir_matches(&fp, &filters.dirs) {
            return false;
        }
        if filters.exts.len() > 0 {
            match extension_exec(&fp) {
                None => {
                    return false;
                },
                Some(e) => {
                    let lower = ascii_lower_exec(&e);
                    if !any_ext_matches(&lower, &filters.exts) {
                        return false;
                    }
                },
            }
        }
        true
    }
}


/// Build the index of `docs` when its limits hold: fewer than `u32::MAX - 1` documents, and
/// every term frequency and field length within the index's `u16` counters. `None` otherwise.
pub fn try_build(docs: &Vec<IndexDocument>) -> (r: Option<InvertedIndex>)
    ensures
        r is Some <==> (docs@.len() < u32::MAX - 1 && counts_fit(indexed(doc_views(docs@)))),
        r matches Some(ix) ==> ix.built_from(doc_views(docs@)),
{
    if docs.len() < u32::MAX as usize - 1 && counts_within_limits(docs) {
        Some(InvertedIndex::build(docs))
    } else {
        None
    }
}

// ---------------------------------------------------------------------------
// Stored form of an index
// ---------------------------------------------------------------------------

/// Whether every term frequency of the documents fits the index's `u16` counters: the
/// condition under which `InvertedIndex::build` may be called.
pub fn counts_within_limits(docs: &Vec<IndexDocument>) -> (r: bool)
    ensures
        r == counts_fit(indexed(doc_views(docs@))),
{
    let ghost dv = doc_views(docs@);
    let ghost ds = indexed(dv);
    let mut i: usize = 0;
    let ghost mut k: int = 0;
    proof {
        assert(dv.subrange(0, 0) =~= Seq::<IndexDocumentView>::empty());
    }
    while i < docs.len()
        invariant
            0 <= i <= docs.len(),
            dv == doc_views(docs@),
            ds == indexed(dv),
            k == indexed(dv.subrange(0, i as int)).len(),
            forall|k2: int, f: int, t: Seq<char>|
                0 <= k2 < k && 0 <= f < 4 ==> #[trigger] cnt(field_tokens(ds[k2], f), t) <= 65535,
        decreases docs.len() - i,
    {
        proof {
            lemma_indexed_step(dv, i as int);
            lemma_indexed_prefix(dv, i as int);
            lemma_indexed_prefix(dv, i + 1);
            assert(dv[i as int] == docs@[i as int]@);
        }
        let doc = &docs[i];
        let is_reexport = match doc {
            IndexDocument::Reexport(_) => true,
            _ => false,
        };
        if !is_reexport {
            proof {
                let pre = indexed(dv.subrange(0, i + 1));
                assert(pre == indexed(dv.subrange(0, i as int)).push(dv[i as int]));
                assert(pre == ds.subrange(0, k + 1));
                assert(ds.subrange(0, k + 1)[k] == ds[k]);
                assert(ds[k] == doc@);
            }
            let mut f: u8 = 0;
            while f < 4
                invariant
                    0 <= f <= 4,
                    dv == doc_views(docs@),
                    ds == indexed(dv),
                    0 <= k < ds.len(),
                    ds[k] == doc@,
                    forall|k2: int, f2: int, t: Seq<char>|
                        0 <= k2 < k && 0 <= f2 < 4 ==> #[trigger] cnt(field_tokens(ds[k2], f2), t) <= 65535,
                    forall|f2: int, t: Seq<char>|
                        0 <= f2 < f ==> #[trigger] cnt(field_tokens(ds[k], f2), t) <= 65535,
                decreases 4 - f,
            {
                let ts = doc_field_tokens(doc, f);
                match count_terms(&ts) {
                    None => {
                        proof {
                            let t = choose|t: Seq<char>| cnt(views(ts@), t) > 65535;
                            assert(cnt(field_tokens(ds[k], f as int), t) > 65535);
                        }
                        return false;
                    },
                    Some(_) => {},
                }
                f = f + 1;
            }
            proof {
                k = k + 1;
            }
        }
        i = i + 1;
    }
    proof {
        assert(dv.subrange(0, i as int) =~= dv);
    }
    true
}

/// The tables of an index, as they are written to and read back from storage.
pub struct IndexParts {
    /// The indexed terms, strictly increasing.
    pub terms: Vec<Vec<char>>,
    /// The postings of each term.
    pub postings: Vec<Vec<Posting>>,
    /// The document frequency of each term.
    pub doc_freqs: Vec<u32>,
    /// The stored metadata of each document.
    pub documents: Vec<StoredDoc>,
    /// The field lengths of each document.
    pub field_lengths: Vec<[u16; 4]>,
    /// The corpus statistics of each field.
    pub field_stats: [FieldStats; 4],
}

/// Whether stored tables form a consistent index: parallel tables, strictly increasing terms,
/// and postings that point at stored documents and real fields.
pub open spec fn parts_wf(p: IndexParts) -> bool {
    &&& p.terms@.len() == p.postings@.len()
    &&& p.terms@.len() == p.doc_freqs@.len()
    &&& strictly_sorted(p.terms@.map_values(|v: Vec<char>| v@))
    &&& p.field_lengths@.len() == p.documents@.len()
    &&& p.documents@.len() < u32::MAX
    &&& forall|i: int, q: int|
        0 <= i < p.postings@.len() && 0 <= q < p.postings@[i]@.len() ==> (
        #[trigger] p.postings@[i]@[q]).doc_id < p.documents@.len() && p.postings@[i]@[q].field_id < 4
}

impl InvertedIndex {
    /// The tables the index holds.
    pub closed spec fn parts_spec(&self) -> IndexParts {
        IndexParts {
            terms: self.terms,
            postings: self.postings,
            doc_freqs: self.doc_freqs,
            documents: self.documents,
            field_lengths: self.field_lengths,
            field_stats: self.field_stats,
        }
    }

    /// Two indexes with the same tables are the same index.
    pub proof fn lemma_parts_determine_index(a: InvertedIndex, b: InvertedIndex)
        requires
            a.parts_spec() == b.parts_spec(),
        ensures
            a == b,
    {
        assert(a.terms == a.parts_spec().terms);
        assert(b.terms == b.parts_spec().terms);
    }

    /// Hand out the index's tables for storage.
    pub fn into_parts(self) -> (r: IndexParts)
        ensures
            r == self.parts_spec(),
            parts_wf(r),
    {
        proof {
            use_type_invariant(&self);
        }
        let InvertedIndex { terms, postings, doc_freqs, documents, field_lengths, field_stats } = self;
        IndexParts { terms, postings, doc_freqs, documents, field_lengths, field_stats }
    }

    /// Rebuild an index from stored tables; `None` when they are not consistent.
    pub fn from_parts(p: IndexParts) -> (r: Option<InvertedIndex>)
        ensures
            r is Some <==> parts_wf(p),
            r matches Some(idx) ==> idx.parts_spec() == p,
    {
        if p.terms.len() != p.postings.len() || p.terms.len() != p.doc_freqs.len()
            || p.field_lengths.len() != p.documents.len() || p.documents.len() >= 0xffff_ffff {
            return None;
        }
        let ghost tv = p.terms@.map_values(|v: Vec<char>| v@);
        let mut i: usize = 1;
        while i < p.terms.len()
            invariant
                1 <= i,
                i <= p.terms.len() || p.terms.len() == 0,
                tv == p.terms@.map_values(|v: Vec<char>| v@),
                forall|a: int, b: int| 0 <= a < b < i && b < tv.len() ==> lex_lt(#[trigger] tv[a], #[trigger] tv[b]),
            decreases p.terms.len() - i,
        {
            if !crate::order::lex_lt_exec(&p.terms[i - 1], &p.terms[i]) {
                assert(!strictly_sorted(tv)) by {
                    assert(!lex_lt(tv[i - 1], tv[i as int]));
                }
                return None;
            }
            proof {
                assert forall|a: int, b: int| 0 <= a < b < i + 1 && b < tv.len() implies lex_lt(#[trigger] tv[a], #[trigger] tv[b]) by {
                    if b == i && a < i - 1 {
                        lemma_lex_trans(tv[a], tv[i - 1], tv[b]);
                    }
                }
            }
            i = i + 1;
        }
        assert(strictly_sorted(tv));
        let n = p.documents.len();
        let mut j: usize = 0;
        while j < p.postings.len()
            invariant
                0 <= j <= p.postings.len(),
                n == p.documents@.len(),
                forall|i2: int, q: int|
                    0 <= i2 < j && 0 <= q < p.postings@[i2]@.len() ==> (#[trigger] p.postings@[i2]@[q]).doc_id < n
                        && p.postings@[i2]@[q].field_id < 4,
            decreases p.postings.len() - j,
        {
            let ps = &p.postings[j];
            let mut q: usize = 0;
            while q < ps.len()
                invariant
                    0 <= q <= ps.len(),
                    j < p.postings@.len(),
                    ps == p.postings@[j as int],
                    n == p.documents@.len(),
                    forall|q2: int| 0 <= q2 < q ==> (#[trigger] ps@[q2]).doc_id < n && ps@[q2].field_id < 4,
                decreases ps.len() - q,
            {
                if ps[q].doc_id as usize >= n || ps[q].field_id >= 4 {
                    assert(!parts_wf(p)) by {
                        assert(p.postings@[j as int]@[q as int] == ps@[q as int]);
                    }
                    return None;
                }
                q = q + 1;
            }
            proof {
                assert forall|i2: int, q2: int|
                    0 <= i2 < j + 1 && 0 <= q2 < p.postings@[i2]@.len() implies (#[trigger] p.postings@[i2]@[q2]).doc_id < n
                        && p.postings@[i2]@[q2].field_id < 4 by {
                    if i2 == j {
                        assert(p.postings@[i2]@[q2] == ps@[q2]);
                    }
                }
            }
            j = j + 1;
        }
        let IndexParts { terms, postings, doc_freqs, documents, field_lengths, field_stats } = p;
        Some(InvertedIndex { terms, postings, doc_freqs, documents, field_lengths, field_stats })
    }
}

} // verus!
