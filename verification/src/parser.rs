//! Source and documentation file dispatch: which parser handles a file, and what its outcome
//! is.
use vstd::prelude::*;
use crate::investigation::last_index;
use crate::markdown::{parse_markdown, parse_markdown_spec};
use crate::text::{views, contains_exec, contains_sub, ends_with, ends_with_exec, spec_to_lowercase, str_to_lowercase, to_chars, from_chars, str_eq};
use crate::types::{DocSection, DocSectionView, IndexDocument, IndexDocumentView, ParseOutcome, doc_views};

verus! {

broadcast use vstd::seq::group_seq_axioms;

/// Error type for parse operations.
#[non_exhaustive]
pub enum ParseError {
    /// The file extension is not supported.
    UnsupportedExtension {
        /// The file path.
        filepath: String,
    },
    /// The parser failed to parse the file.
    ParseFailed {
        /// The file path.
        filepath: String,
        /// The reason for the failure.
        reason: String,
    },
}

impl ParseError {
    /// The error message.
    pub fn message(&self) -> (r: String)
        ensures
            r@ == match self {
                ParseError::UnsupportedExtension { filepath } => "unsupported file extension: "@ + filepath@,
                ParseError::ParseFailed { filepath, reason } => "parse failed for "@ + filepath@ + ": "@ + reason@,
            },
    {
        match self {
            ParseError::UnsupportedExtension { filepath } => {
                let mut v = to_chars("unsupported file extension: ");
                crate::text::append_chars(&mut v, &to_chars(filepath.as_str()));
                from_chars(v.as_slice())
            },
            ParseError::ParseFailed { filepath, reason } => {
                let mut v = to_chars("parse failed for ");
                crate::text::append_chars(&mut v, &to_chars(filepath.as_str()));
                crate::text::append_chars(&mut v, &to_chars(": "));
                crate::text::append_chars(&mut v, &to_chars(reason.as_str()));
                from_chars(v.as_slice())
            },
        }
    }
}

/// Whether a path names a documentation file: Markdown, or a readme, changelog or contributing
/// guide (compared in Unicode lowercase).
pub open spec fn is_doc_path(path: Seq<char>) -> bool {
    let lower = spec_to_lowercase(path);
    ||| ends_with(lower, ".md"@)
    ||| ends_with(lower, ".mdx"@)
    ||| contains_sub(lower, "readme"@)
    ||| contains_sub(lower, "changelog"@)
    ||| contains_sub(lower, "contributing"@)
}

/// Check if a file is likely a documentation file based on path.
pub fn is_doc_file(path: &str) -> (r: bool)
    ensures
        r == is_doc_path(path@),
{
    let lower = to_chars(str_to_lowercase(path).as_str());
    ends_with_exec(&lower, &to_chars(".md")) || ends_with_exec(&lower, &to_chars(".mdx"))
        || contains_exec(&lower, &to_chars("readme")) || contains_exec(&lower, &to_chars("changelog"))
        || contains_exec(&lower, &to_chars("contributing"))
}

/// What follows the last `.` of a path (the whole path when it has none), as
/// `rsplit('.').next()` gives it.
pub open spec fn last_segment(path: Seq<char>) -> Seq<char> {
    match last_index(path, '.') {
        Some(i) => path.subrange(i + 1, path.len() as int),
        None => path,
    }
}

/// The extension of a path as a parse outcome reports it: what follows the last `.`, `None`
/// for a path without one.
pub open spec fn extension_of(path: Seq<char>) -> Option<Seq<char>> {
    match last_index(path, '.') {
        Some(i) => Some(path.subrange(i + 1, path.len() as int)),
        None => None,
    }
}

/// Exec: `extension_of`.
pub fn extension_exec(path: &str) -> (r: Option<String>)
    ensures
        crate::types::opt_view(r) == extension_of(path@),
{
    let v = to_chars(path);
    let mut i: usize = v.len();
    assert(v@.subrange(0, i as int) =~= v@);
    while i > 0
        invariant
            0 <= i <= v.len(),
            v@ == path@,
            last_index(v@, '.') == last_index(v@.subrange(0, i as int), '.'),
        decreases i,
    {
        if v[i - 1] == '.' {
            assert(v@.subrange(0, i as int).last() == '.');
            assert(last_index(v@, '.') == Some(i - 1));
            let t = crate::text::sub_chars(&v, i, v.len());
            return Some(from_chars(t.as_slice()));
        }
        assert(v@.subrange(0, i as int).drop_last() =~= v@.subrange(0, i - 1));
        i = i - 1;
    }
    None
}

/// Exec: `last_segment`.
pub fn last_segment_exec(path: &str) -> (r: String)
    ensures
        r@ == last_segment(path@),
{
    let v = to_chars(path);
    let mut i: usize = v.len();
    assert(v@.subrange(0, i as int) =~= v@);
    while i > 0
        invariant
            0 <= i <= v.len(),
            v@ == path@,
            last_index(v@, '.') == last_index(v@.subrange(0, i as int), '.'),
        decreases i,
    {
        if v[i - 1] == '.' {
            assert(v@.subrange(0, i as int).last() == '.');
            assert(last_index(v@, '.') == Some(i - 1));
            let t = crate::text::sub_chars(&v, i, v.len());
            return from_chars(t.as_slice());
        }
        assert(v@.subrange(0, i as int).drop_last() =~= v@.subrange(0, i - 1));
        i = i - 1;
    }
    from_chars(v.as_slice())
}

/// The extensions handled by the TypeScript/JavaScript extractor.
pub open spec fn is_ts_ext(ext: Seq<char>) -> bool {
    ||| ext == "ts"@
    ||| ext == "tsx"@
    ||| ext == "js"@
    ||| ext == "jsx"@
    ||| ext == "mts"@
    ||| ext == "cts"@
    ||| ext == "mjs"@
    ||| ext == "cjs"@
}

/// The extensions parsed as Markdown.
pub open spec fn is_md_ext(ext: Seq<char>) -> bool {
    ext == "md"@ || ext == "mdx"@
}

/// Exec: whether a path's last segment is a TypeScript/JavaScript extension.
pub fn is_ts_path(filepath: &str) -> (r: bool)
    ensures
        r == is_ts_ext(last_segment(filepath@)),
{
    let e = last_segment_exec(filepath);
    let e = e.as_str();
    str_eq(e, "ts") || str_eq(e, "tsx") || str_eq(e, "js") || str_eq(e, "jsx") || str_eq(e, "mts")
        || str_eq(e, "cts") || str_eq(e, "mjs") || str_eq(e, "cjs")
}

/// The content of a parse outcome.
pub enum OutcomeView {
    Parsed(Seq<IndexDocumentView>),
    Unsupported { filepath: Seq<char>, extension: Option<Seq<char>> },
    Failed { filepath: Seq<char>, reason: Seq<char> },
}

impl View for ParseOutcome {
    type V = OutcomeView;

    open spec fn view(&self) -> OutcomeView {
        match self {
            ParseOutcome::Parsed(docs) => OutcomeView::Parsed(doc_views(docs@)),
            ParseOutcome::Unsupported { filepath, extension } => OutcomeView::Unsupported {
                filepath: filepath@,
                extension: crate::types::opt_view(*extension),
            },
            ParseOutcome::Failed { filepath, reason } => OutcomeView::Failed { filepath: filepath@, reason: reason@ },
        }
    }
}

/// Markdown sections as documents.
pub open spec fn md_docs(sections: Seq<DocSectionView>) -> Seq<IndexDocumentView> {
    sections.map_values(|s: DocSectionView| IndexDocumentView::Doc(s))
}

/// The outcome of parsing `source` at `filepath`, where `ts_docs` is what the
/// TypeScript/JavaScript extractor found in it: Markdown is split into sections; a TS/JS file
/// whose extractor found nothing in a non-blank source failed; other extensions are
/// unsupported.
pub open spec fn parse_outcome(filepath: Seq<char>, source: Seq<char>, ts_docs: Seq<IndexDocumentView>) -> OutcomeView {
    let ext = last_segment(filepath);
    if is_ts_ext(ext) {
        if ts_docs.len() == 0 && crate::text::trim(source).len() > 0 {
            OutcomeView::Failed {
                filepath,
                reason: "oxc parser returned no symbols (possible parse error)"@,
            }
        } else {
            OutcomeView::Parsed(ts_docs)
        }
    } else if is_md_ext(ext) {
        OutcomeView::Parsed(md_docs(parse_markdown_spec(source, filepath)))
    } else {
        OutcomeView::Unsupported { filepath, extension: extension_of(filepath) }
    }
}

fn sections_to_docs(sections: Vec<DocSection>) -> (r: Vec<IndexDocument>)
    ensures
        doc_views(r@) == md_docs(sections@.map_values(|d: DocSection| d@)),
{
    let ghost sv = sections@.map_values(|d: DocSection| d@);
    let mut rest = sections;
    let mut out: Vec<IndexDocument> = Vec::new();
    let ghost mut k: int = 0;
    while rest.len() > 0
        invariant
            0 <= k <= sv.len(),
            rest@.map_values(|d: DocSection| d@) == sv.subrange(k, sv.len() as int),
            doc_views(out@) == md_docs(sv.subrange(0, k)),
        decreases rest.len(),
    {
        let ghost before = rest@;
        assert(rest@.map_values(|d: DocSection| d@).len() == rest@.len());
        let s = rest.remove(0);
        proof {
            assert(before.map_values(|d: DocSection| d@)[0] == s@);
            assert(rest@.map_values(|d: DocSection| d@) =~= before.map_values(|d: DocSection| d@).drop_first());
            assert(sv.subrange(k, sv.len() as int)[0] == sv[k]);
        }
        let ghost pre = out@;
        out.push(IndexDocument::Doc(s));
        proof {
            assert(doc_views(out@) =~= doc_views(pre).push(IndexDocumentView::Doc(sv[k])));
            assert(md_docs(sv.subrange(0, k + 1)) =~= md_docs(sv.subrange(0, k)).push(IndexDocumentView::Doc(sv[k])));
            assert(rest@.map_values(|d: DocSection| d@) =~= sv.subrange(k + 1, sv.len() as int));
            k = k + 1;
        }
    }
    assert(sv.subrange(0, k) =~= sv);
    out
}

/// Parse a single file given its path and source content. `ts_documents` are the documents
/// the TypeScript/JavaScript extractor found in `source`; only TS/JS paths read them.
pub fn parse_file(filepath: &str, source: &str, ts_documents: Vec<IndexDocument>) -> (r: ParseOutcome)
    requires
        source@.len() < u32::MAX,
    ensures
        r@ == parse_outcome(filepath@, source@, doc_views(ts_documents@)),
{
    let ext = last_segment_exec(filepath);
    let e = ext.as_str();
    if is_ts_path(filepath) {
        let src = to_chars(source);
        let (a, b) = crate::text::trim_bounds(&src, 0, src.len());
        if ts_documents.len() == 0 && a < b {
            proof {
                assert(src@.subrange(0, src@.len() as int) =~= src@);
            }
            return ParseOutcome::Failed {
                filepath: crate::text::string_of(filepath),
                reason: crate::text::string_of("oxc parser returned no symbols (possible parse error)"),
            };
        }
        proof {
            assert(src@.subrange(0, src@.len() as int) =~= src@);
        }
        ParseOutcome::Parsed(ts_documents)
    } else if str_eq(e, "md") || str_eq(e, "mdx") {
        let sections = parse_markdown(source, filepath);
        ParseOutcome::Parsed(sections_to_docs(sections))
    } else {
        ParseOutcome::Unsupported { filepath: crate::text::string_of(filepath), extension: extension_exec(filepath) }
    }
}

/// Parse a single file, returning only the documents (`None` when it is unsupported or
/// failed).
pub fn parse_file_lenient(filepath: &str, source: &str, ts_documents: Vec<IndexDocument>) -> (r: Option<Vec<IndexDocument>>)
    requires
        source@.len() < u32::MAX,
    ensures
        match parse_outcome(filepath@, source@, doc_views(ts_documents@)) {
            OutcomeView::Parsed(ds) => r matches Some(docs) && doc_views(docs@) == ds,
            _ => r is None,
        },
{
    parse_file(filepath, source, ts_documents).into_lenient()
}


/// Files above this size (10 MB) are not parsed.
pub const MAX_SOURCE_FILE_SIZE: u64 = 10485760;

/// Whether a file of `len` bytes is too large to parse.
pub fn is_oversized_source(len: u64) -> (r: bool)
    ensures
        r == (len > MAX_SOURCE_FILE_SIZE),
{
    len > MAX_SOURCE_FILE_SIZE
}

/// Parse one source file: with the Markdown and TypeScript/JavaScript parsers, and with
/// tree-sitter when they do not support it.
pub fn parse_source_file(filepath: &str, source: &str, ts_documents: Vec<IndexDocument>) -> (r: ParseOutcome)
    requires
        source@.len() < u32::MAX,
    ensures
        match parse_outcome(filepath@, source@, doc_views(ts_documents@)) {
            OutcomeView::Unsupported { .. } => match crate::treesitter::language_of_ext(last_segment(filepath@)) {
                None => r@ == (OutcomeView::Unsupported { filepath: filepath@, extension: extension_of(filepath@) }),
                Some(lang) => r@ == OutcomeView::Parsed(crate::treesitter::ts_docs(lang, filepath@, source@)),
            },
            o => r@ == o,
        },
{
    match parse_file(filepath, source, ts_documents) {
        ParseOutcome::Unsupported { .. } => crate::treesitter::parse_file(filepath, source),
        o => o,
    }
}

/// Record the outcome of one file in the parse report; parsed documents join `docs`.
pub fn record_outcome(report: &mut crate::cli::ParseDiagnostics, docs: &mut Vec<IndexDocument>, filepath: &str, outcome: ParseOutcome)
    requires
        old(report).parsed_count < usize::MAX,
    ensures
        match outcome@ {
            OutcomeView::Parsed(ds) => doc_views(final(docs)@) == doc_views(old(docs)@) + ds
                && final(report).parsed_count == old(report).parsed_count + 1
                && final(report).unsupported@ == old(report).unsupported@
                && final(report).failed@ == old(report).failed@,
            OutcomeView::Unsupported { .. } => final(docs)@ == old(docs)@
                && final(report).parsed_count == old(report).parsed_count
                && views(final(report).unsupported@) == views(old(report).unsupported@).push(filepath@)
                && final(report).failed@ == old(report).failed@,
            OutcomeView::Failed { reason, .. } => final(docs)@ == old(docs)@
                && final(report).parsed_count == old(report).parsed_count
                && final(report).unsupported@ == old(report).unsupported@
                && crate::cli::failed_views(final(report).failed@) == crate::cli::failed_views(old(report).failed@).push((filepath@, reason)),
        },
        final(report).oversized@ == old(report).oversized@,
{
    match outcome {
        ParseOutcome::Parsed(ds) => {
            let ghost d0 = doc_views(docs@);
            let ghost dv = doc_views(ds@);
            let mut rest = ds;
            let ghost mut k: int = 0;
            while rest.len() > 0
                invariant
                    0 <= k <= dv.len(),
                    doc_views(rest@) == dv.subrange(k, dv.len() as int),
                    doc_views(docs@) == d0 + dv.subrange(0, k),
                decreases rest.len(),
            {
                let ghost before = rest@;
                assert(doc_views(rest@).len() == rest@.len());
                let d = rest.remove(0);
                proof {
                    assert(doc_views(before)[0] == d@);
                    assert(doc_views(rest@) =~= doc_views(before).drop_first());
                    assert(dv.subrange(k, dv.len() as int)[0] == dv[k]);
                }
                let ghost pre = docs@;
                docs.push(d);
                proof {
                    assert(doc_views(docs@) =~= doc_views(pre).push(d@));
                    assert(dv.subrange(0, k + 1) =~= dv.subrange(0, k).push(dv[k]));
                    assert(doc_views(rest@) =~= dv.subrange(k + 1, dv.len() as int));
                    k = k + 1;
                }
            }
            assert(dv.subrange(0, k) =~= dv);
            report.parsed_count = report.parsed_count + 1;
        },
        ParseOutcome::Unsupported { .. } => {
            let f = crate::text::string_of(filepath);
            proof {
                crate::text::lemma_views_push(report.unsupported@, f);
            }
            report.unsupported.push(f);
        },
        ParseOutcome::Failed { reason, .. } => {
            let entry = (crate::text::string_of(filepath), reason);
            let ghost pre = report.failed@;
            report.failed.push(entry);
            assert(crate::cli::failed_views(report.failed@) =~= crate::cli::failed_views(pre).push((entry.0@, entry.1@)));
        },
    }
}

/// Record a file that was skipped for its size.
pub fn record_oversized(report: &mut crate::cli::ParseDiagnostics, filepath: &str)
    ensures
        views(final(report).oversized@) == views(old(report).oversized@).push(filepath@),
        final(report).unsupported@ == old(report).unsupported@,
        final(report).failed@ == old(report).failed@,
        final(report).parsed_count == old(report).parsed_count,
{
    let f = crate::text::string_of(filepath);
    proof {
        crate::text::lemma_views_push(report.oversized@, f);
    }
    report.oversized.push(f);
}

} // verus!
