//! Shared types for index documents, symbols, comments and search filters.
use vstd::prelude::*;
use crate::text::{
    ascii_lower, ascii_lower_exec, contains_exec, contains_sub, from_chars, is_ws, normalize_ws,
    normalize_ws_exec, to_chars, views, trim, trim_bounds, sub_chars, ws_words, chars_eq, string_eq_chars,
};

verus! {

broadcast use vstd::seq::group_seq_axioms;

// ---------------------------------------------------------------------------
// Symbol kinds (shared by parser output and investigation surfaces)
// ---------------------------------------------------------------------------

/// The kind of code symbol extracted from source.
#[derive(Debug, Clone, Copy, PartialEq, Eq, Hash, Structural)]
pub enum SymbolKind {
    /// A standalone function.
    Function,
    /// A method on a class, struct, or impl block.
    Method,
    /// A class declaration.
    Class,
    /// A struct declaration.
    Struct,
    /// An enum declaration.
    Enum,
    /// An interface declaration (e.g. TypeScript `interface`).
    Interface,
    /// A module or namespace declaration.
    Module,
    /// A type alias.
    Type,
    /// A trait declaration.
    Trait,
    /// A constant binding.
    Const,
}

// ---------------------------------------------------------------------------
// Parser output types (discriminated union: Code | Reexport | Doc)
// ---------------------------------------------------------------------------

/// A parser document retained for search and investigation surfaces.
#[derive(Debug, Clone)]
pub enum IndexDocument {
    /// A code symbol extracted via AST parsing.
    Code(Symbol),
    /// A re-export surface extracted from module export syntax.
    Reexport(Reexport),
    /// A documentation section extracted from Markdown.
    Doc(DocSection),
}

/// A code symbol extracted from source via AST parsing.
#[derive(Debug, Clone)]
pub struct Symbol {
    /// The symbol's identifier name.
    pub name: String,
    /// The kind of symbol (function, class, etc.).
    pub kind: SymbolKind,
    /// Path of the source file relative to the repository root.
    pub filepath: String,
    /// First line of the symbol definition (1-based).
    pub start_line: u32,
    /// Last line of the symbol definition (1-based).
    pub end_line: u32,
    /// Parameter names of the symbol (empty for non-callable symbols).
    pub params: Vec<String>,
    /// Compact signature preview used by investigation surfaces.
    pub signature_preview: Option<String>,
    /// Structured doc comment or docstring information, if present.
    pub comment: Option<CommentInfo>,
    /// Export or visibility metadata for this symbol.
    pub export: ExportInfo,
}

/// A re-export surface extracted from module export syntax.
#[derive(Debug, Clone)]
pub struct Reexport {
    /// Path of the exporting file relative to the repository root.
    pub filepath: String,
    /// First line of the export declaration (1-based).
    pub start_line: u32,
    /// Last line of the export declaration (1-based).
    pub end_line: u32,
    /// Symbol name referenced locally or from the source module.
    pub local_name: String,
    /// Public name exposed by the re-export surface.
    pub exported_name: String,
    /// Source module specifier when re-exporting from another file.
    pub source_specifier: Option<String>,
    /// Whether the re-export is type-only syntax.
    pub is_type_only: bool,
}

/// Structured doc comment metadata extracted from parser output.
#[derive(Debug, Clone)]
pub struct CommentInfo {
    /// The highest-signal one-line summary for the symbol.
    pub summary_line: Option<String>,
    /// Additional preview text when available.
    pub body_preview: Option<String>,
    /// Important contract or risk flags detected in the comment.
    pub flags: Vec<CommentFlag>,
    /// The parser source from which this comment was derived.
    pub source: CommentSource,
    /// Whether the comment was normalized successfully.
    pub normalization_status: CommentNormalizationStatus,
}

/// High-signal comment flags used by investigation surfaces.
#[derive(Debug, Clone, Copy, PartialEq, Eq, Hash, Structural)]
pub enum CommentFlag {
    /// Indicates deprecated behavior.
    Deprecated,
    /// Indicates unstable or experimental behavior.
    Experimental,
    /// Indicates an internal-only surface.
    Internal,
    /// Indicates unsafe behavior or contracts.
    Unsafe,
}

/// Source family for normalized comment data.
#[derive(Debug, Clone, Copy, PartialEq, Eq, Hash, Structural)]
pub enum CommentSource {
    /// `JSDoc` or `TSDoc` style comments.
    JsDoc,
    /// Rust doc comments.
    RustDoc,
    /// Python docstring comments.
    PythonDocstring,
    /// Non-structured plain comments.
    PlainComment,
}

/// Status of structured comment normalization.
#[derive(Debug, Clone, Copy, PartialEq, Eq, Hash, Structural)]
pub enum CommentNormalizationStatus {
    /// No comment was present.
    Missing,
    /// Only a summary line was derived.
    SummaryOnly,
    /// Structured comment fields were extracted successfully.
    Structured,
    /// Comment parsing attempted but failed.
    Failed,
}

/// Visibility or export metadata for a symbol.
#[derive(Debug, Clone)]
pub struct ExportInfo {
    /// Effective publicness for the investigation surface.
    pub publicness: Publicness,
    /// The syntax form by which the symbol is exported or exposed.
    pub export_kind: ExportKind,
    /// Optional enclosing container such as a module or namespace.
    pub container: Option<String>,
}

/// Investigation-facing publicness categories.
#[derive(Debug, Clone, Copy, PartialEq, Eq, Hash, Structural)]
pub enum Publicness {
    /// Publicly exposed from the current file or module.
    Public,
    /// Publicly exposed through a re-export surface.
    Reexported,
    /// Visible only within the package or crate boundary.
    Package,
    /// Private to the current implementation boundary.
    Private,
    /// Publicness could not be determined confidently.
    Unknown,
}

/// Syntax form describing how a symbol is exported or exposed.
#[derive(Debug, Clone, Copy, PartialEq, Eq, Hash, Structural)]
pub enum ExportKind {
    /// Named export such as `export function foo`.
    Named,
    /// Default export such as `export default function`.
    Default,
    /// Re-export surface such as `pub use` or `export { foo } from`.
    Reexport,
    /// Exported from a containing module or namespace.
    ModuleMember,
    /// Not exported.
    NotExported,
    /// Export kind could not be determined confidently.
    Unknown,
}

/// A section of documentation extracted from a Markdown file.
#[derive(Debug, Clone)]
pub struct DocSection {
    /// Path of the Markdown file relative to the repository root.
    pub filepath: String,
    /// The heading text of this section.
    pub section_title: String,
    /// Ancestor headings from root to parent (for nested sections).
    pub heading_hierarchy: Vec<String>,
    /// The body text content of this section.
    pub content: String,
    /// Symbol names found inside fenced code blocks.
    pub code_symbols: Vec<String>,
    /// First line of this section (1-based).
    pub start_line: u32,
    /// Last line of this section (1-based).
    pub end_line: u32,
}

/// The mathematical content of a `CommentInfo`.
#[verifier::ext_equal]
pub struct CommentView {
    pub summary_line: Option<Seq<char>>,
    pub body_preview: Option<Seq<char>>,
    pub flags: Seq<CommentFlag>,
    pub source: CommentSource,
    pub normalization_status: CommentNormalizationStatus,
}

impl View for CommentInfo {
    type V = CommentView;

    open spec fn view(&self) -> CommentView {
        CommentView {
            summary_line: opt_view(self.summary_line),
            body_preview: opt_view(self.body_preview),
            flags: self.flags@,
            source: self.source,
            normalization_status: self.normalization_status,
        }
    }
}

/// The mathematical content of an `ExportInfo`.
#[verifier::ext_equal]
pub struct ExportView {
    pub publicness: Publicness,
    pub export_kind: ExportKind,
    pub container: Option<Seq<char>>,
}

impl View for ExportInfo {
    type V = ExportView;

    open spec fn view(&self) -> ExportView {
        ExportView {
            publicness: self.publicness,
            export_kind: self.export_kind,
            container: opt_view(self.container),
        }
    }
}

pub open spec fn opt_comment_view(c: Option<CommentInfo>) -> Option<CommentView> {
    match c {
        Some(c) => Some(c@),
        None => None,
    }
}

/// The mathematical content of a `Symbol`.
#[verifier::ext_equal]
pub struct SymbolView {
    pub name: Seq<char>,
    pub kind: SymbolKind,
    pub filepath: Seq<char>,
    pub start_line: u32,
    pub end_line: u32,
    pub params: Seq<Seq<char>>,
    pub signature_preview: Option<Seq<char>>,
    pub comment: Option<CommentView>,
    pub export: ExportView,
}

impl View for Symbol {
    type V = SymbolView;

    open spec fn view(&self) -> SymbolView {
        SymbolView {
            name: self.name@,
            kind: self.kind,
            filepath: self.filepath@,
            start_line: self.start_line,
            end_line: self.end_line,
            params: views(self.params@),
            signature_preview: opt_view(self.signature_preview),
            comment: opt_comment_view(self.comment),
            export: self.export@,
        }
    }
}

/// The mathematical content of a `Reexport`.
#[verifier::ext_equal]
pub struct ReexportView {
    pub filepath: Seq<char>,
    pub start_line: u32,
    pub end_line: u32,
    pub local_name: Seq<char>,
    pub exported_name: Seq<char>,
    pub source_specifier: Option<Seq<char>>,
    pub is_type_only: bool,
}

impl View for Reexport {
    type V = ReexportView;

    open spec fn view(&self) -> ReexportView {
        ReexportView {
            filepath: self.filepath@,
            start_line: self.start_line,
            end_line: self.end_line,
            local_name: self.local_name@,
            exported_name: self.exported_name@,
            source_specifier: opt_view(self.source_specifier),
            is_type_only: self.is_type_only,
        }
    }
}

/// The mathematical content of an `IndexDocument`.
pub enum IndexDocumentView {
    Code(SymbolView),
    Reexport(ReexportView),
    Doc(DocSectionView),
}

impl View for IndexDocument {
    type V = IndexDocumentView;

    open spec fn view(&self) -> IndexDocumentView {
        match self {
            IndexDocument::Code(s) => IndexDocumentView::Code(s@),
            IndexDocument::Reexport(r) => IndexDocumentView::Reexport(r@),
            IndexDocument::Doc(d) => IndexDocumentView::Doc(d@),
        }
    }
}

/// The views of a sequence of documents.
pub open spec fn doc_views(docs: Seq<IndexDocument>) -> Seq<IndexDocumentView> {
    docs.map_values(|d: IndexDocument| d@)
}

/// The mathematical content of a `DocSection`.
#[verifier::ext_equal]
pub struct DocSectionView {
    pub filepath: Seq<char>,
    pub section_title: Seq<char>,
    pub heading_hierarchy: Seq<Seq<char>>,
    pub content: Seq<char>,
    pub code_symbols: Seq<Seq<char>>,
    pub start_line: u32,
    pub end_line: u32,
}

impl View for DocSection {
    type V = DocSectionView;

    open spec fn view(&self) -> DocSectionView {
        DocSectionView {
            filepath: self.filepath@,
            section_title: self.section_title@,
            heading_hierarchy: views(self.heading_hierarchy@),
            content: self.content@,
            code_symbols: views(self.code_symbols@),
            start_line: self.start_line,
            end_line: self.end_line,
        }
    }
}

/// Filter for the type of indexed document to search.
#[derive(Debug, Clone, Copy, PartialEq, Eq, Structural)]
pub enum SearchDocumentType {
    /// Search only code symbols.
    Code,
    /// Search only documentation sections.
    Doc,
}

/// Optional filters applied during search.
#[derive(Debug, Clone, PartialEq, Eq)]
pub struct SearchFilters {
    /// Restrict results to files under any of these directory prefixes.
    pub dirs: Vec<String>,
    /// Restrict results to files with any of these extensions.
    pub exts: Vec<String>,
    /// Restrict results to either code or documentation.
    pub result_type: Option<SearchDocumentType>,
}

impl SearchFilters {
    /// No filter at all (the default filters).
    pub fn none() -> (r: SearchFilters)
        ensures
            r.dirs@.len() == 0,
            r.exts@.len() == 0,
            r.result_type is None,
    {
        SearchFilters { dirs: Vec::new(), exts: Vec::new(), result_type: None }
    }
}

// ---------------------------------------------------------------------------
// Parser outcome (shared by all parser modules)
// ---------------------------------------------------------------------------

/// Outcome of parsing a single file.
#[derive(Debug)]
pub enum ParseOutcome {
    /// Successfully extracted documents.
    Parsed(Vec<IndexDocument>),
    /// File extension not supported by this parser.
    Unsupported {
        /// The file path that was skipped.
        filepath: String,
        /// The file extension (or `None` if no extension).
        extension: Option<String>,
    },
    /// Parser encountered an error.
    Failed {
        /// The file path that failed.
        filepath: String,
        /// Description of the failure.
        reason: String,
    },
}

impl ParseOutcome {
    /// Collapse the parse outcome into documents only.
    ///
    /// Returns `Some` when parsing succeeded and `None` for unsupported or failed parses.
    pub fn into_lenient(self) -> (r: Option<Vec<IndexDocument>>)
        ensures
            match self {
                ParseOutcome::Parsed(docs) => r == Some(docs),
                _ => r is None,
            },
    {
        match self {
            ParseOutcome::Parsed(docs) => Some(docs),
            ParseOutcome::Unsupported { .. } => None,
            ParseOutcome::Failed { .. } => None,
        }
    }
}

// ---------------------------------------------------------------------------
// Export metadata
// ---------------------------------------------------------------------------

impl ExportInfo {
    /// Build export metadata with the provided publicness and kind.
    pub fn new(publicness: Publicness, export_kind: ExportKind) -> (r: Self)
        ensures
            r.publicness == publicness,
            r.export_kind == export_kind,
            r.container is None,
    {
        ExportInfo { publicness, export_kind, container: None }
    }

    /// Build metadata for a symbol with unknown publicness.
    pub fn unknown() -> (r: Self)
        ensures
            r.publicness == Publicness::Unknown,
            r.export_kind == ExportKind::Unknown,
            r.container is None,
    {
        Self::new(Publicness::Unknown, ExportKind::Unknown)
    }

    /// Build metadata for a private symbol.
    pub fn private() -> (r: Self)
        ensures
            r.publicness == Publicness::Private,
            r.export_kind == ExportKind::NotExported,
            r.container is None,
    {
        Self::new(Publicness::Private, ExportKind::NotExported)
    }

    /// Build metadata for a named public export.
    pub fn public_named() -> (r: Self)
        ensures
            r.publicness == Publicness::Public,
            r.export_kind == ExportKind::Named,
            r.container is None,
    {
        Self::new(Publicness::Public, ExportKind::Named)
    }

    /// Build metadata for a default public export.
    pub fn public_default() -> (r: Self)
        ensures
            r.publicness == Publicness::Public,
            r.export_kind == ExportKind::Default,
            r.container is None,
    {
        Self::new(Publicness::Public, ExportKind::Default)
    }

    /// Build metadata for a public re-export.
    pub fn reexported() -> (r: Self)
        ensures
            r.publicness == Publicness::Reexported,
            r.export_kind == ExportKind::Reexport,
            r.container is None,
    {
        Self::new(Publicness::Reexported, ExportKind::Reexport)
    }

    /// Whether this symbol is part of the public investigation surface.
    pub open spec fn surface_public(self) -> bool {
        self.publicness == Publicness::Public || self.publicness == Publicness::Reexported
    }

    /// Return true when this symbol is part of the public investigation surface.
    pub fn is_surface_public(&self) -> (r: bool)
        ensures
            r == self.surface_public(),
    {
        match self.publicness {
            Publicness::Public | Publicness::Reexported => true,
            _ => false,
        }
    }
}

// ---------------------------------------------------------------------------
// Comment normalization
// ---------------------------------------------------------------------------

pub open spec fn is_terminator(c: char) -> bool {
    c == '.' || c == '!' || c == '?'
}

/// Position of the first `.`, `!` or `?`, if any.
pub open spec fn first_terminator(s: Seq<char>) -> Option<int> {
    if exists|i: int| 0 <= i < s.len() && is_terminator(s[i]) {
        Some(
            choose|i: int|
                0 <= i < s.len() && is_terminator(s[i]) && forall|j: int|
                    0 <= j < i ==> !is_terminator(#[trigger] s[j]),
        )
    } else {
        None
    }
}

/// The summary of a normalized comment: up to and including the first sentence terminator,
/// or else its first 120 characters, trimmed.
pub open spec fn summary_line_of(s: Seq<char>) -> Seq<char> {
    match first_terminator(s) {
        Some(i) => trim(s.subrange(0, i + 1)),
        None => trim(s.take(if s.len() < 120 { s.len() as int } else { 120 })),
    }
}

/// The first `n` characters (all of them when there are fewer).
pub open spec fn take_chars(s: Seq<char>, n: nat) -> Seq<char> {
    if s.len() <= n {
        s
    } else {
        s.take(n as int)
    }
}

/// Flags raised by a comment, in a fixed order, over its ASCII-lowercased text.
pub open spec fn comment_flags_of(text: Seq<char>) -> Seq<CommentFlag> {
    let lower = ascii_lower(text);
    let d: Seq<CommentFlag> = if contains_sub(lower, "@deprecated"@) || contains_sub(
        lower,
        "deprecated"@,
    ) {
        seq![CommentFlag::Deprecated]
    } else {
        Seq::empty()
    };
    let e: Seq<CommentFlag> = if contains_sub(lower, "@experimental"@) || contains_sub(
        lower,
        "experimental"@,
    ) {
        seq![CommentFlag::Experimental]
    } else {
        Seq::empty()
    };
    let n: Seq<CommentFlag> = if contains_sub(lower, "@internal"@) || contains_sub(
        lower,
        "internal use only"@,
    ) {
        seq![CommentFlag::Internal]
    } else {
        Seq::empty()
    };
    let u: Seq<CommentFlag> = if contains_sub(lower, "unsafe"@) || contains_sub(
        lower,
        "@unsafe"@,
    ) {
        seq![CommentFlag::Unsafe]
    } else {
        Seq::empty()
    };
    d + e + n + u
}

/// The body preview of a normalized comment: its first 200 characters, kept only when they
/// differ from both the whole text's summary and the summary itself.
pub open spec fn body_preview_of(normalized: Seq<char>, summary: Seq<char>) -> Option<Seq<char>> {
    if normalized != summary && take_chars(normalized, 200) != summary {
        Some(take_chars(normalized, 200))
    } else {
        None
    }
}

pub open spec fn opt_view(o: Option<String>) -> Option<Seq<char>> {
    match o {
        Some(s) => Some(s@),
        None => None,
    }
}

fn normalize_comment_text(text: &str) -> (r: Vec<char>)
    ensures
        r@ == normalize_ws(text@),
        (r@.len() == 0) == (ws_words(text@).len() == 0),
{
    let v = to_chars(text);
    normalize_ws_exec(&v)
}

fn extract_summary_line(text: &Vec<char>) -> (r: Vec<char>)
    ensures
        r@ == summary_line_of(text@),
{
    let mut i: usize = 0;
    while i < text.len()
        invariant
            0 <= i <= text.len(),
            forall|j: int| 0 <= j < i ==> !is_terminator(#[trigger] text@[j]),
        decreases text.len() - i,
    {
        let c = text[i];
        if c == '.' || c == '!' || c == '?' {
            let (a, b) = trim_bounds(text, 0, i + 1);
            proof {
                assert(exists|k: int| 0 <= k < text@.len() && is_terminator(text@[k]));
                let f = first_terminator(text@).unwrap();
                if f < i {
                    assert(!is_terminator(text@[f]));
                }
                if f > i {
                    assert(!is_terminator(text@[i as int]));
                }
                assert(f == i);
            }
            return sub_chars(text, a, b);
        }
        i = i + 1;
    }
    let end = if text.len() < 120 {
        text.len()
    } else {
        120
    };
    proof {
        assert(!(exists|k: int| 0 <= k < text@.len() && is_terminator(text@[k])));
        assert(text@.subrange(0, end as int) =~= text@.take(end as int));
    }
    let (a, b) = trim_bounds(text, 0, end);
    sub_chars(text, a, b)
}

fn truncate_chars(text: &Vec<char>, max_chars: usize) -> (r: Vec<char>)
    ensures
        r@ == take_chars(text@, max_chars as nat),
{
    if text.len() <= max_chars {
        let r = sub_chars(text, 0, text.len());
        assert(text@.subrange(0, text@.len() as int) =~= text@);
        r
    } else {
        sub_chars(text, 0, max_chars)
    }
}

fn detect_comment_flags(text: &Vec<char>) -> (r: Vec<CommentFlag>)
    ensures
        r@ == comment_flags_of(text@),
{
    let lower = ascii_lower_exec(text);
    let mut flags: Vec<CommentFlag> = Vec::new();
    let c1 = contains_exec(&lower, &to_chars("@deprecated")) || contains_exec(
        &lower,
        &to_chars("deprecated"),
    );
    maybe_push_flag(&mut flags, c1, CommentFlag::Deprecated);
    let c2 = contains_exec(&lower, &to_chars("@experimental")) || contains_exec(
        &lower,
        &to_chars("experimental"),
    );
    maybe_push_flag(&mut flags, c2, CommentFlag::Experimental);
    let c3 = contains_exec(&lower, &to_chars("@internal")) || contains_exec(
        &lower,
        &to_chars("internal use only"),
    );
    maybe_push_flag(&mut flags, c3, CommentFlag::Internal);
    let c4 = contains_exec(&lower, &to_chars("unsafe")) || contains_exec(
        &lower,
        &to_chars("@unsafe"),
    );
    maybe_push_flag(&mut flags, c4, CommentFlag::Unsafe);
    assert(flags@ =~= comment_flags_of(text@));
    flags
}

fn flag_in(flags: &Vec<CommentFlag>, flag: CommentFlag) -> (r: bool)
    ensures
        r == flags@.contains(flag),
{
    let mut i: usize = 0;
    while i < flags.len()
        invariant
            0 <= i <= flags.len(),
            forall|j: int| 0 <= j < i ==> flags@[j] != flag,
        decreases flags.len() - i,
    {
        if flags[i] == flag {
            return true;
        }
        i = i + 1;
    }
    false
}

fn maybe_push_flag(flags: &mut Vec<CommentFlag>, condition: bool, flag: CommentFlag)
    ensures
        final(flags)@ == if condition && !old(flags)@.contains(flag) {
            old(flags)@.push(flag)
        } else {
            old(flags)@
        },
{
    if condition && !flag_in(flags, flag) {
        flags.push(flag);
    }
}

impl CommentInfo {
    /// Build normalized comment metadata from cleaned comment text.
    ///
    /// The text is whitespace-normalized; `None` when nothing remains. Otherwise the summary is
    /// the first sentence (or the first 120 characters), the body preview the first 200
    /// characters when they add to the summary, and the flags those found in the text.
    pub fn from_normalized_text(text: &str, source: CommentSource) -> (r: Option<Self>)
        ensures
            (r is None) == (ws_words(text@).len() == 0),
            r matches Some(c) ==> {
                let n = normalize_ws(text@);
                &&& opt_view(c.summary_line) == Some(summary_line_of(n))
                &&& opt_view(c.body_preview) == body_preview_of(n, summary_line_of(n))
                &&& c.flags@ == comment_flags_of(n)
                &&& c.source == source
                &&& c.normalization_status == CommentNormalizationStatus::SummaryOnly
            },
    {
        let normalized = normalize_comment_text(text);
        if normalized.len() == 0 {
            return None;
        }
        let summary = extract_summary_line(&normalized);
        let body_preview = if !chars_eq(&normalized, &summary) {
            let preview = truncate_chars(&normalized, 200);
            if !chars_eq(&preview, &summary) {
                Some(from_chars(preview.as_slice()))
            } else {
                None
            }
        } else {
            None
        };
        let flags = detect_comment_flags(&normalized);
        Some(
            CommentInfo {
                summary_line: Some(from_chars(summary.as_slice())),
                body_preview,
                flags,
                source,
                normalization_status: CommentNormalizationStatus::SummaryOnly,
            },
        )
    }

    /// Return flattened text for search indexing.
    pub fn searchable_text(&self) -> (r: Option<String>)
        ensures
            opt_view(r) == searchable_text_of(opt_view(self.summary_line), opt_view(
                self.body_preview,
            )),
    {
        let mut parts: Vec<char> = Vec::new();
        let mut any = false;
        if let Some(summary_line) = &self.summary_line {
            parts = to_chars(summary_line.as_str());
            any = true;
        }
        if let Some(body_preview) = &self.body_preview {
            let differs = match &self.summary_line {
                None => true,
                Some(summary) => !str_eq_strings(summary, body_preview),
            };
            if differs {
                let b = to_chars(body_preview.as_str());
                if any {
                    parts.push(' ');
                }
                crate::text::append_chars(&mut parts, &b);
                any = true;
            }
        }
        if any {
            Some(from_chars(parts.as_slice()))
        } else {
            None
        }
    }
}

fn str_eq_strings(a: &String, b: &String) -> (r: bool)
    ensures
        r == (a@ == b@),
{
    crate::text::str_eq(a.as_str(), b.as_str())
}

/// Summary and body preview joined with a space, the preview only when it differs.
pub open spec fn searchable_text_of(summary: Option<Seq<char>>, body: Option<Seq<char>>) -> Option<
    Seq<char>,
> {
    match (summary, body) {
        (Some(s), Some(b)) => if s != b {
            Some(s + seq![' '] + b)
        } else {
            Some(s)
        },
        (Some(s), None) => Some(s),
        (None, Some(b)) => Some(b),
        (None, None) => None,
    }
}

} // verus!
