//! Symbol extraction with tree-sitter grammars (Rust, Python, Go, Java, C, C++, Ruby): the
//! language of a file, the kind, export metadata, doc comment and signature of each symbol a
//! query captures.
use vstd::prelude::*;
use crate::cli::trim_start_char;
use crate::parser::{last_segment, last_segment_exec};
use crate::text::{
    char_is_lowercase, char_is_uppercase, ends_with, ends_with_exec, from_chars, spec_is_lowercase,
    spec_is_uppercase, starts_with, starts_with_exec, str_eq, to_chars, trim, trim_start, views, normalize_ws, ws_words,
};
use crate::types::{
    CommentInfo, CommentSource, ExportInfo, ExportKind, ExportView, IndexDocument, IndexDocumentView, ParseOutcome,
    Publicness, Symbol, SymbolKind, SymbolView, doc_views, CommentView, CommentNormalizationStatus, summary_line_of,
    body_preview_of, comment_flags_of,
};
use tree_sitter::StreamingIterator;
use crate::source_text::{byte_slice, SourceText};

verus! {

broadcast use vstd::seq::group_seq_axioms;

// ---------------------------------------------------------------------------
// Languages
// ---------------------------------------------------------------------------

/// A tree-sitter grammar.
#[derive(Clone, Copy, Debug, PartialEq, Eq, Structural)]
pub enum LanguageId {
    Rust,
    Python,
    Go,
    Java,
    C,
    Cpp,
    Ruby,
}

/// The grammar for a file extension, if tree-sitter handles it.
pub open spec fn language_of_ext(ext: Seq<char>) -> Option<LanguageId> {
    if ext == "rs"@ {
        Some(LanguageId::Rust)
    } else if ext == "py"@ || ext == "pyi"@ {
        Some(LanguageId::Python)
    } else if ext == "go"@ {
        Some(LanguageId::Go)
    } else if ext == "java"@ {
        Some(LanguageId::Java)
    } else if ext == "c"@ || ext == "h"@ {
        Some(LanguageId::C)
    } else if ext == "cpp"@ || ext == "cc"@ || ext == "cxx"@ || ext == "hpp"@ || ext == "hxx"@ {
        Some(LanguageId::Cpp)
    } else if ext == "rb"@ {
        Some(LanguageId::Ruby)
    } else {
        None
    }
}

/// Returns the grammar for a given file extension.
pub fn language_for_extension(ext: &str) -> (r: Option<LanguageId>)
    ensures
        r == language_of_ext(ext@),
{
    if str_eq(ext, "rs") {
        Some(LanguageId::Rust)
    } else if str_eq(ext, "py") || str_eq(ext, "pyi") {
        Some(LanguageId::Python)
    } else if str_eq(ext, "go") {
        Some(LanguageId::Go)
    } else if str_eq(ext, "java") {
        Some(LanguageId::Java)
    } else if str_eq(ext, "c") || str_eq(ext, "h") {
        Some(LanguageId::C)
    } else if str_eq(ext, "cpp") || str_eq(ext, "cc") || str_eq(ext, "cxx") || str_eq(ext, "hpp")
        || str_eq(ext, "hxx") {
        Some(LanguageId::Cpp)
    } else if str_eq(ext, "rb") {
        Some(LanguageId::Ruby)
    } else {
        None
    }
}

/// Returns true if the given extension is handled by tree-sitter.
pub fn supports_extension(ext: &str) -> (r: bool)
    ensures
        r == (language_of_ext(ext@) is Some),
{
    language_for_extension(ext).is_some()
}

/// The query text of a grammar.
pub open spec fn query_text(lang: LanguageId) -> Seq<char> {
    match lang {
        LanguageId::Rust => crate::queries::rust_query_text(),
        LanguageId::Python => crate::queries::python_query_text(),
        LanguageId::Go => crate::queries::go_query_text(),
        LanguageId::Java => crate::queries::java_query_text(),
        LanguageId::C => crate::queries::c_query_text(),
        LanguageId::Cpp => crate::queries::cpp_query_text(),
        LanguageId::Ruby => crate::queries::ruby_query_text(),
    }
}

/// The query of a grammar.
pub fn query_for(lang: LanguageId) -> (r: &'static str)
    ensures
        r@ == query_text(lang),
{
    match lang {
        LanguageId::Rust => crate::queries::rust_query(),
        LanguageId::Python => crate::queries::python_query(),
        LanguageId::Go => crate::queries::go_query(),
        LanguageId::Java => crate::queries::java_query(),
        LanguageId::C => crate::queries::c_query(),
        LanguageId::Cpp => crate::queries::cpp_query(),
        LanguageId::Ruby => crate::queries::ruby_query(),
    }
}

// ---------------------------------------------------------------------------
// Symbol kinds and export metadata
// ---------------------------------------------------------------------------

/// The symbol kind a `definition.*` capture names (a plain function otherwise).
pub open spec fn kind_of_capture(name: Seq<char>) -> SymbolKind {
    if name == "definition.method"@ {
        SymbolKind::Method
    } else if name == "definition.class"@ {
        SymbolKind::Class
    } else if name == "definition.module"@ {
        SymbolKind::Module
    } else if name == "definition.struct"@ {
        SymbolKind::Struct
    } else if name == "definition.enum"@ {
        SymbolKind::Enum
    } else if name == "definition.interface"@ {
        SymbolKind::Interface
    } else if name == "definition.type"@ {
        SymbolKind::Type
    } else if name == "definition.trait"@ {
        SymbolKind::Trait
    } else if name == "definition.const"@ {
        SymbolKind::Const
    } else {
        SymbolKind::Function
    }
}

fn kind_of_capture_exec(name: &str) -> (r: SymbolKind)
    ensures
        r == kind_of_capture(name@),
{
    if str_eq(name, "definition.method") {
        SymbolKind::Method
    } else if str_eq(name, "definition.class") {
        SymbolKind::Class
    } else if str_eq(name, "definition.module") {
        SymbolKind::Module
    } else if str_eq(name, "definition.struct") {
        SymbolKind::Struct
    } else if str_eq(name, "definition.enum") {
        SymbolKind::Enum
    } else if str_eq(name, "definition.interface") {
        SymbolKind::Interface
    } else if str_eq(name, "definition.type") {
        SymbolKind::Type
    } else if str_eq(name, "definition.trait") {
        SymbolKind::Trait
    } else if str_eq(name, "definition.const") {
        SymbolKind::Const
    } else {
        SymbolKind::Function
    }
}

/// Methods are module members; everything else is a named export.
pub open spec fn member_kind(kind: SymbolKind) -> ExportKind {
    if kind == SymbolKind::Method {
        ExportKind::ModuleMember
    } else {
        ExportKind::Named
    }
}

fn member_aware_export_kind(kind: SymbolKind) -> (r: ExportKind)
    ensures
        r == member_kind(kind),
{
    match kind {
        SymbolKind::Method => ExportKind::ModuleMember,
        _ => ExportKind::Named,
    }
}

/// Export metadata with no container.
pub open spec fn export(p: Publicness, k: ExportKind) -> ExportView {
    ExportView { publicness: p, export_kind: k, container: None }
}

/// Publicness by naming convention: a leading `_` is private, a leading cased letter public,
/// anything else unknown.
pub open spec fn by_convention(kind: SymbolKind, name: Seq<char>) -> ExportView {
    if name.len() > 0 && name[0] == '_' {
        export(Publicness::Private, member_kind(kind))
    } else if name.len() > 0 && (spec_is_uppercase(name[0]) || spec_is_lowercase(name[0])) {
        export(Publicness::Public, member_kind(kind))
    } else {
        export(Publicness::Unknown, ExportKind::Unknown)
    }
}

/// Export metadata of a Rust item from its text: `pub ` is public, `pub(` package-visible.
pub open spec fn rust_export(kind: SymbolKind, item: Seq<char>) -> ExportView {
    let t = trim_start(item);
    if starts_with(t, "pub "@) {
        export(Publicness::Public, member_kind(kind))
    } else if starts_with(t, "pub("@) {
        export(Publicness::Package, member_kind(kind))
    } else if kind == SymbolKind::Method {
        export(Publicness::Private, ExportKind::ModuleMember)
    } else {
        export(Publicness::Private, ExportKind::NotExported)
    }
}

/// Export metadata of a Java item from its text: `public `, `private `, else package-visible.
pub open spec fn java_export(kind: SymbolKind, item: Seq<char>) -> ExportView {
    let t = trim_start(item);
    if starts_with(t, "public "@) {
        export(Publicness::Public, member_kind(kind))
    } else if starts_with(t, "private "@) {
        export(Publicness::Private, member_kind(kind))
    } else {
        export(Publicness::Package, member_kind(kind))
    }
}

/// Export metadata of a C or C++ item from its text: `static ` is private, else public.
pub open spec fn c_like_export(kind: SymbolKind, item: Seq<char>) -> ExportView {
    if starts_with(trim_start(item), "static "@) {
        export(Publicness::Private, member_kind(kind))
    } else {
        export(Publicness::Public, member_kind(kind))
    }
}

/// Export metadata of a symbol of a file with extension `ext`, from its name and item text.
pub open spec fn export_for(ext: Seq<char>, kind: SymbolKind, name: Seq<char>, item: Seq<char>) -> ExportView {
    match language_of_ext(ext) {
        Some(LanguageId::Rust) => rust_export(kind, item),
        Some(LanguageId::Python) | Some(LanguageId::Go) | Some(LanguageId::Ruby) => by_convention(kind, name),
        Some(LanguageId::Java) => java_export(kind, item),
        Some(LanguageId::C) | Some(LanguageId::Cpp) => c_like_export(kind, item),
        None => export(Publicness::Unknown, ExportKind::Unknown),
    }
}

fn visibility_by_convention(kind: SymbolKind, name: &str) -> (r: ExportInfo)
    ensures
        r@ == by_convention(kind, name@),
{
    let v = to_chars(name);
    if v.len() > 0 && v[0] == '_' {
        ExportInfo::new(Publicness::Private, member_aware_export_kind(kind))
    } else if v.len() > 0 && (char_is_uppercase(v[0]) || char_is_lowercase(v[0])) {
        ExportInfo::new(Publicness::Public, member_aware_export_kind(kind))
    } else {
        ExportInfo::unknown()
    }
}

fn trimmed_start(item: &str) -> (r: Vec<char>)
    ensures
        r@ == trim_start(item@),
{
    let v = to_chars(item);
    let k = crate::text::trim_start_index(&v, 0, v.len());
    proof {
        assert(v@.subrange(0, v@.len() as int) =~= v@);
    }
    crate::text::sub_chars(&v, k, v.len())
}

fn rust_export_info(kind: SymbolKind, item: &str) -> (r: ExportInfo)
    ensures
        r@ == rust_export(kind, item@),
{
    let t = trimmed_start(item);
    if starts_with_exec(&t, &to_chars("pub ")) {
        ExportInfo::new(Publicness::Public, member_aware_export_kind(kind))
    } else if starts_with_exec(&t, &to_chars("pub(")) {
        ExportInfo::new(Publicness::Package, member_aware_export_kind(kind))
    } else if kind == SymbolKind::Method {
        ExportInfo::new(Publicness::Private, ExportKind::ModuleMember)
    } else {
        ExportInfo::private()
    }
}

fn java_export_info(kind: SymbolKind, item: &str) -> (r: ExportInfo)
    ensures
        r@ == java_export(kind, item@),
{
    let t = trimmed_start(item);
    if starts_with_exec(&t, &to_chars("public ")) {
        ExportInfo::new(Publicness::Public, member_aware_export_kind(kind))
    } else if starts_with_exec(&t, &to_chars("private ")) {
        ExportInfo::new(Publicness::Private, member_aware_export_kind(kind))
    } else {
        ExportInfo::new(Publicness::Package, member_aware_export_kind(kind))
    }
}

fn c_like_export_info(kind: SymbolKind, item: &str) -> (r: ExportInfo)
    ensures
        r@ == c_like_export(kind, item@),
{
    let t = trimmed_start(item);
    if starts_with_exec(&t, &to_chars("static ")) {
        ExportInfo::new(Publicness::Private, member_aware_export_kind(kind))
    } else {
        ExportInfo::new(Publicness::Public, member_aware_export_kind(kind))
    }
}

/// Export metadata of a symbol, from the file's extension, its kind, name and item text.
pub fn extract_export_info(ext: &str, kind: SymbolKind, name: &str, item: &str) -> (r: ExportInfo)
    ensures
        r@ == export_for(ext@, kind, name@, item@),
{
    match language_for_extension(ext) {
        Some(LanguageId::Rust) => rust_export_info(kind, item),
        Some(LanguageId::Python) | Some(LanguageId::Go) | Some(LanguageId::Ruby) => visibility_by_convention(kind, name),
        Some(LanguageId::Java) => java_export_info(kind, item),
        Some(LanguageId::C) | Some(LanguageId::Cpp) => c_like_export_info(kind, item),
        None => ExportInfo::unknown(),
    }
}

/// Python functions inside a class are methods.
pub open spec fn refined_kind(kind: SymbolKind, ext: Seq<char>, in_class: bool) -> SymbolKind {
    if (ext == "py"@ || ext == "pyi"@) && kind == SymbolKind::Function && in_class {
        SymbolKind::Method
    } else {
        kind
    }
}

/// The comment style of a file: Rust doc comments for `.rs`, plain comments otherwise.
pub open spec fn comment_source_of(ext: Seq<char>) -> CommentSource {
    if ext == "rs"@ {
        CommentSource::RustDoc
    } else {
        CommentSource::PlainComment
    }
}

/// A 1-based line number from a 0-based row, saturating at `u32::MAX`.
pub open spec fn line_1based(row: nat) -> u32 {
    if row >= u32::MAX {
        u32::MAX
    } else {
        (row + 1) as u32
    }
}

fn line_number_1based(row: usize) -> (r: u32)
    ensures
        r == line_1based(row as nat),
{
    if row >= 0xffff_ffffusize {
        0xffff_ffffu32
    } else {
        (row + 1) as u32
    }
}

// ---------------------------------------------------------------------------
// Doc comments
// ---------------------------------------------------------------------------

/// `s` without leading copies of `p`, as `trim_start_matches(p)` leaves it.
pub open spec fn strip_prefixes(s: Seq<char>, p: Seq<char>) -> Seq<char>
    decreases s.len(),
{
    if p.len() > 0 && starts_with(s, p) {
        strip_prefixes(s.skip(p.len() as int), p)
    } else {
        s
    }
}

/// `s` without trailing copies of `p`, as `trim_end_matches(p)` leaves it.
pub open spec fn strip_suffixes(s: Seq<char>, p: Seq<char>) -> Seq<char>
    decreases s.len(),
{
    if p.len() > 0 && ends_with(s, p) {
        strip_suffixes(s.subrange(0, s.len() - p.len()), p)
    } else {
        s
    }
}

/// A comment line without its comment markers (`//`, `///`, `/*`, `*/`, `#`, `*`) and
/// surrounding whitespace.
pub open spec fn clean_comment_line(c: Seq<char>) -> Seq<char> {
    trim(
        trim_start_char(
            trim_start_char(
                strip_suffixes(strip_prefixes(strip_prefixes(strip_prefixes(c, "//"@), "///"@), "/*"@), "*/"@),
                '#',
            ),
            '*',
        ),
    )
}

fn strip_prefixes_exec(s: &Vec<char>, p: &Vec<char>) -> (r: Vec<char>)
    ensures
        r@ == strip_prefixes(s@, p@),
{
    let mut i: usize = 0;
    assert(s@.skip(0) =~= s@);
    while p.len() > 0 && crate::text::occurs_at_exec(s, p, i)
        invariant
            0 <= i <= s.len(),
            strip_prefixes(s@, p@) == strip_prefixes(s@.skip(i as int), p@),
        decreases s.len() - i,
    {
        assert(s@.skip(i as int).subrange(0, p@.len() as int) =~= s@.subrange(i as int, i + p@.len()));
        assert(s@.skip(i as int).skip(p@.len() as int) =~= s@.skip(i + p@.len()));
        i = i + p.len();
    }
    proof {
        if p@.len() > 0 && starts_with(s@.skip(i as int), p@) {
            assert(s@.skip(i as int).subrange(0, p@.len() as int) =~= s@.subrange(i as int, i + p@.len()));
        }
    }
    crate::text::sub_chars(s, i, s.len())
}

fn strip_suffixes_exec(s: &Vec<char>, p: &Vec<char>) -> (r: Vec<char>)
    ensures
        r@ == strip_suffixes(s@, p@),
{
    let mut cur = crate::text::copy_chars(s);
    while p.len() > 0 && ends_with_exec(&cur, p)
        invariant
            strip_suffixes(s@, p@) == strip_suffixes(cur@, p@),
        decreases cur@.len(),
    {
        let n = cur.len() - p.len();
        cur = crate::text::sub_chars(&cur, 0, n);
    }
    cur
}

fn clean_comment_line_exec(c: &str) -> (r: Vec<char>)
    ensures
        r@ == clean_comment_line(c@),
{
    let v = to_chars(c);
    let a = strip_prefixes_exec(&v, &to_chars("//"));
    let b = strip_prefixes_exec(&a, &to_chars("///"));
    let d = strip_prefixes_exec(&b, &to_chars("/*"));
    let e = strip_suffixes_exec(&d, &to_chars("*/"));
    let f = crate::cli::trim_start_char_exec(&e, '#');
    let g = crate::cli::trim_start_char_exec(&f, '*');
    let (x, y) = crate::text::trim_bounds(&g, 0, g.len());
    assert(g@.subrange(0, g@.len() as int) =~= g@);
    crate::text::sub_chars(&g, x, y)
}

/// Node kinds that hold comments.
pub open spec fn is_comment_kind(k: Seq<char>) -> bool {
    k == "comment"@ || k == "line_comment"@ || k == "block_comment"@
}

/// The comments right before a definition, nearest first: the preceding siblings while they
/// are comments, each trimmed.
pub open spec fn comment_run(sibs: Seq<(Seq<char>, Seq<char>)>) -> Seq<Seq<char>>
    decreases sibs.len(),
{
    if sibs.len() == 0 || !is_comment_kind(sibs[0].0) {
        Seq::empty()
    } else {
        seq![trim(sibs[0].1)] + comment_run(sibs.drop_first())
    }
}

/// The comment node kinds of the grammars, written out: `comment`, `line_comment`,
/// `block_comment`.
pub open spec fn listed_comment_kind(k: Seq<char>) -> bool {
    k == "comment"@ || k == "line_comment"@ || k == "block_comment"@
}

/// The comment run before a definition is the texts, trimmed, of the preceding siblings
/// (nearest first) up to the first that is not a comment node: nodes of kind `comment`,
/// `line_comment` or `block_comment` all count, so every grammar's comments are kept.
pub proof fn lemma_comment_run_leading_comments(sibs: Seq<(Seq<char>, Seq<char>)>)
    ensures
        comment_run(sibs).len() <= sibs.len(),
        forall|i: int| 0 <= i < comment_run(sibs).len() ==> listed_comment_kind(#[trigger] sibs[i].0),
        forall|i: int| 0 <= i < comment_run(sibs).len() ==> #[trigger] comment_run(sibs)[i] == trim(sibs[i].1),
        comment_run(sibs).len() < sibs.len() ==> !listed_comment_kind(sibs[comment_run(sibs).len() as int].0),
    decreases sibs.len(),
{
    if sibs.len() > 0 && is_comment_kind(sibs[0].0) {
        let rest = sibs.drop_first();
        lemma_comment_run_leading_comments(rest);
        let run = comment_run(sibs);
        assert(run == seq![trim(sibs[0].1)] + comment_run(rest));
        assert forall|i: int| 0 <= i < comment_run(sibs).len() implies listed_comment_kind(#[trigger] sibs[i].0) by {
            if i > 0 {
                assert(rest[i - 1] == sibs[i]);
            }
        }
        assert forall|i: int| 0 <= i < comment_run(sibs).len() implies #[trigger] comment_run(sibs)[i] == trim(sibs[i].1) by {
            if i > 0 {
                assert(run[i] == comment_run(rest)[i - 1]);
                assert(rest[i - 1] == sibs[i]);
            } else {
                assert(run[0] == trim(sibs[0].1));
            }
        }
        if run.len() < sibs.len() {
            assert(sibs[run.len() as int] == rest[comment_run(rest).len() as int]);
        }
    } else {
        assert(comment_run(sibs).len() == 0);
    }
}

/// The non-empty cleaned lines, in order.
pub open spec fn cleaned_lines(lines: Seq<Seq<char>>) -> Seq<Seq<char>>
    decreases lines.len(),
{
    if lines.len() == 0 {
        Seq::empty()
    } else if clean_comment_line(lines.last()).len() > 0 {
        cleaned_lines(lines.drop_last()).push(clean_comment_line(lines.last()))
    } else {
        cleaned_lines(lines.drop_last())
    }
}

fn doc_text_exec(lines: &Vec<String>) -> (r: Vec<char>)
    ensures
        r@ == crate::text::join_with(cleaned_lines(views(lines@)), seq![' ']),
{
    let ghost lv = views(lines@);
    let mut kept: Vec<Vec<char>> = Vec::new();
    let mut i: usize = 0;
    while i < lines.len()
        invariant
            0 <= i <= lines.len(),
            lv == views(lines@),
            kept@.map_values(|v: Vec<char>| v@) == cleaned_lines(lv.subrange(0, i as int)),
        decreases lines.len() - i,
    {
        let c = clean_comment_line_exec(lines[i].as_str());
        proof {
            assert(lv.subrange(0, i + 1).drop_last() =~= lv.subrange(0, i as int));
            assert(lv.subrange(0, i + 1).last() == lines@[i as int]@);
        }
        let ghost pre = kept@;
        if c.len() > 0 {
            kept.push(c);
            assert(kept@.map_values(|v: Vec<char>| v@) =~= pre.map_values(|v: Vec<char>| v@).push(c@));
        }
        i = i + 1;
    }
    assert(lv.subrange(0, i as int) =~= lv);
    let mut sep: Vec<char> = Vec::new();
    sep.push(' ');
    assert(sep@ =~= seq![' ']);
    crate::paths::join_exec(&kept, &sep)
}

/// The signature shown for an extracted symbol: `name(params)` for functions and methods.
pub open spec fn signature_preview_of(kind: SymbolKind, name: Seq<char>, params: Seq<Seq<char>>) -> Seq<char> {
    if kind == SymbolKind::Function || kind == SymbolKind::Method {
        name + seq!['('] + crate::text::join_with(params, seq![',', ' ']) + seq![')']
    } else {
        name
    }
}

fn build_signature_preview(kind: SymbolKind, name: &String, params: &Vec<String>) -> (r: String)
    ensures
        r@ == signature_preview_of(kind, name@, views(params@)),
{
    match kind {
        SymbolKind::Function | SymbolKind::Method => {
            let mut out = to_chars(name.as_str());
            out.push('(');
            let mut sep: Vec<char> = Vec::new();
            sep.push(',');
            sep.push(' ');
            assert(sep@ =~= seq![',', ' ']);
            let mut parts: Vec<Vec<char>> = Vec::new();
            let mut i: usize = 0;
            while i < params.len()
                invariant
                    0 <= i <= params.len(),
                    parts@.map_values(|v: Vec<char>| v@) == views(params@).subrange(0, i as int),
                decreases params.len() - i,
            {
                let p = to_chars(params[i].as_str());
                let ghost pre = parts@;
                parts.push(p);
                assert(parts@.map_values(|v: Vec<char>| v@) =~= pre.map_values(|v: Vec<char>| v@).push(p@));
                assert(views(params@).subrange(0, i + 1) =~= views(params@).subrange(0, i as int).push(views(params@)[i as int]));
                assert(parts@.map_values(|v: Vec<char>| v@) =~= views(params@).subrange(0, i + 1));
                i = i + 1;
            }
            assert(views(params@).subrange(0, i as int) =~= views(params@));
            let joined = crate::paths::join_exec(&parts, &sep);
            crate::text::append_chars(&mut out, &joined);
            out.push(')');
            assert(out@ =~= signature_preview_of(kind, name@, views(params@)));
            from_chars(out.as_slice())
        },
        _ => name.clone(),
    }
}

// ---------------------------------------------------------------------------
// Tree-sitter
// ---------------------------------------------------------------------------

#[verifier::external_type_specification]
#[verifier::external_body]
pub struct ExLanguage(tree_sitter::Language);

#[verifier::external_type_specification]
#[verifier::external_body]
pub struct ExQuery(tree_sitter::Query);

#[verifier::external_type_specification]
#[verifier::external_body]
pub struct ExNode<'tree>(tree_sitter::Node<'tree>);

/// A tree-sitter grammar together with the language it is the grammar of. Only the grammar
/// constructors below make one, each from its language's grammar crate.
struct Grammar {
    id: LanguageId,
    language: tree_sitter::Language,
}

/// The grammar of `lang`.
fn grammar(lang: LanguageId) -> (r: Grammar)
    ensures
        r.id == lang,
{
    match lang {
        LanguageId::Rust => rust_grammar(),
        LanguageId::Python => python_grammar(),
        LanguageId::Go => go_grammar(),
        LanguageId::Java => java_grammar(),
        LanguageId::C => c_grammar(),
        LanguageId::Cpp => cpp_grammar(),
        LanguageId::Ruby => ruby_grammar(),
    }
}

/// `tree_sitter_rust::LANGUAGE`, as a `tree_sitter::Language`, tagged as the grammar of `Rust`.
#[verifier::external_body]
fn rust_grammar() -> (r: Grammar)
    ensures
        r.id == LanguageId::Rust,
{
    Grammar { id: LanguageId::Rust, language: tree_sitter_rust::LANGUAGE.into() }
}

/// `tree_sitter_python::LANGUAGE`, as a `tree_sitter::Language`, tagged as the grammar of `Python`.
#[verifier::external_body]
fn python_grammar() -> (r: Grammar)
    ensures
        r.id == LanguageId::Python,
{
    Grammar { id: LanguageId::Python, language: tree_sitter_python::LANGUAGE.into() }
}

/// `tree_sitter_go::LANGUAGE`, as a `tree_sitter::Language`, tagged as the grammar of `Go`.
#[verifier::external_body]
fn go_grammar() -> (r: Grammar)
    ensures
        r.id == LanguageId::Go,
{
    Grammar { id: LanguageId::Go, language: tree_sitter_go::LANGUAGE.into() }
}

/// `tree_sitter_java::LANGUAGE`, as a `tree_sitter::Language`, tagged as the grammar of `Java`.
#[verifier::external_body]
fn java_grammar() -> (r: Grammar)
    ensures
        r.id == LanguageId::Java,
{
    Grammar { id: LanguageId::Java, language: tree_sitter_java::LANGUAGE.into() }
}

/// `tree_sitter_c::LANGUAGE`, as a `tree_sitter::Language`, tagged as the grammar of `C`.
#[verifier::external_body]
fn c_grammar() -> (r: Grammar)
    ensures
        r.id == LanguageId::C,
{
    Grammar { id: LanguageId::C, language: tree_sitter_c::LANGUAGE.into() }
}

/// `tree_sitter_cpp::LANGUAGE`, as a `tree_sitter::Language`, tagged as the grammar of `Cpp`.
#[verifier::external_body]
fn cpp_grammar() -> (r: Grammar)
    ensures
        r.id == LanguageId::Cpp,
{
    Grammar { id: LanguageId::Cpp, language: tree_sitter_cpp::LANGUAGE.into() }
}

/// `tree_sitter_ruby::LANGUAGE`, as a `tree_sitter::Language`, tagged as the grammar of `Ruby`.
#[verifier::external_body]
fn ruby_grammar() -> (r: Grammar)
    ensures
        r.id == LanguageId::Ruby,
{
    Grammar { id: LanguageId::Ruby, language: tree_sitter_ruby::LANGUAGE.into() }
}

// ---------------------------------------------------------------------------
// Query captures as plain values
// ---------------------------------------------------------------------------

/// A node of a parse tree: its kind and its byte range in the source.
pub struct TsNode {
    pub kind: String,
    pub start_byte: usize,
    pub end_byte: usize,
}

/// The content of a `TsNode`.
pub struct TsNodeView {
    pub kind: Seq<char>,
    pub start_byte: usize,
    pub end_byte: usize,
}

impl View for TsNode {
    type V = TsNodeView;

    open spec fn view(&self) -> TsNodeView {
        TsNodeView { kind: self.kind@, start_byte: self.start_byte, end_byte: self.end_byte }
    }
}

/// A child of a captured node, with its own children.
pub struct TsChild {
    pub node: TsNode,
    pub children: Vec<TsNode>,
}

/// The content of a `TsChild`.
pub struct TsChildView {
    pub node: TsNodeView,
    pub children: Seq<TsNodeView>,
}

impl View for TsChild {
    type V = TsChildView;

    open spec fn view(&self) -> TsChildView {
        TsChildView { node: self.node@, children: self.children@.map_values(|n: TsNode| n@) }
    }
}

/// One capture of a query match: the capture's name, the captured node with its rows, its
/// children (each with its children), the kinds of its ancestors (nearest first) and its
/// preceding siblings (nearest first).
pub struct TsCapture {
    pub name: String,
    pub node: TsNode,
    pub start_row: usize,
    pub end_row: usize,
    pub children: Vec<TsChild>,
    pub ancestors: Vec<String>,
    pub preceding: Vec<TsNode>,
}

/// The content of a `TsCapture`.
pub struct CaptureView {
    pub name: Seq<char>,
    pub node: TsNodeView,
    pub start_row: usize,
    pub end_row: usize,
    pub children: Seq<TsChildView>,
    pub ancestors: Seq<Seq<char>>,
    pub preceding: Seq<TsNodeView>,
}

impl View for TsCapture {
    type V = CaptureView;

    open spec fn view(&self) -> CaptureView {
        CaptureView {
            name: self.name@,
            node: self.node@,
            start_row: self.start_row,
            end_row: self.end_row,
            children: self.children@.map_values(|c: TsChild| c@),
            ancestors: views(self.ancestors@),
            preceding: self.preceding@.map_values(|n: TsNode| n@),
        }
    }
}

/// The views of the captures of each match.
pub open spec fn capture_views(ms: Seq<Vec<TsCapture>>) -> Seq<Seq<CaptureView>> {
    ms.map_values(|m: Vec<TsCapture>| m@.map_values(|c: TsCapture| c@))
}

/// The captures of every match of the query `query` over the tree-sitter parse of `source`
/// with the grammar of `lang`, in the order the query cursor yields them (none when the query
/// does not compile for the grammar).
pub uninterp spec fn ts_captures(lang: LanguageId, query: Seq<char>, source: Seq<char>) -> Seq<Seq<CaptureView>>;

/// Calls `Node::kind`, `Node::start_byte` and `Node::end_byte`.
#[verifier::external_body]
fn ts_node(node: tree_sitter::Node) -> (r: TsNode) {
    TsNode { kind: node.kind().to_string(), start_byte: node.start_byte(), end_byte: node.end_byte() }
}

/// A node and its children (`Node::children`), in order.
#[verifier::external_body]
fn ts_child(node: tree_sitter::Node) -> (r: TsChild) {
    let mut cursor = node.walk();
    let mut children = Vec::new();
    for c in node.children(&mut cursor) {
        children.push(ts_node(c));
    }
    TsChild { node: ts_node(node), children }
}

/// The kinds of a node's ancestors (`Node::parent`, repeatedly), nearest first.
#[verifier::external_body]
fn ts_ancestor_kinds(node: tree_sitter::Node) -> (r: Vec<String>) {
    let mut kinds = Vec::new();
    let mut cur = node.parent();
    while let Some(p) = cur {
        kinds.push(p.kind().to_string());
        cur = p.parent();
    }
    kinds
}

/// A node's preceding siblings (`Node::prev_sibling`, repeatedly), nearest first.
#[verifier::external_body]
fn ts_preceding(node: tree_sitter::Node) -> (r: Vec<TsNode>) {
    let mut sibs = Vec::new();
    let mut cur = node.prev_sibling();
    while let Some(p) = cur {
        sibs.push(ts_node(p));
        cur = p.prev_sibling();
    }
    sibs
}

/// A capture of a match as plain values: its name (`Query::capture_names`), the node, its rows
/// (`Node::start_position`, `Node::end_position`), its children, ancestors and preceding
/// siblings.
#[verifier::external_body]
fn ts_capture(query: &tree_sitter::Query, index: u32, node: tree_sitter::Node) -> (r: TsCapture) {
    let mut cursor = node.walk();
    let mut children = Vec::new();
    for c in node.children(&mut cursor) {
        children.push(ts_child(c));
    }
    let name = query.capture_names()[index as usize].to_string();
    let (start_row, end_row) = (node.start_position().row, node.end_position().row);
    TsCapture { name, node: ts_node(node), start_row, end_row, children, ancestors: ts_ancestor_kinds(node), preceding: ts_preceding(node) }
}

/// Parses `source` with `grammar` (`Parser::set_language`, `Parser::parse`), runs `query`
/// (`Query::new`, `QueryCursor::matches`) over the whole tree, and hands out the captures of
/// each match, in the order the cursor yields them; empty when the grammar cannot be set, the
/// parse is cancelled or the query does not compile. Parsing and matching depend on the
/// grammar, the query and the source alone, so the result is named.
#[verifier::external_body]
fn query_captures(grammar: &Grammar, query: &str, source: &str) -> (r: Vec<Vec<TsCapture>>)
    ensures
        capture_views(r@) == ts_captures(grammar.id, query@, source@),
{
    let mut parser = tree_sitter::Parser::new();
    let Ok(()) = parser.set_language(&grammar.language) else { return Vec::new() };
    let Some(tree) = parser.parse(source, None) else { return Vec::new() };
    let Ok(q) = tree_sitter::Query::new(&grammar.language, query) else { return Vec::new() };
    let mut cursor = tree_sitter::QueryCursor::new();
    let mut matches = cursor.matches(&q, tree.root_node(), source.as_bytes());
    let mut out = Vec::new();
    while let Some(m) = matches.next() {
        out.push(m.captures.iter().map(|c| ts_capture(&q, c.index, c.node)).collect());
    }
    out
}

/// The text of a node.
pub open spec fn node_text_of(source: Seq<char>, n: TsNodeView) -> Seq<char> {
    byte_slice(source, n.start_byte, n.end_byte)
}

fn node_text(source: &SourceText, n: &TsNode) -> (r: String)
    ensures
        r@ == node_text_of(source@, n@),
{
    source.slice(n.start_byte, n.end_byte)
}

// ---------------------------------------------------------------------------
// Symbols out of captures
// ---------------------------------------------------------------------------

/// Parameter node kinds: any kind naming a parameter, typed parameters and pairs.
pub open spec fn param_kind(k: Seq<char>) -> bool {
    crate::text::contains_sub(k, "parameter"@) || k == "typed_parameter"@ || k == "pair"@
}

fn is_param_kind(kind: &str) -> (r: bool)
    ensures
        r == param_kind(kind@),
{
    crate::text::contains_exec(&to_chars(kind), &to_chars("parameter")) || str_eq(kind, "typed_parameter")
        || str_eq(kind, "pair")
}

/// Node kinds that are a name.
pub open spec fn name_kind(k: Seq<char>) -> bool {
    k == "identifier"@ || k == "name"@
}

/// The first of the kinds that is a name kind.
pub open spec fn first_name_kind(kinds: Seq<Seq<char>>) -> Option<int>
    decreases kinds.len(),
{
    if kinds.len() == 0 {
        None
    } else if name_kind(kinds[0]) {
        Some(0)
    } else {
        match first_name_kind(kinds.drop_first()) {
            Some(i) => Some(i + 1),
            None => None,
        }
    }
}

proof fn lemma_first_name_kind(kinds: Seq<Seq<char>>, i: int)
    requires
        0 <= i <= kinds.len(),
        forall|j: int| 0 <= j < i ==> !name_kind(#[trigger] kinds[j]),
    ensures
        i < kinds.len() && name_kind(kinds[i]) ==> first_name_kind(kinds) == Some(i),
        i == kinds.len() ==> first_name_kind(kinds) is None,
    decreases i,
{
    if i > 0 {
        let rest = kinds.drop_first();
        assert forall|j: int| 0 <= j < i - 1 implies !name_kind(#[trigger] rest[j]) by {
            assert(rest[j] == kinds[j + 1]);
        }
        assert(!name_kind(kinds[0]));
        lemma_first_name_kind(rest, i - 1);
        if i < kinds.len() {
            assert(rest[i - 1] == kinds[i]);
        }
    }
}

/// Where the name of a parameter node is.
pub enum ParamSource {
    /// The node is itself the name.
    Node,
    /// The child at this position is the name.
    Child(usize),
    /// The node has no name.
    Missing,
}

/// Where the name of a node of kind `kind`, with children of kinds `kids`, is: the node itself
/// for an identifier, name or shorthand field identifier; for a parameter kind, its first
/// child of a name kind; nowhere otherwise.
pub open spec fn param_source(kind: Seq<char>, kids: Seq<Seq<char>>) -> ParamSource {
    if name_kind(kind) || kind == "shorthand_field_identifier"@ {
        ParamSource::Node
    } else if param_kind(kind) {
        match first_name_kind(kids) {
            Some(i) => ParamSource::Child(i as usize),
            None => ParamSource::Missing,
        }
    } else {
        ParamSource::Missing
    }
}

/// Exec: `param_source`.
fn locate_param_name(kind: &str, kids: &Vec<String>) -> (r: ParamSource)
    ensures
        r == param_source(kind@, views(kids@)),
        r matches ParamSource::Child(i) ==> i < kids@.len(),
{
    if str_eq(kind, "identifier") || str_eq(kind, "name") || str_eq(kind, "shorthand_field_identifier") {
        return ParamSource::Node;
    }
    if !is_param_kind(kind) {
        return ParamSource::Missing;
    }
    let ghost kv = views(kids@);
    assert(!name_kind(kind@) && kind@ != "shorthand_field_identifier"@ && param_kind(kind@));
    let mut i: usize = 0;
    while i < kids.len()
        invariant
            0 <= i <= kids.len(),
            kv == views(kids@),
            !name_kind(kind@) && kind@ != "shorthand_field_identifier"@ && param_kind(kind@),
            forall|j: int| 0 <= j < i ==> !name_kind(#[trigger] kv[j]),
        decreases kids.len() - i,
    {
        if str_eq(kids[i].as_str(), "identifier") || str_eq(kids[i].as_str(), "name") {
            proof {
                assert(kv[i as int] == kids@[i as int]@);
                assert(name_kind(kv[i as int]));
                lemma_first_name_kind(kv, i as int);
                assert(first_name_kind(kv) == Some(i as int));
                assert(!name_kind(kind@) && kind@ != "shorthand_field_identifier"@ && param_kind(kind@));
                assert(param_source(kind@, kv) == ParamSource::Child(i));
            }
            return ParamSource::Child(i);
        }
        assert(kv[i as int] == kids@[i as int]@);
        i = i + 1;
    }
    proof {
        lemma_first_name_kind(kv, i as int);
    }
    ParamSource::Missing
}

/// The name of a parameter node, where `param_source` puts it over the node's kind and its
/// children's kinds.
pub open spec fn param_name_of(c: TsChildView, source: Seq<char>) -> Option<Seq<char>> {
    match param_source(c.node.kind, c.children.map_values(|g: TsNodeView| g.kind)) {
        ParamSource::Node => Some(node_text_of(source, c.node)),
        ParamSource::Child(i) => if (i as int) < c.children.len() {
            Some(node_text_of(source, c.children[i as int]))
        } else {
            None
        },
        ParamSource::Missing => None,
    }
}

/// Exec: `param_name_of`.
fn find_param_name(child: &TsChild, source: &SourceText) -> (r: Option<String>)
    ensures
        crate::types::opt_view(r) == param_name_of(child@, source@),
{
    let ghost kv = child@.children.map_values(|g: TsNodeView| g.kind);
    let mut kinds: Vec<String> = Vec::new();
    let mut i: usize = 0;
    while i < child.children.len()
        invariant
            0 <= i <= child.children.len(),
            kv == child@.children.map_values(|g: TsNodeView| g.kind),
            views(kinds@) == kv.subrange(0, i as int),
        decreases child.children.len() - i,
    {
        let k = child.children[i].kind.clone();
        proof {
            crate::text::lemma_views_push(kinds@, k);
            assert(kv[i as int] == child.children@[i as int].kind@);
            assert(kv.subrange(0, i + 1) =~= kv.subrange(0, i as int).push(kv[i as int]));
        }
        kinds.push(k);
        i = i + 1;
    }
    assert(kv.subrange(0, i as int) =~= kv);
    match locate_param_name(child.node.kind.as_str(), &kinds) {
        ParamSource::Node => Some(node_text(source, &child.node)),
        ParamSource::Child(j) => {
            assert(child@.children[j as int] == child.children@[j as int]@);
            Some(node_text(source, &child.children[j]))
        },
        ParamSource::Missing => None,
    }
}

/// The names present among optional names, in order.
pub open spec fn present(found: Seq<Option<Seq<char>>>) -> Seq<Seq<char>>
    decreases found.len(),
{
    if found.len() == 0 {
        Seq::empty()
    } else {
        match found.last() {
            Some(n) => present(found.drop_last()).push(n),
            None => present(found.drop_last()),
        }
    }
}

/// The views of optional names.
pub open spec fn opt_views(found: Seq<Option<String>>) -> Seq<Option<Seq<char>>> {
    found.map_values(|o: Option<String>| crate::types::opt_view(o))
}

/// Exec: `present`; every kept name is one of the given ones.
fn present_names(found: &Vec<Option<String>>) -> (r: Vec<String>)
    ensures
        views(r@) == present(opt_views(found@)),
        forall|k: int| 0 <= k < r@.len() ==> exists|j: int| 0 <= j < found@.len() && found@[j] == Some(#[trigger] r@[k]),
{
    let ghost fv = opt_views(found@);
    let mut out: Vec<String> = Vec::new();
    let mut i: usize = 0;
    while i < found.len()
        invariant
            0 <= i <= found.len(),
            fv == opt_views(found@),
            views(out@) == present(fv.subrange(0, i as int)),
            forall|k: int| 0 <= k < out@.len() ==> exists|j: int| 0 <= j < found@.len() && found@[j] == Some(#[trigger] out@[k]),
        decreases found.len() - i,
    {
        proof {
            assert(fv.subrange(0, i + 1).drop_last() =~= fv.subrange(0, i as int));
            assert(fv.subrange(0, i + 1).last() == fv[i as int]);
        }
        match &found[i] {
            Some(p) => {
                let c = p.clone();
                let ghost pre = out@;
                proof {
                    crate::text::lemma_views_push(out@, c);
                }
                out.push(c);
                assert forall|k: int| 0 <= k < out@.len() implies exists|j: int| 0 <= j < found@.len() && found@[j] == Some(#[trigger] out@[k]) by {
                    if k < pre.len() {
                        assert(out@[k] == pre[k]);
                    } else {
                        assert(found@[i as int] == Some(out@[k]));
                    }
                }
            },
            None => {},
        }
        i = i + 1;
    }
    assert(fv.subrange(0, i as int) =~= fv);
    out
}

/// The parameter names of a parameter list: the names found among its children, in order.
pub open spec fn param_names_of(children: Seq<TsChildView>, source: Seq<char>) -> Seq<Seq<char>> {
    present(children.map_values(|c: TsChildView| param_name_of(c, source)))
}

/// Exec: `param_names_of`.
fn extract_param_names(children: &Vec<TsChild>, source: &SourceText) -> (r: Vec<String>)
    ensures
        views(r@) == param_names_of(children@.map_values(|c: TsChild| c@), source@),
{
    let ghost want = children@.map_values(|c: TsChild| c@).map_values(|c: TsChildView| param_name_of(c, source@));
    let mut found: Vec<Option<String>> = Vec::new();
    let mut i: usize = 0;
    while i < children.len()
        invariant
            0 <= i <= children.len(),
            want == children@.map_values(|c: TsChild| c@).map_values(|c: TsChildView| param_name_of(c, source@)),
            opt_views(found@) == want.subrange(0, i as int),
        decreases children.len() - i,
    {
        let f = find_param_name(&children[i], source);
        let ghost pre = found@;
        found.push(f);
        proof {
            assert(want[i as int] == param_name_of(children@[i as int]@, source@));
            assert(opt_views(found@) =~= opt_views(pre).push(crate::types::opt_view(f)));
            assert(want.subrange(0, i + 1) =~= want.subrange(0, i as int).push(want[i as int]));
        }
        i = i + 1;
    }
    assert(want.subrange(0, i as int) =~= want);
    present_names(&found)
}

/// Whether `target` is among the kinds.
fn kind_among(kinds: &Vec<String>, target: &str) -> (r: bool)
    ensures
        r == views(kinds@).contains(target@),
{
    let mut i: usize = 0;
    while i < kinds.len()
        invariant
            0 <= i <= kinds.len(),
            forall|j: int| 0 <= j < i ==> views(kinds@)[j] != target@,
        decreases kinds.len() - i,
    {
        if str_eq(kinds[i].as_str(), target) {
            assert(views(kinds@)[i as int] == target@);
            return true;
        }
        i = i + 1;
    }
    false
}

/// Whether some ancestor has kind `target`, given the ancestors' kinds.
fn has_ancestor_kind(ancestors: &Vec<String>, target: &str) -> (r: bool)
    ensures
        r == views(ancestors@).contains(target@),
{
    kind_among(ancestors, target)
}

fn is_comment_kind_exec(k: &str) -> (r: bool)
    ensures
        r == is_comment_kind(k@),
{
    str_eq(k, "comment") || str_eq(k, "line_comment") || str_eq(k, "block_comment")
}

/// Preceding siblings with their texts.
pub open spec fn sibling_texts(sibs: Seq<TsNodeView>, source: Seq<char>) -> Seq<(Seq<char>, Seq<char>)> {
    sibs.map_values(|n: TsNodeView| (n.kind, node_text_of(source, n)))
}

/// The comments right before a definition, nearest first, each trimmed: `comment_run` of its
/// preceding siblings.
fn preceding_comments(preceding: &Vec<TsNode>, source: &SourceText) -> (r: Vec<String>)
    ensures
        views(r@) == comment_run(sibling_texts(preceding@.map_values(|n: TsNode| n@), source@)),
{
    let ghost st = sibling_texts(preceding@.map_values(|n: TsNode| n@), source@);
    let mut lines: Vec<String> = Vec::new();
    let mut i: usize = 0;
    assert(st.skip(0) =~= st);
    while i < preceding.len()
        invariant
            0 <= i <= preceding.len(),
            st == sibling_texts(preceding@.map_values(|n: TsNode| n@), source@),
            st.len() == preceding.len(),
            views(lines@) + comment_run(st.skip(i as int)) == comment_run(st),
        decreases preceding.len() - i,
    {
        let sib = &preceding[i];
        assert(st.skip(i as int)[0] == st[i as int]);
        assert(st[i as int] == (sib@.kind, node_text_of(source@, sib@)));
        if !is_comment_kind_exec(sib.kind.as_str()) {
            assert(comment_run(st.skip(i as int)) =~= Seq::<Seq<char>>::empty());
            assert(views(lines@) =~= comment_run(st));
            return lines;
        }
        let text = node_text(source, sib);
        let t = to_chars(text.as_str());
        let (a, b) = crate::text::trim_bounds(&t, 0, t.len());
        let line = from_chars(crate::text::sub_chars(&t, a, b).as_slice());
        proof {
            assert(t@.subrange(0, t@.len() as int) =~= t@);
            assert(line@ == trim(text@));
            assert(st.skip(i as int).drop_first() =~= st.skip(i + 1));
            crate::text::lemma_views_push(lines@, line);
            assert(views(lines@.push(line)) + comment_run(st.skip(i + 1)) =~= views(lines@) + comment_run(st.skip(i as int)));
        }
        lines.push(line);
        i = i + 1;
    }
    assert(st.skip(i as int) =~= Seq::<(Seq<char>, Seq<char>)>::empty());
    assert(views(lines@) =~= comment_run(st));
    lines
}

/// The comment `CommentInfo::from_normalized_text` makes of a text: none when the text holds
/// no word; else its summary line, body preview and flags, with status `SummaryOnly`.
pub open spec fn comment_from_text(text: Seq<char>, source: CommentSource) -> Option<CommentView> {
    if ws_words(text).len() == 0 {
        None
    } else {
        let n = normalize_ws(text);
        Some(
            CommentView {
                summary_line: Some(summary_line_of(n)),
                body_preview: body_preview_of(n, summary_line_of(n)),
                flags: comment_flags_of(n),
                source,
                normalization_status: CommentNormalizationStatus::SummaryOnly,
            },
        )
    }
}

/// The doc comment of a run of preceding comments (nearest first): none for an empty run;
/// else the run in source order, cleaned and joined with spaces, made into a comment.
pub open spec fn doc_comment_of(run: Seq<Seq<char>>, source: CommentSource) -> Option<CommentView> {
    if run.len() == 0 {
        None
    } else {
        let joined = crate::text::join_with(cleaned_lines(run.reverse()), seq![' ']);
        if joined.len() == 0 {
            None
        } else {
            comment_from_text(joined, source)
        }
    }
}

/// The doc comment made of a run of preceding comments, nearest first.
fn doc_comment_from_run(run: Vec<String>, comment_source: CommentSource) -> (r: Option<CommentInfo>)
    ensures
        crate::types::opt_comment_view(r) == doc_comment_of(views(run@), comment_source),
{
    if run.len() == 0 {
        return None;
    }
    let ordered = reversed_strings(run);
    let joined = doc_text_exec(&ordered);
    if joined.len() == 0 {
        None
    } else {
        let c = CommentInfo::from_normalized_text(from_chars(joined.as_slice()).as_str(), comment_source);
        proof {
            if c is Some {
                assert(crate::types::opt_comment_view(c) =~= comment_from_text(joined@, comment_source));
            }
        }
        c
    }
}

fn reversed_strings(v: Vec<String>) -> (r: Vec<String>)
    ensures
        views(r@) == views(v@).reverse(),
{
    let ghost sv = views(v@);
    let mut rest = v;
    let mut out: Vec<String> = Vec::new();
    while rest.len() > 0
        invariant
            views(out@) + views(rest@).reverse() == sv.reverse(),
        decreases rest.len(),
    {
        let ghost before = views(rest@);
        let x = rest.pop().unwrap();
        proof {
            assert(views(rest@) =~= before.drop_last());
            assert(before.last() == x@);
            crate::text::lemma_views_push(out@, x);
            assert(before.reverse() =~= seq![x@] + before.drop_last().reverse());
        }
        out.push(x);
        assert(views(out@) + views(rest@).reverse() =~= sv.reverse());
    }
    assert(views(rest@).reverse() =~= Seq::<Seq<char>>::empty());
    assert(views(out@) =~= sv.reverse());
    out
}

/// The doc comment of a definition: its preceding comments, cleaned and joined, made into a
/// comment.
fn extract_doc_comment(preceding: &Vec<TsNode>, source: &SourceText, comment_source: CommentSource) -> (r: Option<CommentInfo>)
    ensures
        crate::types::opt_comment_view(r) == doc_comment_of(
            comment_run(sibling_texts(preceding@.map_values(|n: TsNode| n@), source@)),
            comment_source,
        ),
{
    let run = preceding_comments(preceding, source);
    doc_comment_from_run(run, comment_source)
}

/// The role of a query capture, by its name.
pub enum CaptureRole {
    /// The symbol's name.
    Name,
    /// The symbol's parameter list.
    Params,
    /// The definition, of this kind.
    Definition(SymbolKind),
    /// Anything else.
    Other,
}

/// The role of the capture named `name`: `name`, `params`, or `definition.<kind>`.
pub open spec fn capture_role_of(name: Seq<char>) -> CaptureRole {
    if name == "name"@ {
        CaptureRole::Name
    } else if name == "params"@ {
        CaptureRole::Params
    } else if starts_with(name, "definition."@) {
        CaptureRole::Definition(kind_of_capture(name))
    } else {
        CaptureRole::Other
    }
}

/// Exec: `capture_role_of`.
fn capture_role(name: &str) -> (r: CaptureRole)
    ensures
        r == capture_role_of(name@),
{
    if str_eq(name, "name") {
        CaptureRole::Name
    } else if str_eq(name, "params") {
        CaptureRole::Params
    } else if starts_with_exec(&to_chars(name), &to_chars("definition.")) {
        CaptureRole::Definition(kind_of_capture_exec(name))
    } else {
        CaptureRole::Other
    }
}

/// Whether the kind of a definition in a file with extension `ext` depends on an enclosing
/// class: a Python function.
fn may_be_method(kind: SymbolKind, ext: &str) -> (r: bool)
    ensures
        r == ((ext@ == "py"@ || ext@ == "pyi"@) && kind == SymbolKind::Function),
{
    (str_eq(ext, "py") || str_eq(ext, "pyi")) && kind == SymbolKind::Function
}

/// Exec: `refined_kind`.
fn refine_kind(kind: SymbolKind, ext: &str, in_class: bool) -> (r: SymbolKind)
    ensures
        r == refined_kind(kind, ext@, in_class),
{
    if may_be_method(kind, ext) && in_class {
        SymbolKind::Method
    } else {
        kind
    }
}

/// The symbol made of a definition's captured pieces.
pub open spec fn symbol_of(
    name: Seq<char>,
    kind: SymbolKind,
    filepath: Seq<char>,
    start_line: u32,
    end_line: u32,
    params: Seq<Seq<char>>,
    comment: Option<CommentView>,
    ext: Seq<char>,
    item: Seq<char>,
) -> SymbolView {
    SymbolView {
        name,
        kind,
        filepath,
        start_line,
        end_line,
        params,
        signature_preview: Some(signature_preview_of(kind, name, params)),
        comment,
        export: export_for(ext, kind, name, item),
    }
}

/// Exec: `symbol_of`.
fn make_symbol(
    name: String,
    kind: SymbolKind,
    filepath: &str,
    start_line: u32,
    end_line: u32,
    params: Vec<String>,
    comment: Option<CommentInfo>,
    ext: &str,
    item: &str,
) -> (r: Symbol)
    ensures
        r@ == symbol_of(name@, kind, filepath@, start_line, end_line, views(params@), crate::types::opt_comment_view(comment), ext@, item@),
{
    let export = extract_export_info(ext, kind, name.as_str(), item);
    let signature = build_signature_preview(kind, &name, &params);
    Symbol {
        signature_preview: Some(signature),
        comment,
        export,
        name,
        kind,
        filepath: crate::text::string_of(filepath),
        start_line,
        end_line,
        params,
    }
}

/// What the captures of a match read so far give: a name, a kind, lines, parameters, and the
/// definition capture.
pub struct MatchState {
    pub name: Seq<char>,
    pub kind: SymbolKind,
    pub start_line: u32,
    pub end_line: u32,
    pub params: Seq<Seq<char>>,
    pub def: Option<CaptureView>,
}

pub open spec fn match_start() -> MatchState {
    MatchState {
        name: Seq::empty(),
        kind: SymbolKind::Function,
        start_line: 0,
        end_line: 0,
        params: Seq::empty(),
        def: None,
    }
}

/// One capture read into the state: a name capture sets the name, a parameter capture the
/// parameters, a definition capture the kind, the lines and the definition.
pub open spec fn match_step(st: MatchState, c: CaptureView, source: Seq<char>) -> MatchState {
    match capture_role_of(c.name) {
        CaptureRole::Name => MatchState { name: node_text_of(source, c.node), ..st },
        CaptureRole::Params => MatchState { params: param_names_of(c.children, source), ..st },
        CaptureRole::Definition(k) => MatchState {
            kind: k,
            start_line: line_1based(c.start_row as nat),
            end_line: line_1based(c.end_row as nat),
            def: Some(c),
            ..st
        },
        CaptureRole::Other => st,
    }
}

/// The state after the captures of a match, in order.
pub open spec fn match_fold(caps: Seq<CaptureView>, source: Seq<char>) -> MatchState
    decreases caps.len(),
{
    if caps.len() == 0 {
        match_start()
    } else {
        match_step(match_fold(caps.drop_last(), source), caps.last(), source)
    }
}

/// The symbol of a match: none without a name or a definition; otherwise the definition's
/// kind (a Python function inside a class is a method), lines, parameters, doc comment, and
/// export metadata by the file's language rules over the definition's text.
pub open spec fn match_symbol(caps: Seq<CaptureView>, filepath: Seq<char>, source: Seq<char>) -> Option<SymbolView> {
    let st = match_fold(caps, source);
    let ext = last_segment(filepath);
    if st.name.len() > 0 && st.start_line > 0 {
        match st.def {
            Some(d) => {
                let in_class = (ext == "py"@ || ext == "pyi"@) && st.kind == SymbolKind::Function
                    && d.ancestors.contains("class_definition"@);
                Some(
                    symbol_of(
                        st.name,
                        refined_kind(st.kind, ext, in_class),
                        filepath,
                        st.start_line,
                        st.end_line,
                        st.params,
                        doc_comment_of(comment_run(sibling_texts(d.preceding, source)), comment_source_of(ext)),
                        ext,
                        node_text_of(source, d.node),
                    ),
                )
            },
            None => None,
        }
    } else {
        None
    }
}

/// The symbols of the matches, in order: one per match that has a name and a definition.
pub open spec fn symbols_of(ms: Seq<Seq<CaptureView>>, filepath: Seq<char>, source: Seq<char>) -> Seq<SymbolView>
    decreases ms.len(),
{
    if ms.len() == 0 {
        Seq::empty()
    } else {
        let prev = symbols_of(ms.drop_last(), filepath, source);
        match match_symbol(ms.last(), filepath, source) {
            Some(s) => prev.push(s),
            None => prev,
        }
    }
}

/// The symbols tree-sitter extraction finds in `source` at `filepath` with the grammar and the
/// query of `lang`.
pub open spec fn ts_symbols(lang: LanguageId, filepath: Seq<char>, source: Seq<char>) -> Seq<SymbolView> {
    symbols_of(ts_captures(lang, query_text(lang), source), filepath, source)
}

/// The documents of tree-sitter extraction: its symbols as code documents.
pub open spec fn ts_docs(lang: LanguageId, filepath: Seq<char>, source: Seq<char>) -> Seq<IndexDocumentView> {
    ts_symbols(lang, filepath, source).map_values(|s: SymbolView| IndexDocumentView::Code(s))
}

/// The view of an optional symbol.
pub open spec fn opt_symbol_view(o: Option<Symbol>) -> Option<SymbolView> {
    match o {
        Some(s) => Some(s@),
        None => None,
    }
}

/// Exec: `match_symbol`.
fn symbol_of_match(caps: &Vec<TsCapture>, filepath: &str, ext: &String, source: &SourceText) -> (r: Option<Symbol>)
    requires
        ext@ == last_segment(filepath@),
    ensures
        opt_symbol_view(r) == match_symbol(caps@.map_values(|c: TsCapture| c@), filepath@, source@),
{
    let ghost cv = caps@.map_values(|c: TsCapture| c@);
    let mut name = String::new();
    let mut kind = SymbolKind::Function;
    let mut start_line: u32 = 0;
    let mut end_line: u32 = 0;
    let mut params: Vec<String> = Vec::new();
    let mut def: Option<usize> = None;
    let mut i: usize = 0;
    proof {
        assert(cv.subrange(0, 0) =~= Seq::<CaptureView>::empty());
        assert(views(params@) =~= Seq::<Seq<char>>::empty());
    }
    while i < caps.len()
        invariant
            0 <= i <= caps.len(),
            cv == caps@.map_values(|c: TsCapture| c@),
            ({
                let st = match_fold(cv.subrange(0, i as int), source@);
                &&& name@ == st.name
                &&& kind == st.kind
                &&& start_line == st.start_line
                &&& end_line == st.end_line
                &&& views(params@) == st.params
                &&& match st.def {
                    Some(d) => def matches Some(j) && j < i && cv[j as int] == d,
                    None => def is None,
                }
            }),
        decreases caps.len() - i,
    {
        let c = &caps[i];
        proof {
            assert(cv.subrange(0, i + 1).drop_last() =~= cv.subrange(0, i as int));
            assert(cv.subrange(0, i + 1).last() == c@);
        }
        match capture_role(c.name.as_str()) {
            CaptureRole::Name => {
                name = node_text(source, &c.node);
            },
            CaptureRole::Params => {
                params = extract_param_names(&c.children, source);
            },
            CaptureRole::Definition(k) => {
                kind = k;
                start_line = line_number_1based(c.start_row);
                end_line = line_number_1based(c.end_row);
                def = Some(i);
            },
            CaptureRole::Other => {},
        }
        i = i + 1;
    }
    assert(cv.subrange(0, i as int) =~= cv);
    if name.as_str().is_empty() || start_line == 0 {
        return None;
    }
    match def {
        Some(j) => {
            let d = &caps[j];
            let in_class = may_be_method(kind, ext.as_str()) && has_ancestor_kind(&d.ancestors, "class_definition");
            let refined = refine_kind(kind, ext.as_str(), in_class);
            let comment_source = if str_eq(ext.as_str(), "rs") {
                CommentSource::RustDoc
            } else {
                CommentSource::PlainComment
            };
            let comment = extract_doc_comment(&d.preceding, source, comment_source);
            let item = node_text(source, &d.node);
            Some(make_symbol(name, refined, filepath, start_line, end_line, params, comment, ext.as_str(), item.as_str()))
        },
        None => None,
    }
}

/// The symbols of query matches over `source` at `filepath`: one per match that captured a
/// name and a definition, in match order.
pub fn symbols_from_captures(matches: &Vec<Vec<TsCapture>>, filepath: &str, source: &str) -> (r: Vec<Symbol>)
    ensures
        r@.map_values(|s: Symbol| s@) == symbols_of(capture_views(matches@), filepath@, source@),
{
    let ext = last_segment_exec(filepath);
    let text = SourceText::new(source);
    let ghost mv = capture_views(matches@);
    let mut symbols: Vec<Symbol> = Vec::new();
    let mut mi: usize = 0;
    proof {
        assert(mv.subrange(0, 0) =~= Seq::<Seq<CaptureView>>::empty());
        assert(symbols@.map_values(|s: Symbol| s@) =~= Seq::<SymbolView>::empty());
    }
    while mi < matches.len()
        invariant
            0 <= mi <= matches.len(),
            ext@ == last_segment(filepath@),
            text@ == source@,
            mv == capture_views(matches@),
            symbols@.map_values(|s: Symbol| s@) == symbols_of(mv.subrange(0, mi as int), filepath@, source@),
        decreases matches.len() - mi,
    {
        proof {
            assert(mv.subrange(0, mi + 1).drop_last() =~= mv.subrange(0, mi as int));
            assert(mv.subrange(0, mi + 1).last() == matches@[mi as int]@.map_values(|c: TsCapture| c@));
        }
        match symbol_of_match(&matches[mi], filepath, &ext, &text) {
            Some(sym) => {
                let ghost pre = symbols@;
                symbols.push(sym);
                assert(symbols@.map_values(|s: Symbol| s@) =~= pre.map_values(|s: Symbol| s@).push(sym@));
            },
            None => {},
        }
        mi = mi + 1;
    }
    assert(mv.subrange(0, mi as int) =~= mv);
    symbols
}

/// Extract symbols from source code with the grammar and query of `lang`: one per query match
/// that captured a name and a definition, in match order.
pub fn extract_symbols(source: &str, filepath: &str, lang: LanguageId) -> (r: Vec<Symbol>)
    ensures
        r@.map_values(|s: Symbol| s@) == ts_symbols(lang, filepath@, source@),
{
    let g = grammar(lang);
    let matches = query_captures(&g, query_for(lang), source);
    symbols_from_captures(&matches, filepath, source)
}


// ---------------------------------------------------------------------------
// Parsing a file
// ---------------------------------------------------------------------------

/// Error type for tree-sitter parse operations.
#[non_exhaustive]
pub enum ParseError {
    /// The file extension is not a tree-sitter language.
    UnsupportedExtension {
        /// The file path.
        filepath: String,
    },
    /// tree-sitter failed to set the language grammar.
    LanguageError {
        /// The file path.
        filepath: String,
    },
    /// tree-sitter failed to parse the source.
    ParseFailed {
        /// The file path.
        filepath: String,
    },
    /// tree-sitter query compilation failed.
    QueryError {
        /// The file path.
        filepath: String,
        /// The query error message.
        reason: String,
    },
}

impl ParseError {
    /// The error message.
    pub fn message(&self) -> (r: String)
        ensures
            r@ == match self {
                ParseError::UnsupportedExtension { filepath } => "unsupported tree-sitter extension: "@ + filepath@,
                ParseError::LanguageError { filepath } => "failed to set language for "@ + filepath@,
                ParseError::ParseFailed { filepath } => "tree-sitter parse failed for "@ + filepath@,
                ParseError::QueryError { filepath, reason } => "tree-sitter query error for "@ + filepath@ + ": "@ + reason@,
            },
    {
        match self {
            ParseError::UnsupportedExtension { filepath } => {
                let mut v = to_chars("unsupported tree-sitter extension: ");
                crate::text::append_chars(&mut v, &to_chars(filepath.as_str()));
                from_chars(v.as_slice())
            },
            ParseError::LanguageError { filepath } => {
                let mut v = to_chars("failed to set language for ");
                crate::text::append_chars(&mut v, &to_chars(filepath.as_str()));
                from_chars(v.as_slice())
            },
            ParseError::ParseFailed { filepath } => {
                let mut v = to_chars("tree-sitter parse failed for ");
                crate::text::append_chars(&mut v, &to_chars(filepath.as_str()));
                from_chars(v.as_slice())
            },
            ParseError::QueryError { filepath, reason } => {
                let mut v = to_chars("tree-sitter query error for ");
                crate::text::append_chars(&mut v, &to_chars(filepath.as_str()));
                crate::text::append_chars(&mut v, &to_chars(": "));
                crate::text::append_chars(&mut v, &to_chars(reason.as_str()));
                from_chars(v.as_slice())
            },
        }
    }
}

fn symbols_to_docs(symbols: Vec<Symbol>) -> (r: Vec<IndexDocument>)
    ensures
        doc_views(r@) == symbols@.map_values(|s: Symbol| s@).map_values(|s: SymbolView| IndexDocumentView::Code(s)),
{
    let ghost all = symbols@.map_values(|s: Symbol| s@).map_values(|s: SymbolView| IndexDocumentView::Code(s));
    let mut rest = symbols;
    let mut out: Vec<IndexDocument> = Vec::new();
    let ghost mut k: int = 0;
    while rest.len() > 0
        invariant
            0 <= k <= all.len(),
            rest@.map_values(|s: Symbol| s@).map_values(|s: SymbolView| IndexDocumentView::Code(s)) == all.subrange(k, all.len() as int),
            doc_views(out@) == all.subrange(0, k),
        decreases rest.len(),
    {
        let ghost before = rest@;
        let s = rest.remove(0);
        proof {
            let bv = before.map_values(|s: Symbol| s@).map_values(|s: SymbolView| IndexDocumentView::Code(s));
            assert(bv[0] == IndexDocumentView::Code(s@));
            assert(bv.len() == before.len());
            assert(k < all.len());
            assert(all.subrange(k, all.len() as int)[0] == all[k]);
            assert(rest@.map_values(|s: Symbol| s@).map_values(|s: SymbolView| IndexDocumentView::Code(s)) =~= bv.drop_first());
        }
        let ghost pre = out@;
        out.push(IndexDocument::Code(s));
        assert(doc_views(out@) =~= doc_views(pre).push(IndexDocumentView::Code(s@)));
        proof {
            assert(all.subrange(0, k + 1) =~= all.subrange(0, k).push(all[k]));
            assert(rest@.map_values(|s: Symbol| s@).map_values(|s: SymbolView| IndexDocumentView::Code(s)) =~= all.subrange(k + 1, all.len() as int));
            k = k + 1;
        }
    }
    assert(all.subrange(0, k) =~= all);
    out
}

/// Parse a file with tree-sitter if its extension is supported: its symbols as code documents,
/// or `Unsupported` with the extension.
pub fn parse_file(filepath: &str, source: &str) -> (r: ParseOutcome)
    ensures
        match language_of_ext(last_segment(filepath@)) {
            None => r@ == (crate::parser::OutcomeView::Unsupported {
                filepath: filepath@,
                extension: crate::parser::extension_of(filepath@),
            }),
            Some(lang) => r@ == crate::parser::OutcomeView::Parsed(ts_docs(lang, filepath@, source@)),
        },
{
    let ext = last_segment_exec(filepath);
    match language_for_extension(ext.as_str()) {
        None => ParseOutcome::Unsupported { filepath: crate::text::string_of(filepath), extension: crate::parser::extension_exec(filepath) },
        Some(lang) => {
            let symbols = extract_symbols(source, filepath, lang);
            ParseOutcome::Parsed(symbols_to_docs(symbols))
        },
    }
}

/// Parse a file, returning only the documents (`None` for an unsupported extension).
pub fn parse_file_lenient(filepath: &str, source: &str) -> (r: Option<Vec<IndexDocument>>)
    ensures
        match language_of_ext(last_segment(filepath@)) {
            None => r is None,
            Some(lang) => r matches Some(docs) && doc_views(docs@) == ts_docs(lang, filepath@, source@),
        },
{
    let ext = last_segment_exec(filepath);
    match language_for_extension(ext.as_str()) {
        None => None,
        Some(lang) => {
            let symbols = extract_symbols(source, filepath, lang);
            Some(symbols_to_docs(symbols))
        },
    }
}

} // verus!
