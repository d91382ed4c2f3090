//! Investigation surfaces: the repo overview built from a persisted corpus.
//!
//! Scores are kept in tenths (a card with score 3.5 holds 35), so that ranking is exact.
use vstd::prelude::*;
use crate::types::{
    CommentFlag, ExportKind, IndexDocument, IndexDocumentView, Publicness, Reexport, ReexportView,
    Symbol, SymbolKind, SymbolView, opt_view, doc_views, take_chars,
};
use crate::text::{
    ascii_lower, ascii_lower_exec, contains_sub, contains_exec, from_chars, replace_char,
    replace_char_exec, starts_with, starts_with_exec, to_chars, views, chars_eq, string_of,
    append_chars, str_eq,
};
use crate::index::ident_tokens;
use crate::tokenizer::tokenize_identifier;
use crate::rank::{Ranked, RankKey, ranked_sort, card_views, sort_ranked, is_ranked, lemma_ranked_sort_ranked};

verus! {

broadcast use vstd::seq::group_seq_axioms;

// ---------------------------------------------------------------------------
// Corpus and module-resolution configuration
// ---------------------------------------------------------------------------

/// A persisted corpus used by investigation surfaces such as `overview`.
pub struct InvestigationCorpus {
    /// Rich parser output retained for non-search investigation features.
    pub documents: Vec<IndexDocument>,
    /// Module-resolution hints used for re-export resolution.
    pub module_resolution: ModuleResolutionConfig,
}

/// Module-resolution hints used when resolving re-export source specifiers.
pub struct ModuleResolutionConfig {
    /// Optional TypeScript baseUrl resolved to a repo-relative directory.
    pub tsconfig_base_url: Option<String>,
    /// Optional TypeScript path alias rules resolved to repo-relative targets.
    pub tsconfig_paths: Vec<PathAliasRule>,
    /// Nested or scoped config overrides ordered independently from the root config.
    pub scoped_configs: Vec<ScopedModuleResolution>,
}

/// A single TypeScript path alias rule from `compilerOptions.paths`.
pub struct PathAliasRule {
    /// Alias pattern, such as `@/*` or `@lib`.
    pub pattern: String,
    /// Repo-relative target patterns, such as `src/*`.
    pub targets: Vec<String>,
}

/// A module-resolution config scoped to a repo-relative directory.
pub struct ScopedModuleResolution {
    /// Repo-relative directory to which this config applies.
    pub scope_dir: String,
    /// Optional baseUrl for this scoped config.
    pub tsconfig_base_url: Option<String>,
    /// Optional path alias rules for this scoped config.
    pub tsconfig_paths: Vec<PathAliasRule>,
}

/// The content of a path alias rule.
pub struct AliasView {
    pub pattern: Seq<char>,
    pub targets: Seq<Seq<char>>,
}

impl View for PathAliasRule {
    type V = AliasView;

    open spec fn view(&self) -> AliasView {
        AliasView { pattern: self.pattern@, targets: views(self.targets@) }
    }
}

/// The content of a scoped module-resolution config.
pub struct ScopedView {
    pub scope_dir: Seq<char>,
    pub base_url: Option<Seq<char>>,
    pub paths: Seq<AliasView>,
}

impl View for ScopedModuleResolution {
    type V = ScopedView;

    open spec fn view(&self) -> ScopedView {
        ScopedView {
            scope_dir: self.scope_dir@,
            base_url: opt_view(self.tsconfig_base_url),
            paths: card_views(self.tsconfig_paths@),
        }
    }
}

/// The content of a module-resolution config.
pub struct ResolutionView {
    pub base_url: Option<Seq<char>>,
    pub paths: Seq<AliasView>,
    pub scoped: Seq<ScopedView>,
}

impl View for ModuleResolutionConfig {
    type V = ResolutionView;

    open spec fn view(&self) -> ResolutionView {
        ResolutionView {
            base_url: opt_view(self.tsconfig_base_url),
            paths: card_views(self.tsconfig_paths@),
            scoped: card_views(self.scoped_configs@),
        }
    }
}

impl Default for ModuleResolutionConfig {
    fn default() -> (r: Self)
        ensures
            r@.base_url is None,
            r@.paths.len() == 0,
            r@.scoped.len() == 0,
    {
        ModuleResolutionConfig { tsconfig_base_url: None, tsconfig_paths: Vec::new(), scoped_configs: Vec::new() }
    }
}

impl InvestigationCorpus {
    /// Build a persisted investigation corpus from parser documents.
    pub fn new(documents: Vec<IndexDocument>) -> (r: Self)
        ensures
            r.documents@ == documents@,
            r.module_resolution@.base_url is None,
            r.module_resolution@.paths.len() == 0,
            r.module_resolution@.scoped.len() == 0,
    {
        InvestigationCorpus { documents, module_resolution: ModuleResolutionConfig::default() }
    }

    /// Build a persisted investigation corpus with module-resolution hints.
    pub fn with_module_resolution(
        documents: Vec<IndexDocument>,
        module_resolution: ModuleResolutionConfig,
    ) -> (r: Self)
        ensures
            r.documents@ == documents@,
            r.module_resolution == module_resolution,
    {
        InvestigationCorpus { documents, module_resolution }
    }
}

// ---------------------------------------------------------------------------
// Overview payload
// ---------------------------------------------------------------------------

/// Repo-level overview response for public-surface-first investigation.
pub struct InvestigationOverview {
    /// Top-level repo and coverage metadata.
    pub meta: OverviewMeta,
    /// Public API entrypoint cards.
    pub public_apis: Vec<PublicApiCard>,
    /// Public type entrypoint cards.
    pub public_types: Vec<PublicTypeCard>,
    /// Tests linked to the surfaced public APIs.
    pub public_api_tests: Vec<TestCard>,
    /// Next-step navigation hints.
    pub entry_hints: Vec<HintCard>,
}

/// High-level metadata about an overview payload.
pub struct OverviewMeta {
    /// Repo spec or repo label rendered with the overview.
    pub repo: String,
    /// Coverage and confidence notes.
    pub coverage: CoverageSummary,
    /// Whether the result was truncated by a render budget.
    pub truncated: bool,
}

/// Summary of metadata coverage for an overview response.
pub struct CoverageSummary {
    /// Coverage of publicness detection.
    pub publicness: CoverageStatus,
    /// Coverage of comment normalization.
    pub comment_normalization: CoverageStatus,
    /// Coverage of test linkage.
    pub test_linkage: CoverageStatus,
    /// Human-readable notes describing partial coverage or truncation.
    pub notes: Vec<String>,
}

/// Coverage state for a metadata dimension.
#[derive(Debug, Clone, Copy, PartialEq, Eq, Hash, Structural)]
pub enum CoverageStatus {
    /// Coverage is complete for the relevant surfaced items.
    Complete,
    /// Coverage exists but is partial.
    Partial,
    /// Coverage is unsupported or unavailable.
    Unsupported,
}

/// Overview card representing a surfaced public API.
pub struct PublicApiCard {
    /// Stable symbol reference for follow-up inspection.
    pub symbol_ref: String,
    /// Repo-relative path of the source symbol.
    pub filepath: String,
    /// Compact signature preview.
    pub signature: String,
    /// Optional one-line comment summary.
    pub comment_summary: Option<String>,
    /// Important flags derived from the comment.
    pub flags: Vec<CommentFlag>,
    /// Publicness classification for the symbol.
    pub publicness: Publicness,
    /// Top linked tests for this API.
    pub tests: Vec<TestLink>,
    /// Deterministic ranking score, in tenths.
    pub score: u32,
}

/// Overview card representing a surfaced public type.
pub struct PublicTypeCard {
    /// Stable symbol reference for follow-up inspection.
    pub symbol_ref: String,
    /// Repo-relative path of the source symbol.
    pub filepath: String,
    /// The kind of surfaced type.
    pub kind: SymbolKind,
    /// Compact signature preview.
    pub signature: String,
    /// Optional one-line comment summary.
    pub comment_summary: Option<String>,
    /// Important flags derived from the comment.
    pub flags: Vec<CommentFlag>,
    /// Publicness classification for the symbol.
    pub publicness: Publicness,
    /// Deterministic ranking score, in tenths.
    pub score: u32,
}

/// Overview card representing a linked test entrypoint.
pub struct TestCard {
    /// Stable test reference.
    pub test_ref: String,
    /// Repo-relative path of the test.
    pub filepath: String,
    /// Human-readable test display name.
    pub display_name: String,
    /// Linked public symbols for this test.
    pub linked_symbols: Vec<String>,
    /// Evidence explaining why this test was linked.
    pub reasons: Vec<TestLinkReason>,
    /// Deterministic ranking score, in tenths.
    pub score: u32,
}

/// Test linkage metadata attached to a public API card.
pub struct TestLink {
    /// Stable test reference.
    pub test_ref: String,
    /// Repo-relative path of the test.
    pub filepath: String,
    /// Human-readable test display name.
    pub display_name: String,
    /// Evidence explaining why this test was linked.
    pub reasons: Vec<TestLinkReason>,
    /// Deterministic linkage score, in tenths.
    pub score: u32,
}

/// Explainable reasons for test linkage.
#[derive(Debug, Clone, Copy, PartialEq, Eq, Hash, Structural)]
pub enum TestLinkReason {
    /// The test path includes symbol-name tokens.
    TestPathMatch,
    /// The extracted test name includes symbol-name tokens.
    TestNameMatch,
    /// The test file stem matches the target file stem.
    FileStemMatch,
    /// The test path sits near the target source path.
    DirectoryProximity,
}

/// Navigation hint for follow-up investigation actions.
pub struct HintCard {
    /// The structured action this hint represents.
    pub action: HintAction,
    /// The target argument or symbol reference for the action.
    pub target: String,
    /// Short human-readable label.
    pub label: String,
    /// Explanation for why the hint was surfaced.
    pub reason: String,
}

/// Structured follow-up actions for overview hints.
#[derive(Debug, Clone, Copy, PartialEq, Eq, Hash, Structural)]
pub enum HintAction {
    /// Follow the symbol through a future inspect surface.
    InspectSymbol,
    /// Run a targeted search query.
    SearchQuery,
    /// Read a specific file path directly.
    ReadPath,
}

/// Render budget for the overview surface.
#[derive(Debug, Clone, Copy, PartialEq, Eq, Structural)]
pub struct OverviewBudget {
    /// Maximum number of surfaced public APIs.
    pub max_apis: usize,
    /// Maximum number of surfaced public types.
    pub max_types: usize,
    /// Maximum number of surfaced linked tests.
    pub max_tests: usize,
    /// Maximum number of surfaced hints.
    pub max_hints: usize,
    /// Maximum characters retained from comment previews.
    pub max_comment_chars: usize,
    /// Maximum total rendered characters for the overview.
    pub max_total_chars: usize,
}

impl Default for OverviewBudget {
    fn default() -> (r: Self)
        ensures
            r == (OverviewBudget {
                max_apis: 6,
                max_types: 6,
                max_tests: 6,
                max_hints: 4,
                max_comment_chars: 140,
                max_total_chars: 6000,
            }),
    {
        OverviewBudget {
            max_apis: 6,
            max_types: 6,
            max_tests: 6,
            max_hints: 4,
            max_comment_chars: 140,
            max_total_chars: 6000,
        }
    }
}

// ---------------------------------------------------------------------------
// Card views
// ---------------------------------------------------------------------------

/// The content of a test link.
pub struct TestLinkView {
    pub test_ref: Seq<char>,
    pub filepath: Seq<char>,
    pub display_name: Seq<char>,
    pub reasons: Seq<TestLinkReason>,
    pub score: u32,
}

impl View for TestLink {
    type V = TestLinkView;

    open spec fn view(&self) -> TestLinkView {
        TestLinkView {
            test_ref: self.test_ref@,
            filepath: self.filepath@,
            display_name: self.display_name@,
            reasons: self.reasons@,
            score: self.score,
        }
    }
}

/// The content of a public API card.
pub struct ApiCardView {
    pub symbol_ref: Seq<char>,
    pub filepath: Seq<char>,
    pub signature: Seq<char>,
    pub comment_summary: Option<Seq<char>>,
    pub flags: Seq<CommentFlag>,
    pub publicness: Publicness,
    pub tests: Seq<TestLinkView>,
    pub score: u32,
}

impl View for PublicApiCard {
    type V = ApiCardView;

    open spec fn view(&self) -> ApiCardView {
        ApiCardView {
            symbol_ref: self.symbol_ref@,
            filepath: self.filepath@,
            signature: self.signature@,
            comment_summary: opt_view(self.comment_summary),
            flags: self.flags@,
            publicness: self.publicness,
            tests: card_views(self.tests@),
            score: self.score,
        }
    }
}

/// The content of a public type card.
pub struct TypeCardView {
    pub symbol_ref: Seq<char>,
    pub filepath: Seq<char>,
    pub kind: SymbolKind,
    pub signature: Seq<char>,
    pub comment_summary: Option<Seq<char>>,
    pub flags: Seq<CommentFlag>,
    pub publicness: Publicness,
    pub score: u32,
}

impl View for PublicTypeCard {
    type V = TypeCardView;

    open spec fn view(&self) -> TypeCardView {
        TypeCardView {
            symbol_ref: self.symbol_ref@,
            filepath: self.filepath@,
            kind: self.kind,
            signature: self.signature@,
            comment_summary: opt_view(self.comment_summary),
            flags: self.flags@,
            publicness: self.publicness,
            score: self.score,
        }
    }
}

/// The content of a test card.
pub struct TestCardView {
    pub test_ref: Seq<char>,
    pub filepath: Seq<char>,
    pub display_name: Seq<char>,
    pub linked_symbols: Seq<Seq<char>>,
    pub reasons: Seq<TestLinkReason>,
    pub score: u32,
}

impl View for TestCard {
    type V = TestCardView;

    open spec fn view(&self) -> TestCardView {
        TestCardView {
            test_ref: self.test_ref@,
            filepath: self.filepath@,
            display_name: self.display_name@,
            linked_symbols: views(self.linked_symbols@),
            reasons: self.reasons@,
            score: self.score,
        }
    }
}

/// The content of a hint card.
pub struct HintView {
    pub action: HintAction,
    pub target: Seq<char>,
    pub label: Seq<char>,
    pub reason: Seq<char>,
}

impl View for HintCard {
    type V = HintView;

    open spec fn view(&self) -> HintView {
        HintView { action: self.action, target: self.target@, label: self.label@, reason: self.reason@ }
    }
}

impl Ranked for TestLink {
    open spec fn key_of(v: TestLinkView) -> RankKey {
        (v.score as int, v.filepath, v.test_ref)
    }

    fn rank_score(&self) -> (r: i128) {
        self.score as i128
    }

    fn rank_path(&self) -> (r: &String) {
        &self.filepath
    }

    fn rank_ref(&self) -> (r: &String) {
        &self.test_ref
    }
}

impl Ranked for PublicApiCard {
    open spec fn key_of(v: ApiCardView) -> RankKey {
        (v.score as int, v.filepath, v.symbol_ref)
    }

    fn rank_score(&self) -> (r: i128) {
        self.score as i128
    }

    fn rank_path(&self) -> (r: &String) {
        &self.filepath
    }

    fn rank_ref(&self) -> (r: &String) {
        &self.symbol_ref
    }
}

impl Ranked for PublicTypeCard {
    open spec fn key_of(v: TypeCardView) -> RankKey {
        (v.score as int, v.filepath, v.symbol_ref)
    }

    fn rank_score(&self) -> (r: i128) {
        self.score as i128
    }

    fn rank_path(&self) -> (r: &String) {
        &self.filepath
    }

    fn rank_ref(&self) -> (r: &String) {
        &self.symbol_ref
    }
}

impl Ranked for TestCard {
    open spec fn key_of(v: TestCardView) -> RankKey {
        (v.score as int, v.filepath, v.test_ref)
    }

    fn rank_score(&self) -> (r: i128) {
        self.score as i128
    }

    fn rank_path(&self) -> (r: &String) {
        &self.filepath
    }

    fn rank_ref(&self) -> (r: &String) {
        &self.test_ref
    }
}

// ---------------------------------------------------------------------------
// Surface references
// ---------------------------------------------------------------------------

/// Stable surface kind used in investigation references.
#[derive(Debug, Clone, Copy, PartialEq, Eq, Hash, Structural)]
pub enum SurfaceKind {
    /// A public API card.
    Api,
    /// A public type card.
    Type,
    /// A test card.
    Test,
    /// A generic symbol reference.
    Symbol,
}

/// The stable string prefix of a surface kind.
pub open spec fn surface_kind_str(k: SurfaceKind) -> Seq<char> {
    match k {
        SurfaceKind::Api => seq!['a', 'p', 'i'],
        SurfaceKind::Type => seq!['t', 'y', 'p', 'e'],
        SurfaceKind::Test => seq!['t', 'e', 's', 't'],
        SurfaceKind::Symbol => seq!['s', 'y', 'm', 'b', 'o', 'l'],
    }
}

impl SurfaceKind {
    /// Return the stable string prefix for this surface kind.
    pub fn as_str(self) -> (r: &'static str)
        ensures
            r@ == surface_kind_str(self),
    {
        match self {
            SurfaceKind::Api => {
                proof {
                    reveal_strlit("api");
                }
                "api"
            },
            SurfaceKind::Type => {
                proof {
                    reveal_strlit("type");
                }
                "type"
            },
            SurfaceKind::Test => {
                proof {
                    reveal_strlit("test");
                }
                "test"
            },
            SurfaceKind::Symbol => {
                proof {
                    reveal_strlit("symbol");
                }
                "symbol"
            },
        }
    }
}

/// The decimal digit `d` (for `d < 10`).
pub open spec fn digit_char(d: nat) -> char {
    if d == 0 { '0' } else if d == 1 { '1' } else if d == 2 { '2' } else if d == 3 { '3' }
    else if d == 4 { '4' } else if d == 5 { '5' } else if d == 6 { '6' } else if d == 7 { '7' }
    else if d == 8 { '8' } else { '9' }
}

/// The decimal representation of `n`, as `Display` writes it.
pub open spec fn decimal(n: nat) -> Seq<char>
    decreases n,
{
    if n < 10 {
        seq![digit_char(n)]
    } else {
        decimal(n / 10).push(digit_char(n % 10))
    }
}

fn digit_exec(d: u32) -> (r: char)
    requires
        d < 10,
    ensures
        r == digit_char(d as nat),
{
    if d == 0 { '0' } else if d == 1 { '1' } else if d == 2 { '2' } else if d == 3 { '3' }
    else if d == 4 { '4' } else if d == 5 { '5' } else if d == 6 { '6' } else if d == 7 { '7' }
    else if d == 8 { '8' } else { '9' }
}

/// Exec: the decimal representation of `n`.
pub fn decimal_exec(n: u32) -> (r: Vec<char>)
    ensures
        r@ == decimal(n as nat),
    decreases n,
{
    if n < 10 {
        let mut r = Vec::new();
        r.push(digit_exec(n));
        assert(r@ =~= seq![digit_char(n as nat)]);
        r
    } else {
        let mut r = decimal_exec(n / 10);
        r.push(digit_exec(n % 10));
        r
    }
}

/// Exec: the decimal representation of a `usize`.
pub fn decimal_usize(n: usize) -> (r: Vec<char>)
    ensures
        r@ == decimal(n as nat),
    decreases n,
{
    if n < 10 {
        let mut r = Vec::new();
        r.push(digit_exec(n as u32));
        assert(r@ =~= seq![digit_char(n as nat)]);
        r
    } else {
        let mut r = decimal_usize(n / 10);
        r.push(digit_exec((n % 10) as u32));
        r
    }
}

/// A path with `\` written as `/`.
pub open spec fn surface_path(p: Seq<char>) -> Seq<char> {
    replace_char(p, '\\', '/')
}

/// `{kind}:{path}#{name}@L{line}`, with the path's `\` written as `/`.
pub open spec fn surface_ref(kind: SurfaceKind, filepath: Seq<char>, name: Seq<char>, line: u32) -> Seq<char> {
    surface_kind_str(kind) + seq![':'] + surface_path(filepath) + seq!['#'] + name + seq!['@', 'L']
        + decimal(line as nat)
}

fn surface_path_exec(p: &str) -> (r: Vec<char>)
    ensures
        r@ == surface_path(p@),
{
    let v = to_chars(p);
    replace_char_exec(&v, '\\', '/')
}

fn surface_ref_chars(kind: SurfaceKind, filepath: &str, name: &str, start_line: u32) -> (r: Vec<char>)
    ensures
        r@ == surface_ref(kind, filepath@, name@, start_line),
{
    let mut out = to_chars(kind.as_str());
    out.push(':');
    let p = surface_path_exec(filepath);
    append_chars(&mut out, &p);
    out.push('#');
    let n = to_chars(name);
    append_chars(&mut out, &n);
    out.push('@');
    out.push('L');
    let d = decimal_exec(start_line);
    append_chars(&mut out, &d);
    assert(out@ =~= surface_ref(kind, filepath@, name@, start_line));
    out
}

/// Build a stable repo-snapshot reference for an investigation surface.
pub fn build_surface_ref(kind: SurfaceKind, filepath: &str, name: &str, start_line: u32) -> (r: String)
    ensures
        r@ == surface_ref(kind, filepath@, name@, start_line),
{
    let v = surface_ref_chars(kind, filepath, name, start_line);
    from_chars(v.as_slice())
}


// ---------------------------------------------------------------------------
// Symbols and re-exports of a corpus
// ---------------------------------------------------------------------------

/// The code symbols of a corpus, in order.
pub open spec fn syms_of(ds: Seq<IndexDocumentView>) -> Seq<SymbolView>
    decreases ds.len(),
{
    if ds.len() == 0 {
        Seq::empty()
    } else {
        match ds.last() {
            IndexDocumentView::Code(s) => syms_of(ds.drop_last()).push(s),
            _ => syms_of(ds.drop_last()),
        }
    }
}

/// The re-exports of a corpus, in order.
pub open spec fn rexs_of(ds: Seq<IndexDocumentView>) -> Seq<ReexportView>
    decreases ds.len(),
{
    if ds.len() == 0 {
        Seq::empty()
    } else {
        match ds.last() {
            IndexDocumentView::Reexport(r) => rexs_of(ds.drop_last()).push(r),
            _ => rexs_of(ds.drop_last()),
        }
    }
}

/// Views of borrowed symbols.
pub open spec fn sym_views(v: Seq<&Symbol>) -> Seq<SymbolView> {
    v.map_values(|s: &Symbol| s@)
}

/// Views of borrowed re-exports.
pub open spec fn rex_views(v: Seq<&Reexport>) -> Seq<ReexportView> {
    v.map_values(|s: &Reexport| s@)
}

fn collect_symbols(docs: &Vec<IndexDocument>) -> (r: (Vec<&Symbol>, Vec<&Reexport>))
    ensures
        sym_views(r.0@) == syms_of(doc_views(docs@)),
        rex_views(r.1@) == rexs_of(doc_views(docs@)),
{
    let ghost dv = doc_views(docs@);
    let mut syms: Vec<&Symbol> = Vec::new();
    let mut rexs: Vec<&Reexport> = Vec::new();
    let mut i: usize = 0;
    while i < docs.len()
        invariant
            0 <= i <= docs.len(),
            dv == doc_views(docs@),
            sym_views(syms@) == syms_of(dv.subrange(0, i as int)),
            rex_views(rexs@) == rexs_of(dv.subrange(0, i as int)),
        decreases docs.len() - i,
    {
        proof {
            assert(dv.subrange(0, i + 1).drop_last() =~= dv.subrange(0, i as int));
            assert(dv.subrange(0, i + 1).last() == docs@[i as int]@);
        }
        match &docs[i] {
            IndexDocument::Code(s) => {
                syms.push(s);
                assert(sym_views(syms@) =~= syms_of(dv.subrange(0, i + 1)));
                assert(rex_views(rexs@) =~= rexs_of(dv.subrange(0, i + 1)));
            },
            IndexDocument::Reexport(r) => {
                rexs.push(r);
                assert(sym_views(syms@) =~= syms_of(dv.subrange(0, i + 1)));
                assert(rex_views(rexs@) =~= rexs_of(dv.subrange(0, i + 1)));
            },
            IndexDocument::Doc(_) => {
                assert(sym_views(syms@) =~= syms_of(dv.subrange(0, i + 1)));
                assert(rex_views(rexs@) =~= rexs_of(dv.subrange(0, i + 1)));
            },
        }
        i = i + 1;
    }
    assert(dv.subrange(0, i as int) =~= dv);
    (syms, rexs)
}


// ---------------------------------------------------------------------------
// Path helpers
// ---------------------------------------------------------------------------

/// Index of the last `c` in `s`.
pub open spec fn last_index(s: Seq<char>, c: char) -> Option<int>
    decreases s.len(),
{
    if s.len() == 0 {
        None
    } else if s.last() == c {
        Some(s.len() - 1)
    } else {
        last_index(s.drop_last(), c)
    }
}

/// Index of the first `c` in `s`.
pub open spec fn first_index(s: Seq<char>, c: char) -> Option<int>
    decreases s.len(),
{
    if s.len() == 0 {
        None
    } else if s[0] == c {
        Some(0)
    } else {
        match first_index(s.drop_first(), c) {
            Some(i) => Some(i + 1),
            None => None,
        }
    }
}

pub proof fn lemma_last_index(s: Seq<char>, c: char)
    ensures
        match last_index(s, c) {
            Some(i) => 0 <= i < s.len() && s[i] == c && forall|j: int| i < j < s.len() ==> s[j] != c,
            None => forall|j: int| 0 <= j < s.len() ==> s[j] != c,
        },
    decreases s.len(),
{
    if s.len() > 0 && s.last() != c {
        lemma_last_index(s.drop_last(), c);
        assert forall|j: int| 0 <= j < s.len() - 1 implies s[j] == s.drop_last()[j] by {}
    }
}

pub proof fn lemma_first_index(s: Seq<char>, c: char)
    ensures
        match first_index(s, c) {
            Some(i) => 0 <= i < s.len() && s[i] == c && forall|j: int| 0 <= j < i ==> s[j] != c,
            None => forall|j: int| 0 <= j < s.len() ==> s[j] != c,
        },
    decreases s.len(),
{
    if s.len() > 0 && s[0] != c {
        lemma_first_index(s.drop_first(), c);
        match first_index(s.drop_first(), c) {
            Some(i) => {
                assert forall|j: int| 0 <= j < i + 1 implies s[j] != c by {
                    if j > 0 {
                        assert(s[j] == s.drop_first()[j - 1]);
                    }
                }
            },
            None => {
                assert forall|j: int| 0 <= j < s.len() implies s[j] != c by {
                    if j > 0 {
                        assert(s[j] == s.drop_first()[j - 1]);
                    }
                }
            },
        }
    }
}

fn last_index_exec(s: &Vec<char>, c: char) -> (r: Option<usize>)
    ensures
        match r {
            Some(i) => last_index(s@, c) == Some(i as int),
            None => last_index(s@, c) is None,
        },
{
    let mut i: usize = s.len();
    assert(s@.subrange(0, i as int) =~= s@);
    while i > 0
        invariant
            0 <= i <= s.len(),
            last_index(s@, c) == last_index(s@.subrange(0, i as int), c),
        decreases i,
    {
        if s[i - 1] == c {
            return Some(i - 1);
        }
        assert(s@.subrange(0, i as int).drop_last() =~= s@.subrange(0, i - 1));
        i = i - 1;
    }
    None
}

fn first_index_exec(s: &Vec<char>, c: char) -> (r: Option<usize>)
    ensures
        match r {
            Some(i) => first_index(s@, c) == Some(i as int),
            None => first_index(s@, c) is None,
        },
{
    let mut i: usize = 0;
    assert(s@.skip(0) =~= s@);
    while i < s.len()
        invariant
            0 <= i <= s.len(),
            first_index(s@, c) == match first_index(s@.skip(i as int), c) {
                Some(j) => Some(j + i),
                None => None,
            },
        decreases s.len() - i,
    {
        if s[i] == c {
            return Some(i);
        }
        assert(s@.skip(i as int).drop_first() =~= s@.skip(i + 1));
        i = i + 1;
    }
    None
}

/// The directory part of a normalized path (empty when it has none).
pub open spec fn parent_dir(p: Seq<char>) -> Seq<char> {
    let n = surface_path(p);
    match last_index(n, '/') {
        Some(i) => n.subrange(0, i),
        None => Seq::empty(),
    }
}

fn parent_dir_exec(p: &str) -> (r: Vec<char>)
    ensures
        r@ == parent_dir(p@),
{
    let n = surface_path_exec(p);
    match last_index_exec(&n, '/') {
        Some(i) => {
            proof {
                lemma_last_index(n@, '/');
            }
            crate::text::sub_chars(&n, 0, i)
        },
        None => Vec::new(),
    }
}

/// `str::replace(p, "")`: every non-overlapping occurrence of `p`, from the left, removed.
pub open spec fn remove_all(s: Seq<char>, p: Seq<char>) -> Seq<char>
    decreases s.len(),
{
    if s.len() == 0 {
        s
    } else if p.len() > 0 && starts_with(s, p) {
        remove_all(s.skip(p.len() as int), p)
    } else {
        seq![s[0]] + remove_all(s.drop_first(), p)
    }
}

fn remove_all_exec(s: &Vec<char>, p: &Vec<char>) -> (r: Vec<char>)
    ensures
        r@ == remove_all(s@, p@),
{
    let mut out: Vec<char> = Vec::new();
    let mut i: usize = 0;
    assert(s@.skip(0) =~= s@);
    while i < s.len()
        invariant
            0 <= i <= s.len(),
            out@ + remove_all(s@.skip(i as int), p@) == remove_all(s@, p@),
        decreases s.len() - i,
    {
        let ghost rest = s@.skip(i as int);
        if p.len() > 0 && crate::text::occurs_at_exec(s, p, i) {
            assert(rest.subrange(0, p@.len() as int) =~= s@.subrange(i as int, i + p@.len()));
            assert(rest.skip(p@.len() as int) =~= s@.skip(i + p@.len()));
            i = i + p.len();
        } else {
            proof {
                if p@.len() > 0 && starts_with(rest, p@) {
                    assert(rest.subrange(0, p@.len() as int) =~= s@.subrange(i as int, i + p@.len()));
                }
                assert(rest.drop_first() =~= s@.skip(i + 1));
                assert(out@.push(s@[i as int]) + remove_all(s@.skip(i + 1), p@) =~= out@ + (seq![rest[0]] + remove_all(rest.drop_first(), p@)));
            }
            out.push(s[i]);
            i = i + 1;
        }
    }
    assert(out@ + remove_all(s@.skip(i as int), p@) =~= out@);
    out
}

/// The file stem used for test linkage: the file name up to its first `.`, with the test
/// markers `_test`, `_spec`, `.test` and `.spec` removed.
pub open spec fn file_stem(p: Seq<char>) -> Seq<char> {
    let n = surface_path(p);
    let name = match last_index(n, '/') {
        Some(i) => n.subrange(i + 1, n.len() as int),
        None => n,
    };
    let stem = match first_index(name, '.') {
        Some(i) => name.subrange(0, i),
        None => name,
    };
    remove_all(remove_all(remove_all(remove_all(stem, "_test"@), "_spec"@), ".test"@), ".spec"@)
}

fn file_stem_exec(p: &str) -> (r: Vec<char>)
    ensures
        r@ == file_stem(p@),
{
    let n = surface_path_exec(p);
    let name = match last_index_exec(&n, '/') {
        Some(i) => {
            proof {
                lemma_last_index(n@, '/');
            }
            crate::text::sub_chars(&n, i + 1, n.len())
        },
        None => n,
    };
    let stem = match first_index_exec(&name, '.') {
        Some(i) => {
            proof {
                lemma_first_index(name@, '.');
            }
            crate::text::sub_chars(&name, 0, i)
        },
        None => name,
    };
    let a = remove_all_exec(&stem, &to_chars("_test"));
    let b = remove_all_exec(&a, &to_chars("_spec"));
    let c = remove_all_exec(&b, &to_chars(".test"));
    remove_all_exec(&c, &to_chars(".spec"))
}

/// Whether a symbol looks like a test: by its normalized, lowercased path, or by a name that
/// starts with `test`.
pub open spec fn is_test_candidate(filepath: Seq<char>, name: Seq<char>) -> bool {
    let n = ascii_lower(surface_path(filepath));
    ||| contains_sub(n, "/tests/"@)
    ||| contains_sub(n, "/test/"@)
    ||| contains_sub(n, "/__tests__/"@)
    ||| contains_sub(n, "/spec/"@)
    ||| contains_sub(n, ".test."@)
    ||| contains_sub(n, "_test."@)
    ||| contains_sub(n, ".spec."@)
    ||| contains_sub(n, "_spec."@)
    ||| starts_with(name, "test"@)
}

fn is_test_candidate_exec(filepath: &str, name: &str) -> (r: bool)
    ensures
        r == is_test_candidate(filepath@, name@),
{
    let p = surface_path_exec(filepath);
    let n = ascii_lower_exec(&p);
    contains_exec(&n, &to_chars("/tests/")) || contains_exec(&n, &to_chars("/test/"))
        || contains_exec(&n, &to_chars("/__tests__/")) || contains_exec(&n, &to_chars("/spec/"))
        || contains_exec(&n, &to_chars(".test.")) || contains_exec(&n, &to_chars("_test."))
        || contains_exec(&n, &to_chars(".spec.")) || contains_exec(&n, &to_chars("_spec."))
        || starts_with_exec(&to_chars(name), &to_chars("test"))
}


// ---------------------------------------------------------------------------
// Test linkage
// ---------------------------------------------------------------------------

/// Every token occurs in `path`.
pub open spec fn all_in_path(toks: Seq<Seq<char>>, path: Seq<char>) -> bool {
    forall|i: int| 0 <= i < toks.len() ==> contains_sub(path, #[trigger] toks[i])
}

/// Every token is one of `names`.
pub open spec fn all_in_names(toks: Seq<Seq<char>>, names: Seq<Seq<char>>) -> bool {
    forall|i: int| 0 <= i < toks.len() ==> names.contains(#[trigger] toks[i])
}

/// Why test candidate `cand` is linked to `sym`, in a fixed order (empty: not linked).
pub open spec fn link_reasons(sym: SymbolView, cand: SymbolView) -> Seq<TestLinkReason> {
    let toks = ident_tokens(sym.name);
    let a = if all_in_path(toks, ascii_lower(surface_path(cand.filepath))) {
        seq![TestLinkReason::TestPathMatch]
    } else {
        Seq::empty()
    };
    let b = if all_in_names(toks, ident_tokens(cand.name)) {
        a.push(TestLinkReason::TestNameMatch)
    } else {
        a
    };
    let c = if file_stem(sym.filepath) == file_stem(cand.filepath) {
        b.push(TestLinkReason::FileStemMatch)
    } else {
        b
    };
    let tp = parent_dir(sym.filepath);
    if tp.len() > 0 && tp == parent_dir(cand.filepath) {
        c.push(TestLinkReason::DirectoryProximity)
    } else {
        c
    }
}

/// The link to test candidate `cand`: one point per reason plus a half, in tenths.
pub open spec fn test_link_of(cand: SymbolView, reasons: Seq<TestLinkReason>) -> TestLinkView {
    TestLinkView {
        test_ref: surface_ref(SurfaceKind::Test, cand.filepath, cand.name, cand.start_line),
        filepath: surface_path(cand.filepath),
        display_name: cand.name,
        reasons,
        score: (10 * reasons.len() + 5) as u32,
    }
}

/// The links from `sym` to each candidate with at least one reason, in candidate order.
pub open spec fn raw_links(sym: SymbolView, cands: Seq<SymbolView>) -> Seq<TestLinkView>
    decreases cands.len(),
{
    if cands.len() == 0 {
        Seq::empty()
    } else {
        let prev = raw_links(sym, cands.drop_last());
        let rs = link_reasons(sym, cands.last());
        if rs.len() == 0 {
            prev
        } else {
            prev.push(test_link_of(cands.last(), rs))
        }
    }
}

/// The first `n` elements of `s` (all of them when it is shorter).
pub open spec fn truncate<V>(s: Seq<V>, n: int) -> Seq<V> {
    if s.len() > n {
        s.subrange(0, n)
    } else {
        s
    }
}

/// The top three ranked test links of `sym`.
pub open spec fn linked_tests(sym: SymbolView, cands: Seq<SymbolView>) -> Seq<TestLinkView> {
    truncate(ranked_sort::<TestLink>(raw_links(sym, cands)), 3)
}

fn all_in_path_exec(toks: &Vec<String>, path: &Vec<char>) -> (r: bool)
    ensures
        r == all_in_path(views(toks@), path@),
{
    let mut i: usize = 0;
    while i < toks.len()
        invariant
            0 <= i <= toks.len(),
            forall|j: int| 0 <= j < i ==> contains_sub(path@, #[trigger] views(toks@)[j]),
        decreases toks.len() - i,
    {
        let t = to_chars(toks[i].as_str());
        if !contains_exec(path, &t) {
            assert(views(toks@)[i as int] == t@);
            return false;
        }
        i = i + 1;
    }
    true
}

fn all_in_names_exec(toks: &Vec<String>, names: &Vec<String>) -> (r: bool)
    ensures
        r == all_in_names(views(toks@), views(names@)),
{
    let mut i: usize = 0;
    while i < toks.len()
        invariant
            0 <= i <= toks.len(),
            forall|j: int| 0 <= j < i ==> views(names@).contains(#[trigger] views(toks@)[j]),
        decreases toks.len() - i,
    {
        let mut found = false;
        let mut k: usize = 0;
        while k < names.len()
            invariant
                0 <= k <= names.len(),
                i < toks.len(),
                !found ==> forall|m: int| 0 <= m < k ==> views(names@)[m] != views(toks@)[i as int],
                found ==> views(names@).contains(views(toks@)[i as int]),
            decreases names.len() - k,
        {
            if str_eq(names[k].as_str(), toks[i].as_str()) {
                assert(views(names@)[k as int] == views(toks@)[i as int]);
                found = true;
            }
            k = k + 1;
        }
        if !found {
            assert(!views(names@).contains(views(toks@)[i as int])) by {
                if views(names@).contains(views(toks@)[i as int]) {
                    let m = choose|m: int| 0 <= m < views(names@).len() && views(names@)[m] == views(toks@)[i as int];
                    assert(views(names@)[m] != views(toks@)[i as int]);
                }
            }
            return false;
        }
        i = i + 1;
    }
    true
}

fn link_reasons_exec(sym_tokens: &Vec<String>, target_stem: &Vec<char>, target_parent: &Vec<char>, sym: &Symbol, cand: &Symbol) -> (r: Vec<TestLinkReason>)
    requires
        views(sym_tokens@) == ident_tokens(sym.name@),
        target_stem@ == file_stem(sym.filepath@),
        target_parent@ == parent_dir(sym.filepath@),
    ensures
        r@ == link_reasons(sym@, cand@),
        r@.len() <= 4,
{
    let mut reasons: Vec<TestLinkReason> = Vec::new();
    let cpath = surface_path_exec(cand.filepath.as_str());
    let cpath_lower = ascii_lower_exec(&cpath);
    let cand_tokens = tokenize_identifier(cand.name.as_str());
    if all_in_path_exec(sym_tokens, &cpath_lower) {
        reasons.push(TestLinkReason::TestPathMatch);
    }
    let ghost a = reasons@;
    assert(a =~= (if all_in_path(ident_tokens(sym.name@), ascii_lower(surface_path(cand.filepath@))) {
        seq![TestLinkReason::TestPathMatch]
    } else {
        Seq::empty()
    }));
    if all_in_names_exec(sym_tokens, &cand_tokens) {
        reasons.push(TestLinkReason::TestNameMatch);
    }
    let cstem = file_stem_exec(cand.filepath.as_str());
    if chars_eq(target_stem, &cstem) {
        reasons.push(TestLinkReason::FileStemMatch);
    }
    let cparent = parent_dir_exec(cand.filepath.as_str());
    if target_parent.len() > 0 && chars_eq(target_parent, &cparent) {
        reasons.push(TestLinkReason::DirectoryProximity);
    }
    reasons
}

fn test_link_exec(cand: &Symbol, reasons: Vec<TestLinkReason>) -> (r: TestLink)
    requires
        reasons@.len() <= 4,
    ensures
        r@ == test_link_of(cand@, reasons@),
{
    let test_ref = build_surface_ref(SurfaceKind::Test, cand.filepath.as_str(), cand.name.as_str(), cand.start_line);
    let fp = surface_path_exec(cand.filepath.as_str());
    let n = reasons.len() as u32;
    TestLink {
        test_ref,
        filepath: from_chars(fp.as_slice()),
        display_name: cand.name.clone(),
        reasons,
        score: 10 * n + 5,
    }
}

fn truncate_vec<T>(v: &mut Vec<T>, n: usize)
    ensures
        final(v)@ == truncate(old(v)@, n as int),
{
    if v.len() > n {
        v.truncate(n);
    }
}

/// Link `sym` to the test candidates: the top three by score, path and reference.
fn link_tests(sym: &Symbol, cands: &Vec<&Symbol>) -> (r: Vec<TestLink>)
    ensures
        card_views(r@) == linked_tests(sym@, sym_views(cands@)),
{
    let ghost cv = sym_views(cands@);
    let sym_tokens = tokenize_identifier(sym.name.as_str());
    let target_stem = file_stem_exec(sym.filepath.as_str());
    let target_parent = parent_dir_exec(sym.filepath.as_str());
    let mut links: Vec<TestLink> = Vec::new();
    let mut i: usize = 0;
    while i < cands.len()
        invariant
            0 <= i <= cands.len(),
            cv == sym_views(cands@),
            views(sym_tokens@) == ident_tokens(sym.name@),
            target_stem@ == file_stem(sym.filepath@),
            target_parent@ == parent_dir(sym.filepath@),
            card_views(links@) == raw_links(sym@, cv.subrange(0, i as int)),
        decreases cands.len() - i,
    {
        let cand = cands[i];
        proof {
            assert(cv.subrange(0, i + 1).drop_last() =~= cv.subrange(0, i as int));
            assert(cv.subrange(0, i + 1).last() == cand@);
        }
        let reasons = link_reasons_exec(&sym_tokens, &target_stem, &target_parent, sym, cand);
        if reasons.len() > 0 {
            let link = test_link_exec(cand, reasons);
            links.push(link);
            assert(card_views(links@) =~= raw_links(sym@, cv.subrange(0, i + 1)));
        }
        i = i + 1;
    }
    assert(cv.subrange(0, i as int) =~= cv);
    let mut sorted = sort_ranked(links);
    truncate_vec(&mut sorted, 3);
    proof {
        assert(card_views(sorted@) =~= truncate(ranked_sort::<TestLink>(raw_links(sym@, cv)), 3));
    }
    sorted
}


// ---------------------------------------------------------------------------
// Symbol cards
// ---------------------------------------------------------------------------

/// The comment summary of a symbol, cut to `max` characters.
pub open spec fn summary_of(sym: SymbolView, max: nat) -> Option<Seq<char>> {
    match sym.comment {
        Some(c) => match c.summary_line {
            Some(s) => Some(take_chars(s, max)),
            None => None,
        },
        None => None,
    }
}

/// The comment flags of a symbol (none without a comment).
pub open spec fn flags_of(sym: SymbolView) -> Seq<CommentFlag> {
    match sym.comment {
        Some(c) => c.flags,
        None => Seq::empty(),
    }
}

/// The deterministic score of a surfaced symbol, in tenths: the base, plus 0.3 for a comment
/// summary, 0.2 for comment flags and 1.5 for linked tests, minus 0.7 under `/examples/`.
pub open spec fn surface_score(sym: SymbolView, linked_tests: nat, base: u32, surface_fp: Seq<char>) -> u32 {
    (base as int
        + (if summary_of(sym, 0) is Some { 3int } else { 0int })
        + (if flags_of(sym).len() > 0 { 2int } else { 0int })
        + (if linked_tests > 0 { 15int } else { 0int })
        - (if contains_sub(surface_path(surface_fp), "/examples/"@) { 7int } else { 0int })) as u32
}

/// The signature shown for a symbol: its preview, else its name.
pub open spec fn signature_of(sym: SymbolView) -> Seq<char> {
    match sym.signature_preview {
        Some(s) => s,
        None => sym.name,
    }
}

/// The API card of a symbol.
pub open spec fn api_card(sym: SymbolView, cands: Seq<SymbolView>, max: nat) -> ApiCardView {
    let tests = linked_tests(sym, cands);
    ApiCardView {
        symbol_ref: surface_ref(SurfaceKind::Api, sym.filepath, sym.name, sym.start_line),
        filepath: surface_path(sym.filepath),
        signature: signature_of(sym),
        comment_summary: summary_of(sym, max),
        flags: flags_of(sym),
        publicness: sym.export.publicness,
        tests,
        score: surface_score(sym, tests.len(), 30, sym.filepath),
    }
}

/// The type card of a symbol.
pub open spec fn type_card(sym: SymbolView, max: nat) -> TypeCardView {
    TypeCardView {
        symbol_ref: surface_ref(SurfaceKind::Type, sym.filepath, sym.name, sym.start_line),
        filepath: surface_path(sym.filepath),
        kind: sym.kind,
        signature: signature_of(sym),
        comment_summary: summary_of(sym, max),
        flags: flags_of(sym),
        publicness: sym.export.publicness,
        score: surface_score(sym, 0, 20, sym.filepath),
    }
}

/// Kinds surfaced as public types.
pub open spec fn is_type_kind(k: SymbolKind) -> bool {
    ||| k == SymbolKind::Class
    ||| k == SymbolKind::Struct
    ||| k == SymbolKind::Enum
    ||| k == SymbolKind::Interface
    ||| k == SymbolKind::Module
    ||| k == SymbolKind::Type
    ||| k == SymbolKind::Trait
}

/// Kinds surfaced at all: functions and type kinds.
pub open spec fn is_surface_kind(k: SymbolKind) -> bool {
    k == SymbolKind::Function || is_type_kind(k)
}

/// Whether a symbol is surfaced as an API: a public (or unknown, in the fallback) function.
pub open spec fn is_api_candidate(sym: SymbolView, unknown: bool) -> bool {
    &&& sym.kind == SymbolKind::Function
    &&& if unknown {
        sym.export.publicness == Publicness::Unknown
    } else {
        sym.export.publicness == Publicness::Public || sym.export.publicness == Publicness::Reexported
    }
}

/// Whether a symbol is surfaced as a type: a public (or unknown, in the fallback) type kind.
pub open spec fn is_type_candidate(sym: SymbolView, unknown: bool) -> bool {
    &&& is_type_kind(sym.kind)
    &&& if unknown {
        sym.export.publicness == Publicness::Unknown
    } else {
        sym.export.publicness == Publicness::Public || sym.export.publicness == Publicness::Reexported
    }
}

/// API cards of the candidate symbols, in symbol order.
pub open spec fn api_cards(syms: Seq<SymbolView>, cands: Seq<SymbolView>, max: nat, unknown: bool) -> Seq<ApiCardView>
    decreases syms.len(),
{
    if syms.len() == 0 {
        Seq::empty()
    } else {
        let prev = api_cards(syms.drop_last(), cands, max, unknown);
        if is_api_candidate(syms.last(), unknown) {
            prev.push(api_card(syms.last(), cands, max))
        } else {
            prev
        }
    }
}

/// Type cards of the candidate symbols, in symbol order.
pub open spec fn type_cards(syms: Seq<SymbolView>, max: nat, unknown: bool) -> Seq<TypeCardView>
    decreases syms.len(),
{
    if syms.len() == 0 {
        Seq::empty()
    } else {
        let prev = type_cards(syms.drop_last(), max, unknown);
        if is_type_candidate(syms.last(), unknown) {
            prev.push(type_card(syms.last(), max))
        } else {
            prev
        }
    }
}

/// The test candidates among the symbols, in order.
pub open spec fn test_cands(syms: Seq<SymbolView>) -> Seq<SymbolView>
    decreases syms.len(),
{
    if syms.len() == 0 {
        Seq::empty()
    } else if is_test_candidate(syms.last().filepath, syms.last().name) {
        test_cands(syms.drop_last()).push(syms.last())
    } else {
        test_cands(syms.drop_last())
    }
}

fn copy_vec<T: Copy>(v: &Vec<T>) -> (r: Vec<T>)
    ensures
        r@ == v@,
{
    let mut r: Vec<T> = Vec::new();
    let mut i: usize = 0;
    while i < v.len()
        invariant
            0 <= i <= v.len(),
            r@ == v@.subrange(0, i as int),
        decreases v.len() - i,
    {
        r.push(v[i]);
        i = i + 1;
        assert(r@ =~= v@.subrange(0, i as int));
    }
    assert(v@.subrange(0, i as int) =~= v@);
    r
}

fn summary_exec(sym: &Symbol, max: usize) -> (r: Option<String>)
    ensures
        opt_view(r) == summary_of(sym@, max as nat),
{
    match &sym.comment {
        Some(c) => match &c.summary_line {
            Some(s) => {
                let v = to_chars(s.as_str());
                let n = if v.len() <= max { v.len() } else { max };
                let t = crate::text::sub_chars(&v, 0, n);
                assert(t@ =~= take_chars(s@, max as nat));
                Some(from_chars(t.as_slice()))
            },
            None => None,
        },
        None => None,
    }
}

fn flags_exec(sym: &Symbol) -> (r: Vec<CommentFlag>)
    ensures
        r@ == flags_of(sym@),
{
    match &sym.comment {
        Some(c) => copy_vec(&c.flags),
        None => Vec::new(),
    }
}

fn surface_score_exec(sym: &Symbol, linked_tests: usize, base: u32, surface_fp: &str) -> (r: u32)
    requires
        base == 20 || base == 30,
    ensures
        r == surface_score(sym@, linked_tests as nat, base, surface_fp@),
        r <= 50,
{
    let mut score = base;
    let has_summary = match &sym.comment {
        Some(c) => c.summary_line.is_some(),
        None => false,
    };
    if has_summary {
        score = score + 3;
    }
    let has_flags = match &sym.comment {
        Some(c) => c.flags.len() > 0,
        None => false,
    };
    if has_flags {
        score = score + 2;
    }
    if linked_tests > 0 {
        score = score + 15;
    }
    let p = surface_path_exec(surface_fp);
    if contains_exec(&p, &to_chars("/examples/")) {
        score = score - 7;
    }
    score
}

fn signature_exec(sym: &Symbol) -> (r: String)
    ensures
        r@ == signature_of(sym@),
{
    match &sym.signature_preview {
        Some(s) => s.clone(),
        None => sym.name.clone(),
    }
}

fn api_card_exec(sym: &Symbol, cands: &Vec<&Symbol>, max: usize) -> (r: PublicApiCard)
    ensures
        r@ == api_card(sym@, sym_views(cands@), max as nat),
{
    let tests = link_tests(sym, cands);
    let fp = surface_path_exec(sym.filepath.as_str());
    let score = surface_score_exec(sym, tests.len(), 30, sym.filepath.as_str());
    PublicApiCard {
        symbol_ref: build_surface_ref(SurfaceKind::Api, sym.filepath.as_str(), sym.name.as_str(), sym.start_line),
        filepath: from_chars(fp.as_slice()),
        signature: signature_exec(sym),
        comment_summary: summary_exec(sym, max),
        flags: flags_exec(sym),
        publicness: sym.export.publicness,
        tests,
        score,
    }
}

fn type_card_exec(sym: &Symbol, max: usize) -> (r: PublicTypeCard)
    ensures
        r@ == type_card(sym@, max as nat),
{
    let fp = surface_path_exec(sym.filepath.as_str());
    let score = surface_score_exec(sym, 0, 20, sym.filepath.as_str());
    PublicTypeCard {
        symbol_ref: build_surface_ref(SurfaceKind::Type, sym.filepath.as_str(), sym.name.as_str(), sym.start_line),
        filepath: from_chars(fp.as_slice()),
        kind: sym.kind,
        signature: signature_exec(sym),
        comment_summary: summary_exec(sym, max),
        flags: flags_exec(sym),
        publicness: sym.export.publicness,
        score,
    }
}

fn is_type_kind_exec(k: SymbolKind) -> (r: bool)
    ensures
        r == is_type_kind(k),
{
    match k {
        SymbolKind::Class | SymbolKind::Struct | SymbolKind::Enum | SymbolKind::Interface
        | SymbolKind::Module | SymbolKind::Type | SymbolKind::Trait => true,
        _ => false,
    }
}

fn publicness_fits(p: Publicness, unknown: bool) -> (r: bool)
    ensures
        r == if unknown {
            p == Publicness::Unknown
        } else {
            p == Publicness::Public || p == Publicness::Reexported
        },
{
    match p {
        Publicness::Unknown => unknown,
        Publicness::Public | Publicness::Reexported => !unknown,
        _ => false,
    }
}

fn api_cards_exec(syms: &Vec<&Symbol>, cands: &Vec<&Symbol>, max: usize, unknown: bool) -> (r: Vec<PublicApiCard>)
    ensures
        card_views(r@) == api_cards(sym_views(syms@), sym_views(cands@), max as nat, unknown),
{
    let ghost sv = sym_views(syms@);
    let mut out: Vec<PublicApiCard> = Vec::new();
    let mut i: usize = 0;
    while i < syms.len()
        invariant
            0 <= i <= syms.len(),
            sv == sym_views(syms@),
            card_views(out@) == api_cards(sv.subrange(0, i as int), sym_views(cands@), max as nat, unknown),
        decreases syms.len() - i,
    {
        let sym = syms[i];
        proof {
            assert(sv.subrange(0, i + 1).drop_last() =~= sv.subrange(0, i as int));
            assert(sv.subrange(0, i + 1).last() == sym@);
        }
        let is_fn = match sym.kind {
            SymbolKind::Function => true,
            _ => false,
        };
        if is_fn && publicness_fits(sym.export.publicness, unknown) {
            let card = api_card_exec(sym, cands, max);
            out.push(card);
        }
        assert(card_views(out@) =~= api_cards(sv.subrange(0, i + 1), sym_views(cands@), max as nat, unknown));
        i = i + 1;
    }
    assert(sv.subrange(0, i as int) =~= sv);
    out
}

fn type_cards_exec(syms: &Vec<&Symbol>, max: usize, unknown: bool) -> (r: Vec<PublicTypeCard>)
    ensures
        card_views(r@) == type_cards(sym_views(syms@), max as nat, unknown),
{
    let ghost sv = sym_views(syms@);
    let mut out: Vec<PublicTypeCard> = Vec::new();
    let mut i: usize = 0;
    while i < syms.len()
        invariant
            0 <= i <= syms.len(),
            sv == sym_views(syms@),
            card_views(out@) == type_cards(sv.subrange(0, i as int), max as nat, unknown),
        decreases syms.len() - i,
    {
        let sym = syms[i];
        proof {
            assert(sv.subrange(0, i + 1).drop_last() =~= sv.subrange(0, i as int));
            assert(sv.subrange(0, i + 1).last() == sym@);
        }
        if is_type_kind_exec(sym.kind) && publicness_fits(sym.export.publicness, unknown) {
            let card = type_card_exec(sym, max);
            out.push(card);
        }
        assert(card_views(out@) =~= type_cards(sv.subrange(0, i + 1), max as nat, unknown));
        i = i + 1;
    }
    assert(sv.subrange(0, i as int) =~= sv);
    out
}

fn test_cands_exec<'a>(syms: &Vec<&'a Symbol>) -> (r: Vec<&'a Symbol>)
    ensures
        sym_views(r@) == test_cands(sym_views(syms@)),
{
    let ghost sv = sym_views(syms@);
    let mut out: Vec<&Symbol> = Vec::new();
    let mut i: usize = 0;
    while i < syms.len()
        invariant
            0 <= i <= syms.len(),
            sv == sym_views(syms@),
            sym_views(out@) == test_cands(sv.subrange(0, i as int)),
        decreases syms.len() - i,
    {
        let sym = syms[i];
        proof {
            assert(sv.subrange(0, i + 1).drop_last() =~= sv.subrange(0, i as int));
            assert(sv.subrange(0, i + 1).last() == sym@);
        }
        if is_test_candidate_exec(sym.filepath.as_str(), sym.name.as_str()) {
            out.push(sym);
        }
        assert(sym_views(out@) =~= test_cands(sv.subrange(0, i + 1)));
        i = i + 1;
    }
    assert(sv.subrange(0, i as int) =~= sv);
    out
}


// ---------------------------------------------------------------------------
// Module resolution of re-export specifiers
// ---------------------------------------------------------------------------

/// Views of character vectors.
pub open spec fn cviews(v: Seq<Vec<char>>) -> Seq<Seq<char>> {
    v.map_values(|v: Vec<char>| v@)
}

/// Whether normalized path `fp` lies in scope directory `dir` (the empty scope holds all).
pub open spec fn within_scope(fp: Seq<char>, dir: Seq<char>) -> bool {
    dir.len() == 0 || fp == dir || starts_with(fp, dir + seq!['/'])
}

/// What an alias pattern's `*` stands for in `spec`; a pattern without `*` must equal `spec`.
pub open spec fn alias_match(pattern: Seq<char>, spec: Seq<char>) -> Option<Seq<char>> {
    match first_index(pattern, '*') {
        Some(i) => {
            let pre = pattern.subrange(0, i);
            let suf = pattern.subrange(i + 1, pattern.len() as int);
            if starts_with(spec, pre) && crate::text::ends_with(spec.skip(i), suf) {
                Some(spec.skip(i).subrange(0, spec.len() - i - suf.len()))
            } else {
                None
            }
        },
        None => if pattern == spec {
            Some(Seq::empty())
        } else {
            None
        },
    }
}

/// `target` with its first `*` replaced by `w`.
pub open spec fn substitute(target: Seq<char>, w: Seq<char>) -> Seq<char> {
    match first_index(target, '*') {
        Some(i) => target.subrange(0, i) + w + target.subrange(i + 1, target.len() as int),
        None => target,
    }
}

/// The targets of one alias rule for `spec`.
pub open spec fn rule_targets(targets: Seq<Seq<char>>, w: Seq<char>) -> Seq<Seq<char>>
    decreases targets.len(),
{
    if targets.len() == 0 {
        Seq::empty()
    } else {
        rule_targets(targets.drop_last(), w).push(substitute(targets.last(), w))
    }
}

/// The targets of a list of alias rules for `spec`, rule by rule.
pub open spec fn rules_targets(rules: Seq<AliasView>, spec: Seq<char>) -> Seq<Seq<char>>
    decreases rules.len(),
{
    if rules.len() == 0 {
        Seq::empty()
    } else {
        rules_targets(rules.drop_last(), spec) + match alias_match(rules.last().pattern, spec) {
            Some(w) => rule_targets(rules.last().targets, w),
            None => Seq::empty(),
        }
    }
}

/// The scoped configs that apply to normalized path `fp`.
pub open spec fn scoped_in(sc: Seq<ScopedView>, fp: Seq<char>) -> Seq<ScopedView>
    decreases sc.len(),
{
    if sc.len() == 0 {
        Seq::empty()
    } else if within_scope(fp, sc.last().scope_dir) {
        scoped_in(sc.drop_last(), fp).push(sc.last())
    } else {
        scoped_in(sc.drop_last(), fp)
    }
}

/// Alias targets of scoped configs.
pub open spec fn scoped_targets(sc: Seq<ScopedView>, spec: Seq<char>) -> Seq<Seq<char>>
    decreases sc.len(),
{
    if sc.len() == 0 {
        Seq::empty()
    } else {
        scoped_targets(sc.drop_last(), spec) + rules_targets(sc.last().paths, spec)
    }
}

/// baseUrl candidates of scoped configs.
pub open spec fn scoped_bases(sc: Seq<ScopedView>, spec: Seq<char>) -> Seq<Seq<char>>
    decreases sc.len(),
{
    if sc.len() == 0 {
        Seq::empty()
    } else {
        match sc.last().base_url {
            Some(b) => scoped_bases(sc.drop_last(), spec).push(crate::paths::normalize_relative(b, spec)),
            None => scoped_bases(sc.drop_last(), spec),
        }
    }
}

/// Candidate module paths for `spec` imported from `fp`, before extension expansion: relative
/// to the importing file's directory, or through path aliases and baseUrls.
pub open spec fn raw_candidates(fp: Seq<char>, spec: Seq<char>, mr: ResolutionView) -> Seq<Seq<char>> {
    if starts_with(spec, seq!['.']) {
        seq![crate::paths::normalize_relative(parent_dir(fp), spec)]
    } else {
        let sc = scoped_in(mr.scoped, surface_path(fp));
        scoped_targets(sc, spec) + rules_targets(mr.paths, spec) + scoped_bases(sc, spec) + match mr.base_url {
            Some(b) => seq![crate::paths::normalize_relative(b, spec)],
            None => Seq::empty(),
        }
    }
}

/// The module file extensions tried for an extensionless candidate.
pub open spec fn module_exts() -> Seq<Seq<char>> {
    seq!["ts"@, "tsx"@, "js"@, "jsx"@, "mts"@, "cts"@, "mjs"@, "cjs"@]
}

/// A candidate as is when it has an extension, else each module extension appended, then each
/// `index` file under it.
pub open spec fn expand_candidate(raw: Seq<char>) -> Seq<Seq<char>> {
    if crate::paths::extension(raw) is Some {
        seq![raw]
    } else {
        module_exts().map_values(|e: Seq<char>| raw + seq!['.'] + e) + module_exts().map_values(
            |e: Seq<char>| raw + "/index."@ + e,
        )
    }
}

/// Every expansion of every candidate, with `\` written as `/`.
pub open spec fn expand_all(raws: Seq<Seq<char>>) -> Seq<Seq<char>>
    decreases raws.len(),
{
    if raws.len() == 0 {
        Seq::empty()
    } else {
        expand_all(raws.drop_last()) + expand_candidate(replace_char(raws.last(), '\\', '/'))
    }
}

/// The sorted, duplicate-free module paths that `spec` may name, imported from `fp`.
pub open spec fn resolve_specifier(fp: Seq<char>, spec: Seq<char>, mr: ResolutionView) -> Seq<Seq<char>> {
    crate::order::sorted_of_set(expand_all(raw_candidates(fp, spec, mr)).to_set())
}

/// The module paths a re-export may come from: its own file without a source specifier.
pub open spec fn rex_candidates(rx: ReexportView, mr: ResolutionView) -> Seq<Seq<char>> {
    match rx.source_specifier {
        Some(sp) => resolve_specifier(rx.filepath, sp, mr),
        None => seq![surface_path(rx.filepath)],
    }
}

fn within_scope_exec(fp: &Vec<char>, dir: &String) -> (r: bool)
    ensures
        r == within_scope(fp@, dir@),
{
    let d = to_chars(dir.as_str());
    if d.len() == 0 || chars_eq(fp, &d) {
        return true;
    }
    let mut pre = d;
    pre.push('/');
    assert(pre@ =~= dir@ + seq!['/']);
    starts_with_exec(fp, &pre)
}

fn alias_match_exec(pattern: &String, spec: &Vec<char>) -> (r: Option<Vec<char>>)
    ensures
        match r {
            Some(w) => alias_match(pattern@, spec@) == Some(w@),
            None => alias_match(pattern@, spec@) is None,
        },
{
    let pv = to_chars(pattern.as_str());
    match first_index_exec(&pv, '*') {
        Some(i) => {
            proof {
                lemma_first_index(pv@, '*');
            }
            let pre = crate::text::sub_chars(&pv, 0, i);
            let suf = crate::text::sub_chars(&pv, i + 1, pv.len());
            if !starts_with_exec(spec, &pre) {
                return None;
            }
            let rest = crate::text::sub_chars(spec, i, spec.len());
            assert(rest@ =~= spec@.skip(i as int));
            if !crate::text::ends_with_exec(&rest, &suf) {
                return None;
            }
            let w = crate::text::sub_chars(&rest, 0, rest.len() - suf.len());
            Some(w)
        },
        None => {
            if chars_eq(&pv, spec) {
                Some(Vec::new())
            } else {
                None
            }
        },
    }
}

fn substitute_exec(target: &String, w: &Vec<char>) -> (r: Vec<char>)
    ensures
        r@ == substitute(target@, w@),
{
    let t = to_chars(target.as_str());
    match first_index_exec(&t, '*') {
        Some(i) => {
            proof {
                lemma_first_index(t@, '*');
            }
            let mut out = crate::text::sub_chars(&t, 0, i);
            append_chars(&mut out, w);
            let tail = crate::text::sub_chars(&t, i + 1, t.len());
            append_chars(&mut out, &tail);
            out
        },
        None => t,
    }
}

fn push_rules_targets(out: &mut Vec<Vec<char>>, rules: &Vec<PathAliasRule>, spec: &Vec<char>)
    ensures
        cviews(final(out)@) == cviews(old(out)@) + rules_targets(card_views(rules@), spec@),
{
    let ghost base = cviews(out@);
    let ghost rv = card_views(rules@);
    let mut i: usize = 0;
    while i < rules.len()
        invariant
            0 <= i <= rules.len(),
            rv == card_views(rules@),
            cviews(out@) == base + rules_targets(rv.subrange(0, i as int), spec@),
        decreases rules.len() - i,
    {
        let rule = &rules[i];
        proof {
            assert(rv.subrange(0, i + 1).drop_last() =~= rv.subrange(0, i as int));
            assert(rv.subrange(0, i + 1).last() == rule@);
        }
        match alias_match_exec(&rule.pattern, spec) {
            Some(w) => {
                let ghost mid = cviews(out@);
                let ghost tv = views(rule.targets@);
                let mut k: usize = 0;
                while k < rule.targets.len()
                    invariant
                        0 <= k <= rule.targets.len(),
                        tv == views(rule.targets@),
                        cviews(out@) == mid + rule_targets(tv.subrange(0, k as int), w@),
                    decreases rule.targets.len() - k,
                {
                    let t = substitute_exec(&rule.targets[k], &w);
                    proof {
                        assert(tv.subrange(0, k + 1).drop_last() =~= tv.subrange(0, k as int));
                        assert(tv.subrange(0, k + 1).last() == rule.targets@[k as int]@);
                    }
                    let ghost pre = out@;
                    out.push(t);
                    assert(cviews(out@) =~= cviews(pre).push(t@));
                    assert(rule_targets(tv.subrange(0, k + 1), w@) == rule_targets(tv.subrange(0, k as int), w@).push(substitute(rule.targets@[k as int]@, w@)));
                    assert(cviews(out@) =~= mid + rule_targets(tv.subrange(0, k + 1), w@));
                    k = k + 1;
                }
                assert(tv.subrange(0, k as int) =~= tv);
                assert(cviews(out@) =~= base + rules_targets(rv.subrange(0, i + 1), spec@));
            },
            None => {
                assert(cviews(out@) =~= base + rules_targets(rv.subrange(0, i + 1), spec@));
            },
        }
        i = i + 1;
    }
    assert(rv.subrange(0, i as int) =~= rv);
}

fn raw_candidates_exec(fp: &str, spec: &str, mr: &ModuleResolutionConfig) -> (r: Vec<Vec<char>>)
    ensures
        cviews(r@) == raw_candidates(fp@, spec@, mr@),
{
    let sv = to_chars(spec);
    let mut out: Vec<Vec<char>> = Vec::new();
    let mut dot: Vec<char> = Vec::new();
    dot.push('.');
    assert(dot@ =~= seq!['.']);
    if starts_with_exec(&sv, &dot) {
        let base = parent_dir_exec(fp);
        out.push(crate::paths::normalize_relative_exec(&base, &sv));
        assert(cviews(out@) =~= raw_candidates(fp@, spec@, mr@));
        return out;
    }
    let nfp = surface_path_exec(fp);
    let ghost scv = card_views(mr.scoped_configs@);
    // scoped configs that apply, in config order
    let mut sc: Vec<&ScopedModuleResolution> = Vec::new();
    let mut i: usize = 0;
    while i < mr.scoped_configs.len()
        invariant
            0 <= i <= mr.scoped_configs.len(),
            scv == card_views(mr.scoped_configs@),
            sc@.map_values(|c: &ScopedModuleResolution| c@) == scoped_in(scv.subrange(0, i as int), nfp@),
        decreases mr.scoped_configs.len() - i,
    {
        let c = &mr.scoped_configs[i];
        proof {
            assert(scv.subrange(0, i + 1).drop_last() =~= scv.subrange(0, i as int));
            assert(scv.subrange(0, i + 1).last() == c@);
        }
        if within_scope_exec(&nfp, &c.scope_dir) {
            sc.push(c);
        }
        assert(sc@.map_values(|c: &ScopedModuleResolution| c@) =~= scoped_in(scv.subrange(0, i + 1), nfp@));
        i = i + 1;
    }
    assert(scv.subrange(0, i as int) =~= scv);
    let ghost scs = sc@.map_values(|c: &ScopedModuleResolution| c@);
    let mut j: usize = 0;
    while j < sc.len()
        invariant
            0 <= j <= sc.len(),
            scs == sc@.map_values(|c: &ScopedModuleResolution| c@),
            cviews(out@) == scoped_targets(scs.subrange(0, j as int), sv@),
        decreases sc.len() - j,
    {
        proof {
            assert(scs.subrange(0, j + 1).drop_last() =~= scs.subrange(0, j as int));
            assert(scs.subrange(0, j + 1).last() == sc@[j as int]@);
        }
        push_rules_targets(&mut out, &sc[j].tsconfig_paths, &sv);
        j = j + 1;
    }
    assert(scs.subrange(0, j as int) =~= scs);
    push_rules_targets(&mut out, &mr.tsconfig_paths, &sv);
    let ghost before_bases = cviews(out@);
    let mut j2: usize = 0;
    while j2 < sc.len()
        invariant
            0 <= j2 <= sc.len(),
            scs == sc@.map_values(|c: &ScopedModuleResolution| c@),
            cviews(out@) == before_bases + scoped_bases(scs.subrange(0, j2 as int), sv@),
        decreases sc.len() - j2,
    {
        proof {
            assert(scs.subrange(0, j2 + 1).drop_last() =~= scs.subrange(0, j2 as int));
            assert(scs.subrange(0, j2 + 1).last() == sc@[j2 as int]@);
        }
        let ghost pre = out@;
        match &sc[j2].tsconfig_base_url {
            Some(b) => {
                let bv = to_chars(b.as_str());
                let nb = crate::paths::normalize_relative_exec(&bv, &sv);
                out.push(nb);
                assert(cviews(out@) =~= cviews(pre).push(nb@));
            },
            None => {},
        }
        assert(cviews(out@) =~= before_bases + scoped_bases(scs.subrange(0, j2 + 1), sv@));
        j2 = j2 + 1;
    }
    assert(scs.subrange(0, j2 as int) =~= scs);
    match &mr.tsconfig_base_url {
        Some(b) => {
            let bv = to_chars(b.as_str());
            out.push(crate::paths::normalize_relative_exec(&bv, &sv));
        },
        None => {},
    }
    assert(cviews(out@) =~= raw_candidates(fp@, spec@, mr@));
    out
}

fn module_ext(i: usize) -> (r: &'static str)
    requires
        i < 8,
    ensures
        r@ == module_exts()[i as int],
{
    if i == 0 { "ts" } else if i == 1 { "tsx" } else if i == 2 { "js" } else if i == 3 { "jsx" }
    else if i == 4 { "mts" } else if i == 5 { "cts" } else if i == 6 { "mjs" } else { "cjs" }
}

fn expand_candidate_exec(out: &mut Vec<Vec<char>>, raw: &Vec<char>)
    ensures
        cviews(final(out)@) == cviews(old(out)@) + expand_candidate(raw@),
{
    let ghost base = cviews(out@);
    if crate::paths::extension_exec(raw).is_some() {
        out.push(crate::text::copy_chars(raw));
        assert(cviews(out@) =~= base + expand_candidate(raw@));
        return;
    }
    let ghost e1 = module_exts().map_values(|e: Seq<char>| raw@ + seq!['.'] + e);
    let ghost e2 = module_exts().map_values(|e: Seq<char>| raw@ + "/index."@ + e);
    let mut i: usize = 0;
    while i < 8
        invariant
            0 <= i <= 8,
            e1 == module_exts().map_values(|e: Seq<char>| raw@ + seq!['.'] + e),
            cviews(out@) == base + e1.subrange(0, i as int),
        decreases 8 - i,
    {
        let mut c = crate::text::copy_chars(raw);
        c.push('.');
        let e = to_chars(module_ext(i));
        append_chars(&mut c, &e);
        let ghost pre = out@;
        out.push(c);
        assert(cviews(out@) =~= cviews(pre).push(c@));
        assert(c@ == e1[i as int]);
        assert(e1.subrange(0, i + 1) =~= e1.subrange(0, i as int).push(e1[i as int]));
        i = i + 1;
        assert(cviews(out@) =~= base + e1.subrange(0, i as int));
    }
    let mut k: usize = 0;
    while k < 8
        invariant
            0 <= k <= 8,
            e1.len() == 8,
            e2 == module_exts().map_values(|e: Seq<char>| raw@ + "/index."@ + e),
            cviews(out@) == base + e1 + e2.subrange(0, k as int),
        decreases 8 - k,
    {
        let mut c = crate::text::copy_chars(raw);
        let idx = to_chars("/index.");
        append_chars(&mut c, &idx);
        let e = to_chars(module_ext(k));
        append_chars(&mut c, &e);
        let ghost pre = out@;
        out.push(c);
        assert(cviews(out@) =~= cviews(pre).push(c@));
        assert(c@ == e2[k as int]);
        assert(e2.subrange(0, k + 1) =~= e2.subrange(0, k as int).push(e2[k as int]));
        k = k + 1;
        assert(cviews(out@) =~= base + e1 + e2.subrange(0, k as int));
    }
    assert(e1.subrange(0, 8) =~= e1);
    assert(e2.subrange(0, 8) =~= e2);
}

/// Resolve a re-export source specifier to sorted, duplicate-free candidate module paths.
fn resolve_module_specifier(filepath: &str, source_specifier: &str, mr: &ModuleResolutionConfig) -> (r: Vec<Vec<char>>)
    ensures
        cviews(r@) == resolve_specifier(filepath@, source_specifier@, mr@),
{
    let raws = raw_candidates_exec(filepath, source_specifier, mr);
    let ghost rv = cviews(raws@);
    let mut flat: Vec<Vec<char>> = Vec::new();
    let mut i: usize = 0;
    while i < raws.len()
        invariant
            0 <= i <= raws.len(),
            rv == cviews(raws@),
            cviews(flat@) == expand_all(rv.subrange(0, i as int)),
        decreases raws.len() - i,
    {
        let raw = replace_char_exec(&raws[i], '\\', '/');
        proof {
            assert(rv.subrange(0, i + 1).drop_last() =~= rv.subrange(0, i as int));
            assert(rv.subrange(0, i + 1).last() == raws@[i as int]@);
        }
        expand_candidate_exec(&mut flat, &raw);
        i = i + 1;
    }
    assert(rv.subrange(0, i as int) =~= rv);
    let ghost fv = cviews(flat@);
    let mut acc: Vec<Vec<char>> = Vec::new();
    let mut k: usize = 0;
    assert(cviews(acc@) =~= Seq::<Seq<char>>::empty());
    assert(fv.subrange(0, 0).to_set() =~= Set::<Seq<char>>::empty());
    assert(cviews(acc@).to_set() =~= Set::<Seq<char>>::empty());
    while k < flat.len()
        invariant
            0 <= k <= flat.len(),
            fv == cviews(flat@),
            crate::order::strictly_sorted(cviews(acc@)),
            cviews(acc@).to_set() == fv.subrange(0, k as int).to_set(),
        decreases flat.len() - k,
    {
        let w = crate::text::copy_chars(&flat[k]);
        crate::order::insert_sorted_unique(&mut acc, w);
        proof {
            assert(fv.subrange(0, k + 1) =~= fv.subrange(0, k as int).push(fv[k as int]));
            crate::order::lemma_push_to_set(fv.subrange(0, k as int), fv[k as int]);
        }
        k = k + 1;
    }
    assert(fv.subrange(0, k as int) =~= fv);
    proof {
        crate::order::lemma_sorted_of_set(cviews(acc@));
    }
    acc
}

/// The candidate module paths of a re-export.
fn rex_candidates_exec(rx: &Reexport, mr: &ModuleResolutionConfig) -> (r: Vec<Vec<char>>)
    ensures
        cviews(r@) == rex_candidates(rx@, mr@),
{
    match &rx.source_specifier {
        Some(sp) => resolve_module_specifier(rx.filepath.as_str(), sp.as_str(), mr),
        None => {
            let mut out: Vec<Vec<char>> = Vec::new();
            out.push(surface_path_exec(rx.filepath.as_str()));
            assert(cviews(out@) =~= rex_candidates(rx@, mr@));
            out
        },
    }
}


// ---------------------------------------------------------------------------
// Re-export resolution and cards
// ---------------------------------------------------------------------------

/// Whether `sym` is what re-export `rx` names locally (`default` names the default export).
pub open spec fn local_matches(rx: ReexportView, sym: SymbolView) -> bool {
    sym.name == rx.local_name || (rx.local_name == "default"@ && sym.export.export_kind == ExportKind::Default)
}

/// The first symbol in module path `c` that `rx` names.
pub open spec fn find_sym(syms: Seq<SymbolView>, rx: ReexportView, c: Seq<char>) -> Option<int>
    decreases syms.len(),
{
    if syms.len() == 0 {
        None
    } else if local_matches(rx, syms[0]) && c == surface_path(syms[0].filepath) {
        Some(0)
    } else {
        match find_sym(syms.drop_first(), rx, c) {
            Some(i) => Some(i + 1),
            None => None,
        }
    }
}

/// The symbol `rx` names in the first candidate path that has one.
pub open spec fn resolve_in(cands: Seq<Seq<char>>, syms: Seq<SymbolView>, rx: ReexportView) -> Option<SymbolView>
    decreases cands.len(),
{
    if cands.len() == 0 {
        None
    } else {
        match find_sym(syms, rx, cands[0]) {
            Some(i) => Some(syms[i]),
            None => resolve_in(cands.drop_first(), syms, rx),
        }
    }
}

/// The symbol a named re-export resolves to.
pub open spec fn resolve_target(rx: ReexportView, syms: Seq<SymbolView>, mr: ResolutionView) -> Option<SymbolView> {
    resolve_in(rex_candidates(rx, mr), syms, rx)
}

/// Whether `sym` is re-exported by a wildcard from module path `c`: a public, non-default
/// export of that module.
pub open spec fn wild_match(sym: SymbolView, c: Seq<char>) -> bool {
    &&& (sym.export.publicness == Publicness::Public || sym.export.publicness == Publicness::Reexported)
    &&& sym.export.export_kind != ExportKind::Default
    &&& c == surface_path(sym.filepath)
}

/// The symbols a wildcard re-exports from module path `c`, in symbol order.
pub open spec fn syms_at(syms: Seq<SymbolView>, c: Seq<char>) -> Seq<SymbolView>
    decreases syms.len(),
{
    if syms.len() == 0 {
        Seq::empty()
    } else if wild_match(syms.last(), c) {
        syms_at(syms.drop_last(), c).push(syms.last())
    } else {
        syms_at(syms.drop_last(), c)
    }
}

/// The symbols a wildcard re-exports, candidate path by candidate path.
pub open spec fn wild_targets(cands: Seq<Seq<char>>, syms: Seq<SymbolView>) -> Seq<SymbolView>
    decreases cands.len(),
{
    if cands.len() == 0 {
        Seq::empty()
    } else {
        wild_targets(cands.drop_last(), syms) + syms_at(syms, cands.last())
    }
}

/// `export * from ...`.
pub open spec fn is_wildcard(rx: ReexportView) -> bool {
    rx.local_name == "*"@ && rx.exported_name == "*"@
}

/// `export * as name from ...`.
pub open spec fn is_namespace(rx: ReexportView) -> bool {
    rx.local_name == "*"@ && rx.exported_name != "*"@
}

/// The name a re-export card shows: the symbol's own name through a wildcard.
pub open spec fn card_name(rx: ReexportView, sym: SymbolView) -> Seq<char> {
    if is_wildcard(rx) {
        sym.name
    } else {
        rx.exported_name
    }
}

/// The signature of a re-exported symbol: `name(params)` for functions and methods.
pub open spec fn rex_signature(sym: SymbolView, name: Seq<char>) -> Seq<char> {
    if sym.kind == SymbolKind::Function || sym.kind == SymbolKind::Method {
        name + seq!['('] + crate::text::join_with(sym.params, seq![',', ' ']) + seq![')']
    } else {
        name
    }
}

/// The API card of a re-exported function.
pub open spec fn rex_api_card(rx: ReexportView, sym: SymbolView, cands: Seq<SymbolView>, max: nat) -> ApiCardView {
    let name = card_name(rx, sym);
    let tests = linked_tests(sym, cands);
    ApiCardView {
        symbol_ref: surface_ref(SurfaceKind::Api, rx.filepath, name, rx.start_line),
        filepath: surface_path(rx.filepath),
        signature: rex_signature(sym, name),
        comment_summary: summary_of(sym, max),
        flags: flags_of(sym),
        publicness: Publicness::Reexported,
        tests,
        score: (surface_score(sym, tests.len(), 30, rx.filepath) + 1) as u32,
    }
}

/// The type card of a re-exported type.
pub open spec fn rex_type_card(rx: ReexportView, sym: SymbolView, max: nat) -> TypeCardView {
    let name = card_name(rx, sym);
    TypeCardView {
        symbol_ref: surface_ref(SurfaceKind::Type, rx.filepath, name, rx.start_line),
        filepath: surface_path(rx.filepath),
        kind: sym.kind,
        signature: name,
        comment_summary: summary_of(sym, max),
        flags: flags_of(sym),
        publicness: Publicness::Reexported,
        score: (surface_score(sym, 0, 20, rx.filepath) + 1) as u32,
    }
}

/// The module card of a namespace re-export.
pub open spec fn namespace_card(rx: ReexportView) -> TypeCardView {
    TypeCardView {
        symbol_ref: surface_ref(SurfaceKind::Type, rx.filepath, rx.exported_name, rx.start_line),
        filepath: surface_path(rx.filepath),
        kind: SymbolKind::Module,
        signature: rx.exported_name,
        comment_summary: match rx.source_specifier {
            Some(src) => Some("namespace re-export from "@ + src),
            None => None,
        },
        flags: Seq::empty(),
        publicness: Publicness::Reexported,
        score: 21,
    }
}

/// API cards for the function targets of one re-export.
pub open spec fn target_api_cards(rx: ReexportView, ts: Seq<SymbolView>, cands: Seq<SymbolView>, max: nat) -> Seq<ApiCardView>
    decreases ts.len(),
{
    if ts.len() == 0 {
        Seq::empty()
    } else if ts.last().kind == SymbolKind::Function {
        target_api_cards(rx, ts.drop_last(), cands, max).push(rex_api_card(rx, ts.last(), cands, max))
    } else {
        target_api_cards(rx, ts.drop_last(), cands, max)
    }
}

/// Type cards for the type targets of one re-export.
pub open spec fn target_type_cards(rx: ReexportView, ts: Seq<SymbolView>, max: nat) -> Seq<TypeCardView>
    decreases ts.len(),
{
    if ts.len() == 0 {
        Seq::empty()
    } else if is_type_kind(ts.last().kind) {
        target_type_cards(rx, ts.drop_last(), max).push(rex_type_card(rx, ts.last(), max))
    } else {
        target_type_cards(rx, ts.drop_last(), max)
    }
}

/// The symbols a re-export surfaces: every wildcard target, or its one resolved target.
pub open spec fn rex_targets(rx: ReexportView, syms: Seq<SymbolView>, mr: ResolutionView) -> Seq<SymbolView> {
    if is_wildcard(rx) {
        wild_targets(rex_candidates(rx, mr), syms)
    } else {
        match resolve_target(rx, syms, mr) {
            Some(t) => seq![t],
            None => Seq::empty(),
        }
    }
}

/// API cards of re-exports, re-export by re-export.
pub open spec fn rex_api_cards(rxs: Seq<ReexportView>, syms: Seq<SymbolView>, cands: Seq<SymbolView>, mr: ResolutionView, max: nat) -> Seq<ApiCardView>
    decreases rxs.len(),
{
    if rxs.len() == 0 {
        Seq::empty()
    } else {
        rex_api_cards(rxs.drop_last(), syms, cands, mr, max) + target_api_cards(
            rxs.last(),
            rex_targets(rxs.last(), syms, mr),
            cands,
            max,
        )
    }
}

/// Type cards of re-exports, re-export by re-export; a namespace re-export is a module card.
pub open spec fn rex_type_cards(rxs: Seq<ReexportView>, syms: Seq<SymbolView>, mr: ResolutionView, max: nat) -> Seq<TypeCardView>
    decreases rxs.len(),
{
    if rxs.len() == 0 {
        Seq::empty()
    } else {
        rex_type_cards(rxs.drop_last(), syms, mr, max) + if is_namespace(rxs.last()) {
            seq![namespace_card(rxs.last())]
        } else {
            target_type_cards(rxs.last(), rex_targets(rxs.last(), syms, mr), max)
        }
    }
}

fn local_matches_exec(rx: &Reexport, sym: &Symbol) -> (r: bool)
    ensures
        r == local_matches(rx@, sym@),
{
    if str_eq(sym.name.as_str(), rx.local_name.as_str()) {
        return true;
    }
    let is_default = match sym.export.export_kind {
        ExportKind::Default => true,
        _ => false,
    };
    is_default && str_eq(rx.local_name.as_str(), "default")
}

fn find_sym_exec(syms: &Vec<&Symbol>, rx: &Reexport, c: &Vec<char>) -> (r: Option<usize>)
    ensures
        match r {
            Some(i) => find_sym(sym_views(syms@), rx@, c@) == Some(i as int) && i < syms@.len(),
            None => find_sym(sym_views(syms@), rx@, c@) is None,
        },
{
    let ghost sv = sym_views(syms@);
    let mut i: usize = 0;
    assert(sv.skip(0) =~= sv);
    while i < syms.len()
        invariant
            0 <= i <= syms.len(),
            sv == sym_views(syms@),
            find_sym(sv, rx@, c@) == match find_sym(sv.skip(i as int), rx@, c@) {
                Some(j) => Some(j + i),
                None => None,
            },
        decreases syms.len() - i,
    {
        let sym = syms[i];
        assert(sv.skip(i as int)[0] == sym@);
        let p = surface_path_exec(sym.filepath.as_str());
        if local_matches_exec(rx, sym) && chars_eq(c, &p) {
            return Some(i);
        }
        assert(sv.skip(i as int).drop_first() =~= sv.skip(i + 1));
        i = i + 1;
    }
    None
}

fn resolve_target_exec<'a>(rx: &Reexport, syms: &Vec<&'a Symbol>, mr: &ModuleResolutionConfig) -> (r: Option<&'a Symbol>)
    ensures
        match r {
            Some(s) => resolve_target(rx@, sym_views(syms@), mr@) == Some(s@),
            None => resolve_target(rx@, sym_views(syms@), mr@) is None,
        },
{
    let cands = rex_candidates_exec(rx, mr);
    let ghost cv = cviews(cands@);
    let ghost sv = sym_views(syms@);
    let mut k: usize = 0;
    assert(cv.skip(0) =~= cv);
    while k < cands.len()
        invariant
            0 <= k <= cands.len(),
            cv == cviews(cands@),
            sv == sym_views(syms@),
            resolve_target(rx@, sv, mr@) == resolve_in(cv.skip(k as int), sv, rx@),
        decreases cands.len() - k,
    {
        assert(cv.skip(k as int)[0] == cands@[k as int]@);
        match find_sym_exec(syms, rx, &cands[k]) {
            Some(i) => {
                return Some(syms[i]);
            },
            None => {},
        }
        assert(cv.skip(k as int).drop_first() =~= cv.skip(k + 1));
        k = k + 1;
    }
    None
}

fn wild_targets_exec<'a>(rx: &Reexport, syms: &Vec<&'a Symbol>, mr: &ModuleResolutionConfig) -> (r: Vec<&'a Symbol>)
    ensures
        sym_views(r@) == wild_targets(rex_candidates(rx@, mr@), sym_views(syms@)),
{
    let cands = rex_candidates_exec(rx, mr);
    let ghost cv = cviews(cands@);
    let ghost sv = sym_views(syms@);
    let mut out: Vec<&'a Symbol> = Vec::new();
    let mut k: usize = 0;
    while k < cands.len()
        invariant
            0 <= k <= cands.len(),
            cv == cviews(cands@),
            sv == sym_views(syms@),
            sym_views(out@) == wild_targets(cv.subrange(0, k as int), sv),
        decreases cands.len() - k,
    {
        let c = &cands[k];
        proof {
            assert(cv.subrange(0, k + 1).drop_last() =~= cv.subrange(0, k as int));
            assert(cv.subrange(0, k + 1).last() == c@);
        }
        let ghost base = sym_views(out@);
        let mut i: usize = 0;
        while i < syms.len()
            invariant
                0 <= i <= syms.len(),
                k < cands.len(),
                c == &cands[k as int],
                sv == sym_views(syms@),
                sym_views(out@) == base + syms_at(sv.subrange(0, i as int), c@),
            decreases syms.len() - i,
        {
            let sym = syms[i];
            proof {
                assert(sv.subrange(0, i + 1).drop_last() =~= sv.subrange(0, i as int));
                assert(sv.subrange(0, i + 1).last() == sym@);
            }
            let p = surface_path_exec(sym.filepath.as_str());
            let not_default = match sym.export.export_kind {
                ExportKind::Default => false,
                _ => true,
            };
            let ghost pre = out@;
            if sym.export.is_surface_public() && not_default && chars_eq(c, &p) {
                out.push(sym);
                assert(sym_views(out@) =~= sym_views(pre).push(sym@));
            }
            assert(sym_views(out@) =~= base + syms_at(sv.subrange(0, i + 1), c@));
            i = i + 1;
        }
        assert(sv.subrange(0, i as int) =~= sv);
        k = k + 1;
    }
    assert(cv.subrange(0, k as int) =~= cv);
    out
}

fn rex_targets_exec<'a>(rx: &Reexport, syms: &Vec<&'a Symbol>, mr: &ModuleResolutionConfig) -> (r: Vec<&'a Symbol>)
    ensures
        sym_views(r@) == rex_targets(rx@, sym_views(syms@), mr@),
{
    if str_eq(rx.local_name.as_str(), "*") && str_eq(rx.exported_name.as_str(), "*") {
        wild_targets_exec(rx, syms, mr)
    } else {
        let mut out: Vec<&'a Symbol> = Vec::new();
        match resolve_target_exec(rx, syms, mr) {
            Some(t) => {
                out.push(t);
            },
            None => {},
        }
        assert(sym_views(out@) =~= rex_targets(rx@, sym_views(syms@), mr@));
        out
    }
}

fn join_strings(v: &Vec<String>, sep: &Vec<char>) -> (r: Vec<char>)
    ensures
        r@ == crate::text::join_with(views(v@), sep@),
{
    let ghost sv = views(v@);
    let mut out: Vec<char> = Vec::new();
    let mut i: usize = 0;
    while i < v.len()
        invariant
            0 <= i <= v.len(),
            sv == views(v@),
            out@ == crate::text::join_with(sv.subrange(0, i as int), sep@),
        decreases v.len() - i,
    {
        proof {
            crate::text::lemma_join_with_push(sv.subrange(0, i as int), sep@, sv[i as int]);
            assert(sv.subrange(0, i + 1) =~= sv.subrange(0, i as int).push(sv[i as int]));
        }
        if i > 0 {
            append_chars(&mut out, sep);
        }
        let w = to_chars(v[i].as_str());
        append_chars(&mut out, &w);
        i = i + 1;
    }
    assert(sv.subrange(0, i as int) =~= sv);
    out
}

fn card_name_exec(rx: &Reexport, sym: &Symbol) -> (r: String)
    ensures
        r@ == card_name(rx@, sym@),
{
    if str_eq(rx.local_name.as_str(), "*") && str_eq(rx.exported_name.as_str(), "*") {
        sym.name.clone()
    } else {
        rx.exported_name.clone()
    }
}

fn rex_signature_exec(sym: &Symbol, name: &String) -> (r: String)
    ensures
        r@ == rex_signature(sym@, name@),
{
    match sym.kind {
        SymbolKind::Function | SymbolKind::Method => {
            let mut out = to_chars(name.as_str());
            out.push('(');
            let mut sep: Vec<char> = Vec::new();
            sep.push(',');
            sep.push(' ');
            assert(sep@ =~= seq![',', ' ']);
            let joined = join_strings(&sym.params, &sep);
            append_chars(&mut out, &joined);
            out.push(')');
            assert(out@ =~= rex_signature(sym@, name@));
            from_chars(out.as_slice())
        },
        _ => name.clone(),
    }
}

fn rex_api_card_exec(rx: &Reexport, sym: &Symbol, cands: &Vec<&Symbol>, max: usize) -> (r: PublicApiCard)
    ensures
        r@ == rex_api_card(rx@, sym@, sym_views(cands@), max as nat),
{
    let name = card_name_exec(rx, sym);
    let tests = link_tests(sym, cands);
    let fp = surface_path_exec(rx.filepath.as_str());
    let score = surface_score_exec(sym, tests.len(), 30, rx.filepath.as_str());
    PublicApiCard {
        symbol_ref: build_surface_ref(SurfaceKind::Api, rx.filepath.as_str(), name.as_str(), rx.start_line),
        filepath: from_chars(fp.as_slice()),
        signature: rex_signature_exec(sym, &name),
        comment_summary: summary_exec(sym, max),
        flags: flags_exec(sym),
        publicness: Publicness::Reexported,
        tests,
        score: score + 1,
    }
}

fn rex_type_card_exec(rx: &Reexport, sym: &Symbol, max: usize) -> (r: PublicTypeCard)
    ensures
        r@ == rex_type_card(rx@, sym@, max as nat),
{
    let name = card_name_exec(rx, sym);
    let fp = surface_path_exec(rx.filepath.as_str());
    let score = surface_score_exec(sym, 0, 20, rx.filepath.as_str());
    PublicTypeCard {
        symbol_ref: build_surface_ref(SurfaceKind::Type, rx.filepath.as_str(), name.as_str(), rx.start_line),
        filepath: from_chars(fp.as_slice()),
        kind: sym.kind,
        signature: name,
        comment_summary: summary_exec(sym, max),
        flags: flags_exec(sym),
        publicness: Publicness::Reexported,
        score: score + 1,
    }
}

fn namespace_card_exec(rx: &Reexport) -> (r: PublicTypeCard)
    ensures
        r@ == namespace_card(rx@),
{
    let fp = surface_path_exec(rx.filepath.as_str());
    let summary = match &rx.source_specifier {
        Some(src) => {
            let mut v = to_chars("namespace re-export from ");
            let sv = to_chars(src.as_str());
            append_chars(&mut v, &sv);
            Some(from_chars(v.as_slice()))
        },
        None => None,
    };
    PublicTypeCard {
        symbol_ref: build_surface_ref(SurfaceKind::Type, rx.filepath.as_str(), rx.exported_name.as_str(), rx.start_line),
        filepath: from_chars(fp.as_slice()),
        kind: SymbolKind::Module,
        signature: rx.exported_name.clone(),
        comment_summary: summary,
        flags: Vec::new(),
        publicness: Publicness::Reexported,
        score: 21,
    }
}

fn rex_api_cards_exec(rxs: &Vec<&Reexport>, syms: &Vec<&Symbol>, cands: &Vec<&Symbol>, mr: &ModuleResolutionConfig, max: usize) -> (r: Vec<PublicApiCard>)
    ensures
        card_views(r@) == rex_api_cards(rex_views(rxs@), sym_views(syms@), sym_views(cands@), mr@, max as nat),
{
    let ghost rv = rex_views(rxs@);
    let mut out: Vec<PublicApiCard> = Vec::new();
    let mut i: usize = 0;
    while i < rxs.len()
        invariant
            0 <= i <= rxs.len(),
            rv == rex_views(rxs@),
            card_views(out@) == rex_api_cards(rv.subrange(0, i as int), sym_views(syms@), sym_views(cands@), mr@, max as nat),
        decreases rxs.len() - i,
    {
        let rx = rxs[i];
        proof {
            assert(rv.subrange(0, i + 1).drop_last() =~= rv.subrange(0, i as int));
            assert(rv.subrange(0, i + 1).last() == rx@);
        }
        let ts = rex_targets_exec(rx, syms, mr);
        let ghost tv = sym_views(ts@);
        let ghost base = card_views(out@);
        let mut k: usize = 0;
        while k < ts.len()
            invariant
                0 <= k <= ts.len(),
                tv == sym_views(ts@),
                card_views(out@) == base + target_api_cards(rx@, tv.subrange(0, k as int), sym_views(cands@), max as nat),
            decreases ts.len() - k,
        {
            let t = ts[k];
            proof {
                assert(tv.subrange(0, k + 1).drop_last() =~= tv.subrange(0, k as int));
                assert(tv.subrange(0, k + 1).last() == t@);
            }
            let is_fn = match t.kind {
                SymbolKind::Function => true,
                _ => false,
            };
            let ghost pre = out@;
            if is_fn {
                let card = rex_api_card_exec(rx, t, cands, max);
                out.push(card);
                assert(card_views(out@) =~= card_views(pre).push(card@));
            }
            assert(card_views(out@) =~= base + target_api_cards(rx@, tv.subrange(0, k + 1), sym_views(cands@), max as nat));
            k = k + 1;
        }
        assert(tv.subrange(0, k as int) =~= tv);
        i = i + 1;
    }
    assert(rv.subrange(0, i as int) =~= rv);
    out
}

fn rex_type_cards_exec(rxs: &Vec<&Reexport>, syms: &Vec<&Symbol>, mr: &ModuleResolutionConfig, max: usize) -> (r: Vec<PublicTypeCard>)
    ensures
        card_views(r@) == rex_type_cards(rex_views(rxs@), sym_views(syms@), mr@, max as nat),
{
    let ghost rv = rex_views(rxs@);
    let mut out: Vec<PublicTypeCard> = Vec::new();
    let mut i: usize = 0;
    while i < rxs.len()
        invariant
            0 <= i <= rxs.len(),
            rv == rex_views(rxs@),
            card_views(out@) == rex_type_cards(rv.subrange(0, i as int), sym_views(syms@), mr@, max as nat),
        decreases rxs.len() - i,
    {
        let rx = rxs[i];
        proof {
            assert(rv.subrange(0, i + 1).drop_last() =~= rv.subrange(0, i as int));
            assert(rv.subrange(0, i + 1).last() == rx@);
        }
        let ghost base = card_views(out@);
        if str_eq(rx.local_name.as_str(), "*") && !str_eq(rx.exported_name.as_str(), "*") {
            let card = namespace_card_exec(rx);
            out.push(card);
            assert(card_views(out@) =~= base + seq![namespace_card(rx@)]);
        } else {
            let ts = rex_targets_exec(rx, syms, mr);
            let ghost tv = sym_views(ts@);
            let mut k: usize = 0;
            while k < ts.len()
                invariant
                    0 <= k <= ts.len(),
                    tv == sym_views(ts@),
                    card_views(out@) == base + target_type_cards(rx@, tv.subrange(0, k as int), max as nat),
                decreases ts.len() - k,
            {
                let t = ts[k];
                proof {
                    assert(tv.subrange(0, k + 1).drop_last() =~= tv.subrange(0, k as int));
                    assert(tv.subrange(0, k + 1).last() == t@);
                }
                let ghost pre = out@;
                if is_type_kind_exec(t.kind) {
                    let card = rex_type_card_exec(rx, t, max);
                    out.push(card);
                    assert(card_views(out@) =~= card_views(pre).push(card@));
                }
                assert(card_views(out@) =~= base + target_type_cards(rx@, tv.subrange(0, k + 1), max as nat));
                k = k + 1;
            }
            assert(tv.subrange(0, k as int) =~= tv);
        }
        i = i + 1;
    }
    assert(rv.subrange(0, i as int) =~= rv);
    out
}


// ---------------------------------------------------------------------------
// Linked tests of the surfaced APIs
// ---------------------------------------------------------------------------

/// `s` with `x` appended unless it already holds it.
pub open spec fn push_unique<V>(s: Seq<V>, x: V) -> Seq<V> {
    if s.contains(x) {
        s
    } else {
        s.push(x)
    }
}

/// `rs` with each of `add`'s reasons appended unless already there.
pub open spec fn merge_reasons(rs: Seq<TestLinkReason>, add: Seq<TestLinkReason>) -> Seq<TestLinkReason>
    decreases add.len(),
{
    if add.len() == 0 {
        rs
    } else {
        push_unique(merge_reasons(rs, add.drop_last()), add.last())
    }
}

/// The first test card with reference `r`.
pub open spec fn find_card(cards: Seq<TestCardView>, r: Seq<char>) -> Option<int>
    decreases cards.len(),
{
    if cards.len() == 0 {
        None
    } else if cards[0].test_ref == r {
        Some(0)
    } else {
        match find_card(cards.drop_first(), r) {
            Some(i) => Some(i + 1),
            None => None,
        }
    }
}

/// Record test link `t` of the API `api_ref`: merged into the card of the same test, or a new
/// card.
pub open spec fn add_test(cards: Seq<TestCardView>, api_ref: Seq<char>, t: TestLinkView) -> Seq<TestCardView> {
    match find_card(cards, t.test_ref) {
        Some(i) => cards.update(
            i,
            TestCardView {
                test_ref: cards[i].test_ref,
                filepath: cards[i].filepath,
                display_name: cards[i].display_name,
                linked_symbols: push_unique(cards[i].linked_symbols, api_ref),
                reasons: merge_reasons(cards[i].reasons, t.reasons),
                score: if cards[i].score >= t.score { cards[i].score } else { t.score },
            },
        ),
        None => cards.push(
            TestCardView {
                test_ref: t.test_ref,
                filepath: t.filepath,
                display_name: t.display_name,
                linked_symbols: seq![api_ref],
                reasons: t.reasons,
                score: t.score,
            },
        ),
    }
}

/// Record the test links of one API.
pub open spec fn add_tests(cards: Seq<TestCardView>, api_ref: Seq<char>, ts: Seq<TestLinkView>) -> Seq<TestCardView>
    decreases ts.len(),
{
    if ts.len() == 0 {
        cards
    } else {
        add_test(add_tests(cards, api_ref, ts.drop_last()), api_ref, ts.last())
    }
}

/// One card per test linked to any of the APIs.
pub open spec fn collect_tests(apis: Seq<ApiCardView>) -> Seq<TestCardView>
    decreases apis.len(),
{
    if apis.len() == 0 {
        Seq::empty()
    } else {
        add_tests(collect_tests(apis.drop_last()), apis.last().symbol_ref, apis.last().tests)
    }
}

/// Exec: whether `x` is one of the strings of `v`.
pub fn contains_string(v: &Vec<String>, x: &String) -> (r: bool)
    ensures
        r == views(v@).contains(x@),
{
    let mut i: usize = 0;
    while i < v.len()
        invariant
            0 <= i <= v.len(),
            forall|j: int| 0 <= j < i ==> views(v@)[j] != x@,
        decreases v.len() - i,
    {
        if str_eq(v[i].as_str(), x.as_str()) {
            assert(views(v@)[i as int] == x@);
            return true;
        }
        i = i + 1;
    }
    proof {
        if views(v@).contains(x@) {
            let j = choose|j: int| 0 <= j < views(v@).len() && views(v@)[j] == x@;
            assert(views(v@)[j] != x@);
        }
    }
    false
}

fn contains_reason(v: &Vec<TestLinkReason>, x: TestLinkReason) -> (r: bool)
    ensures
        r == v@.contains(x),
{
    let mut i: usize = 0;
    while i < v.len()
        invariant
            0 <= i <= v.len(),
            forall|j: int| 0 <= j < i ==> v@[j] != x,
        decreases v.len() - i,
    {
        if v[i] == x {
            return true;
        }
        i = i + 1;
    }
    false
}

fn find_card_exec(cards: &Vec<TestCard>, r: &String) -> (res: Option<usize>)
    ensures
        match res {
            Some(i) => find_card(card_views(cards@), r@) == Some(i as int) && i < cards@.len(),
            None => find_card(card_views(cards@), r@) is None,
        },
{
    let ghost cv = card_views(cards@);
    let mut i: usize = 0;
    assert(cv.skip(0) =~= cv);
    while i < cards.len()
        invariant
            0 <= i <= cards.len(),
            cv == card_views(cards@),
            find_card(cv, r@) == match find_card(cv.skip(i as int), r@) {
                Some(j) => Some(j + i),
                None => None,
            },
        decreases cards.len() - i,
    {
        assert(cv.skip(i as int)[0] == cards@[i as int]@);
        if str_eq(cards[i].test_ref.as_str(), r.as_str()) {
            return Some(i);
        }
        assert(cv.skip(i as int).drop_first() =~= cv.skip(i + 1));
        i = i + 1;
    }
    None
}

fn add_test_exec(cards: &mut Vec<TestCard>, api_ref: &String, t: &TestLink)
    ensures
        card_views(final(cards)@) == add_test(card_views(old(cards)@), api_ref@, t@),
{
    let ghost cv = card_views(cards@);
    match find_card_exec(cards, &t.test_ref) {
        Some(i) => {
            let existing = &cards[i];
            let mut linked = crate::text::clone_strings(&existing.linked_symbols);
            if !contains_string(&linked, api_ref) {
                let a = api_ref.clone();
                proof {
                    crate::text::lemma_views_push(linked@, a);
                }
                linked.push(a);
            }
            let mut reasons = copy_vec(&existing.reasons);
            let mut k: usize = 0;
            while k < t.reasons.len()
                invariant
                    0 <= k <= t.reasons.len(),
                    reasons@ == merge_reasons(existing.reasons@, t.reasons@.subrange(0, k as int)),
                decreases t.reasons.len() - k,
            {
                let x = t.reasons[k];
                proof {
                    assert(t.reasons@.subrange(0, k + 1).drop_last() =~= t.reasons@.subrange(0, k as int));
                }
                if !contains_reason(&reasons, x) {
                    reasons.push(x);
                }
                k = k + 1;
            }
            assert(t.reasons@.subrange(0, k as int) =~= t.reasons@);
            let score = if existing.score >= t.score { existing.score } else { t.score };
            let card = TestCard {
                test_ref: existing.test_ref.clone(),
                filepath: existing.filepath.clone(),
                display_name: existing.display_name.clone(),
                linked_symbols: linked,
                reasons,
                score,
            };
            let ghost pre = cards@;
            cards.set(i, card);
            assert(card_views(cards@) =~= card_views(pre).update(i as int, card@));
        },
        None => {
            let mut linked: Vec<String> = Vec::new();
            let a = api_ref.clone();
            linked.push(a);
            assert(views(linked@) =~= seq![api_ref@]);
            let card = TestCard {
                test_ref: t.test_ref.clone(),
                filepath: t.filepath.clone(),
                display_name: t.display_name.clone(),
                linked_symbols: linked,
                reasons: copy_vec(&t.reasons),
                score: t.score,
            };
            let ghost pre = cards@;
            cards.push(card);
            assert(card_views(cards@) =~= card_views(pre).push(card@));
        },
    }
}

fn collect_public_api_tests(apis: &Vec<PublicApiCard>) -> (r: Vec<TestCard>)
    ensures
        card_views(r@) == collect_tests(card_views(apis@)),
{
    let ghost av = card_views(apis@);
    let mut cards: Vec<TestCard> = Vec::new();
    let mut i: usize = 0;
    while i < apis.len()
        invariant
            0 <= i <= apis.len(),
            av == card_views(apis@),
            card_views(cards@) == collect_tests(av.subrange(0, i as int)),
        decreases apis.len() - i,
    {
        let api = &apis[i];
        proof {
            assert(av.subrange(0, i + 1).drop_last() =~= av.subrange(0, i as int));
            assert(av.subrange(0, i + 1).last() == api@);
        }
        let ghost base = card_views(cards@);
        let ghost tv = card_views(api.tests@);
        let mut k: usize = 0;
        while k < api.tests.len()
            invariant
                0 <= k <= api.tests.len(),
                tv == card_views(api.tests@),
                card_views(cards@) == add_tests(base, api.symbol_ref@, tv.subrange(0, k as int)),
            decreases api.tests.len() - k,
        {
            proof {
                assert(tv.subrange(0, k + 1).drop_last() =~= tv.subrange(0, k as int));
                assert(tv.subrange(0, k + 1).last() == api.tests@[k as int]@);
            }
            add_test_exec(&mut cards, &api.symbol_ref, &api.tests[k]);
            k = k + 1;
        }
        assert(tv.subrange(0, k as int) =~= tv);
        i = i + 1;
    }
    assert(av.subrange(0, i as int) =~= av);
    cards
}

// ---------------------------------------------------------------------------
// Entry hints and coverage
// ---------------------------------------------------------------------------

/// Follow-up hints: the top two APIs, the top type and the top linked test.
pub open spec fn entry_hints(apis: Seq<ApiCardView>, types: Seq<TypeCardView>, tests: Seq<TestCardView>) -> Seq<HintView> {
    truncate(apis, 2).map_values(
        |a: ApiCardView|
            HintView {
                action: HintAction::InspectSymbol,
                target: a.symbol_ref,
                label: a.signature,
                reason: "top public API"@,
            },
    ) + truncate(types, 1).map_values(
        |t: TypeCardView|
            HintView {
                action: HintAction::InspectSymbol,
                target: t.symbol_ref,
                label: t.signature,
                reason: "top public type"@,
            },
    ) + truncate(tests, 1).map_values(
        |t: TestCardView|
            HintView {
                action: HintAction::ReadPath,
                target: t.filepath,
                label: t.display_name,
                reason: "top linked test"@,
            },
    )
}

fn build_entry_hints(apis: &Vec<PublicApiCard>, types: &Vec<PublicTypeCard>, tests: &Vec<TestCard>) -> (r: Vec<HintCard>)
    ensures
        card_views(r@) == entry_hints(card_views(apis@), card_views(types@), card_views(tests@)),
{
    let mut hints: Vec<HintCard> = Vec::new();
    let ghost av = truncate(card_views(apis@), 2);
    let na: usize = if apis.len() < 2 { apis.len() } else { 2 };
    let mut i: usize = 0;
    while i < na
        invariant
            0 <= i <= na,
            na == av.len(),
            na <= apis.len(),
            av == truncate(card_views(apis@), 2),
            card_views(hints@) == av.subrange(0, i as int).map_values(
                |a: ApiCardView|
                    HintView {
                        action: HintAction::InspectSymbol,
                        target: a.symbol_ref,
                        label: a.signature,
                        reason: "top public API"@,
                    },
            ),
        decreases na - i,
    {
        let api = &apis[i];
        let h = HintCard {
            action: HintAction::InspectSymbol,
            target: api.symbol_ref.clone(),
            label: api.signature.clone(),
            reason: string_of("top public API"),
        };
        let ghost pre = hints@;
        hints.push(h);
        assert(av[i as int] == api@);
        assert(card_views(hints@) =~= card_views(pre).push(h@));
        i = i + 1;
        assert(card_views(hints@) =~= av.subrange(0, i as int).map_values(
            |a: ApiCardView|
                HintView {
                    action: HintAction::InspectSymbol,
                    target: a.symbol_ref,
                    label: a.signature,
                    reason: "top public API"@,
                },
        ));
    }
    assert(av.subrange(0, i as int) =~= av);
    let ghost h1 = card_views(hints@);
    if types.len() > 0 {
        let t = &types[0];
        let h = HintCard {
            action: HintAction::InspectSymbol,
            target: t.symbol_ref.clone(),
            label: t.signature.clone(),
            reason: string_of("top public type"),
        };
        hints.push(h);
    }
    let ghost h2 = card_views(hints@);
    assert(h2 =~= h1 + truncate(card_views(types@), 1).map_values(
        |t: TypeCardView|
            HintView {
                action: HintAction::InspectSymbol,
                target: t.symbol_ref,
                label: t.signature,
                reason: "top public type"@,
            },
    ));
    if tests.len() > 0 {
        let t = &tests[0];
        let h = HintCard {
            action: HintAction::ReadPath,
            target: t.filepath.clone(),
            label: t.display_name.clone(),
            reason: string_of("top linked test"),
        };
        hints.push(h);
    }
    assert(card_views(hints@) =~= h2 + truncate(card_views(tests@), 1).map_values(
        |t: TestCardView|
            HintView {
                action: HintAction::ReadPath,
                target: t.filepath,
                label: t.display_name,
                reason: "top linked test"@,
            },
    ));
    hints
}

/// The content of a coverage summary.
pub struct CoverageView {
    pub publicness: CoverageStatus,
    pub comment_normalization: CoverageStatus,
    pub test_linkage: CoverageStatus,
    pub notes: Seq<Seq<char>>,
}

impl View for CoverageSummary {
    type V = CoverageView;

    open spec fn view(&self) -> CoverageView {
        CoverageView {
            publicness: self.publicness,
            comment_normalization: self.comment_normalization,
            test_linkage: self.test_linkage,
            notes: views(self.notes@),
        }
    }
}

/// The symbols of surfaced kinds.
pub open spec fn surface_syms(syms: Seq<SymbolView>) -> Seq<SymbolView>
    decreases syms.len(),
{
    if syms.len() == 0 {
        Seq::empty()
    } else if is_surface_kind(syms.last().kind) {
        surface_syms(syms.drop_last()).push(syms.last())
    } else {
        surface_syms(syms.drop_last())
    }
}

/// Coverage of publicness detection over the surfaced symbols.
pub open spec fn publicness_coverage(ss: Seq<SymbolView>) -> CoverageStatus {
    if ss.len() == 0 {
        CoverageStatus::Unsupported
    } else if exists|i: int| 0 <= i < ss.len() && (#[trigger] ss[i]).export.publicness == Publicness::Unknown {
        CoverageStatus::Partial
    } else {
        CoverageStatus::Complete
    }
}

/// Coverage of comment normalization over the surfaced symbols.
pub open spec fn comment_coverage(ss: Seq<SymbolView>) -> CoverageStatus {
    if ss.len() == 0 {
        CoverageStatus::Unsupported
    } else if forall|i: int| 0 <= i < ss.len() ==> (#[trigger] ss[i]).comment is Some {
        CoverageStatus::Complete
    } else {
        CoverageStatus::Partial
    }
}

/// Coverage of test linkage over the surfaced APIs.
pub open spec fn test_coverage(apis: Seq<ApiCardView>) -> CoverageStatus {
    if apis.len() == 0 {
        CoverageStatus::Unsupported
    } else if forall|i: int| 0 <= i < apis.len() ==> (#[trigger] apis[i]).tests.len() > 0 {
        CoverageStatus::Complete
    } else if exists|i: int| 0 <= i < apis.len() && (#[trigger] apis[i]).tests.len() > 0 {
        CoverageStatus::Partial
    } else {
        CoverageStatus::Unsupported
    }
}

/// The coverage summary of an overview, with a note for each partial dimension.
pub open spec fn coverage_of(syms: Seq<SymbolView>, apis: Seq<ApiCardView>) -> CoverageView {
    let ss = surface_syms(syms);
    let p = publicness_coverage(ss);
    let c = comment_coverage(ss);
    let t = test_coverage(apis);
    CoverageView {
        publicness: p,
        comment_normalization: c,
        test_linkage: t,
        notes: (if p == CoverageStatus::Partial {
            seq!["some symbol publicness values remain unknown"@]
        } else {
            Seq::empty()
        }) + (if c == CoverageStatus::Partial {
            seq!["some surfaced symbols have no normalized comment summary"@]
        } else {
            Seq::empty()
        }) + (if t == CoverageStatus::Partial {
            seq!["linked tests were found for only part of the public API surface"@]
        } else {
            Seq::empty()
        }),
    }
}

fn push_note(notes: &mut Vec<String>, note: &str)
    ensures
        views(final(notes)@) == views(old(notes)@).push(note@),
{
    let s = string_of(note);
    proof {
        crate::text::lemma_views_push(notes@, s);
    }
    notes.push(s);
}

fn build_coverage_summary(syms: &Vec<&Symbol>, apis: &Vec<PublicApiCard>) -> (r: CoverageSummary)
    ensures
        r@ == coverage_of(sym_views(syms@), card_views(apis@)),
{
    let ghost sv = sym_views(syms@);
    let mut surface: Vec<&Symbol> = Vec::new();
    let mut i: usize = 0;
    while i < syms.len()
        invariant
            0 <= i <= syms.len(),
            sv == sym_views(syms@),
            sym_views(surface@) == surface_syms(sv.subrange(0, i as int)),
        decreases syms.len() - i,
    {
        let sym = syms[i];
        proof {
            assert(sv.subrange(0, i + 1).drop_last() =~= sv.subrange(0, i as int));
            assert(sv.subrange(0, i + 1).last() == sym@);
        }
        let is_fn = match sym.kind {
            SymbolKind::Function => true,
            _ => false,
        };
        let ghost pre = surface@;
        if is_fn || is_type_kind_exec(sym.kind) {
            surface.push(sym);
            assert(sym_views(surface@) =~= sym_views(pre).push(sym@));
        }
        i = i + 1;
    }
    assert(sv.subrange(0, i as int) =~= sv);
    let ghost ss = sym_views(surface@);
    // publicness
    let mut any_unknown = false;
    let mut all_commented = true;
    let mut k: usize = 0;
    while k < surface.len()
        invariant
            0 <= k <= surface.len(),
            ss == sym_views(surface@),
            any_unknown == exists|j: int| 0 <= j < k && (#[trigger] ss[j]).export.publicness == Publicness::Unknown,
            all_commented == forall|j: int| 0 <= j < k ==> (#[trigger] ss[j]).comment is Some,
        decreases surface.len() - k,
    {
        let sym = surface[k];
        assert(ss[k as int] == sym@);
        match sym.export.publicness {
            Publicness::Unknown => {
                any_unknown = true;
            },
            _ => {},
        }
        if sym.comment.is_none() {
            all_commented = false;
        }
        k = k + 1;
    }
    let publicness = if surface.len() == 0 {
        CoverageStatus::Unsupported
    } else if any_unknown {
        CoverageStatus::Partial
    } else {
        CoverageStatus::Complete
    };
    let comment_normalization = if surface.len() == 0 {
        CoverageStatus::Unsupported
    } else if all_commented {
        CoverageStatus::Complete
    } else {
        CoverageStatus::Partial
    };
    let ghost av = card_views(apis@);
    let mut all_linked = true;
    let mut any_linked = false;
    let mut m: usize = 0;
    while m < apis.len()
        invariant
            0 <= m <= apis.len(),
            av == card_views(apis@),
            all_linked == forall|j: int| 0 <= j < m ==> (#[trigger] av[j]).tests.len() > 0,
            any_linked == exists|j: int| 0 <= j < m && (#[trigger] av[j]).tests.len() > 0,
        decreases apis.len() - m,
    {
        assert(av[m as int] == apis@[m as int]@);
        if apis[m].tests.len() > 0 {
            any_linked = true;
        } else {
            all_linked = false;
        }
        m = m + 1;
    }
    let test_linkage = if apis.len() == 0 {
        CoverageStatus::Unsupported
    } else if all_linked {
        CoverageStatus::Complete
    } else if any_linked {
        CoverageStatus::Partial
    } else {
        CoverageStatus::Unsupported
    };
    let mut notes: Vec<String> = Vec::new();
    let ghost n0 = views(notes@);
    if publicness == CoverageStatus::Partial {
        push_note(&mut notes, "some symbol publicness values remain unknown");
    }
    if comment_normalization == CoverageStatus::Partial {
        push_note(&mut notes, "some surfaced symbols have no normalized comment summary");
    }
    if test_linkage == CoverageStatus::Partial {
        push_note(&mut notes, "linked tests were found for only part of the public API surface");
    }
    let r = CoverageSummary { publicness, comment_normalization, test_linkage, notes };
    assert(r@.notes =~= coverage_of(sv, av).notes);
    r
}

// ---------------------------------------------------------------------------
// The overview
// ---------------------------------------------------------------------------

/// The content of an overview.
pub struct OverviewView {
    pub repo: Seq<char>,
    pub coverage: CoverageView,
    pub truncated: bool,
    pub public_apis: Seq<ApiCardView>,
    pub public_types: Seq<TypeCardView>,
    pub public_api_tests: Seq<TestCardView>,
    pub entry_hints: Seq<HintView>,
}

impl View for InvestigationOverview {
    type V = OverviewView;

    open spec fn view(&self) -> OverviewView {
        OverviewView {
            repo: self.meta.repo@,
            coverage: self.meta.coverage@,
            truncated: self.meta.truncated,
            public_apis: card_views(self.public_apis@),
            public_types: card_views(self.public_types@),
            public_api_tests: card_views(self.public_api_tests@),
            entry_hints: card_views(self.entry_hints@),
        }
    }
}

/// The API cards before ranking: public function symbols, then re-exported functions.
pub open spec fn candidate_apis(docs: Seq<IndexDocumentView>, mr: ResolutionView, max: nat) -> Seq<ApiCardView> {
    let syms = syms_of(docs);
    api_cards(syms, test_cands(syms), max, false) + rex_api_cards(rexs_of(docs), syms, test_cands(syms), mr, max)
}

/// The type cards before ranking: public type symbols, then re-exported types.
pub open spec fn candidate_types(docs: Seq<IndexDocumentView>, mr: ResolutionView, max: nat) -> Seq<TypeCardView> {
    let syms = syms_of(docs);
    type_cards(syms, max, false) + rex_type_cards(rexs_of(docs), syms, mr, max)
}

/// Whether the overview falls back to symbols of unknown publicness: nothing public surfaced.
pub open spec fn uses_fallback(docs: Seq<IndexDocumentView>, mr: ResolutionView, max: nat) -> bool {
    candidate_apis(docs, mr, max).len() == 0 && candidate_types(docs, mr, max).len() == 0
}

/// All ranked API cards, before the budget cuts them.
pub open spec fn ranked_apis(docs: Seq<IndexDocumentView>, mr: ResolutionView, max: nat) -> Seq<ApiCardView> {
    let syms = syms_of(docs);
    ranked_sort::<PublicApiCard>(
        if uses_fallback(docs, mr, max) {
            api_cards(syms, test_cands(syms), max, true)
        } else {
            candidate_apis(docs, mr, max)
        },
    )
}

/// All ranked type cards, before the budget cuts them.
pub open spec fn ranked_types(docs: Seq<IndexDocumentView>, mr: ResolutionView, max: nat) -> Seq<TypeCardView> {
    ranked_sort::<PublicTypeCard>(
        if uses_fallback(docs, mr, max) {
            type_cards(syms_of(docs), max, true)
        } else {
            candidate_types(docs, mr, max)
        },
    )
}

/// All ranked test cards of the ranked APIs, before the budget cuts them.
pub open spec fn ranked_tests(docs: Seq<IndexDocumentView>, mr: ResolutionView, max: nat) -> Seq<TestCardView> {
    ranked_sort::<TestCard>(collect_tests(ranked_apis(docs, mr, max)))
}

/// The overview of a corpus under a render budget.
pub open spec fn overview_of(docs: Seq<IndexDocumentView>, mr: ResolutionView, repo: Seq<char>, b: OverviewBudget) -> OverviewView {
    let max = b.max_comment_chars as nat;
    let all_apis = ranked_apis(docs, mr, max);
    let all_types = ranked_types(docs, mr, max);
    let all_tests = ranked_tests(docs, mr, max);
    let apis = truncate(all_apis, b.max_apis as int);
    let types = truncate(all_types, b.max_types as int);
    let tests = truncate(all_tests, b.max_tests as int);
    let all_hints = entry_hints(apis, types, tests);
    let truncated = all_apis.len() > b.max_apis || all_types.len() > b.max_types || all_tests.len()
        > b.max_tests || all_hints.len() > b.max_hints;
    let cov = coverage_of(syms_of(docs), apis);
    let fell_back = uses_fallback(docs, mr, max) && (apis.len() > 0 || types.len() > 0);
    OverviewView {
        repo,
        coverage: CoverageView {
            publicness: cov.publicness,
            comment_normalization: cov.comment_normalization,
            test_linkage: cov.test_linkage,
            notes: cov.notes + (if fell_back {
                seq!["overview fell back to symbols with unknown publicness"@]
            } else {
                Seq::empty()
            }) + (if truncated {
                seq!["overview output truncated by render budget"@]
            } else {
                Seq::empty()
            }),
        },
        truncated,
        public_apis: apis,
        public_types: types,
        public_api_tests: tests,
        entry_hints: truncate(all_hints, b.max_hints as int),
    }
}

/// Build a deterministic overview from a persisted corpus: public APIs, public types, their
/// linked tests and follow-up hints, each ranked and cut to the budget, with coverage notes.
pub fn build_overview(corpus: &InvestigationCorpus, repo: &str, budget: OverviewBudget) -> (r: InvestigationOverview)
    ensures
        r@ == overview_of(doc_views(corpus.documents@), corpus.module_resolution@, repo@, budget),
{
    let max = budget.max_comment_chars;
    let ghost docs = doc_views(corpus.documents@);
    let ghost mr = corpus.module_resolution@;
    let (symbols, reexports) = collect_symbols(&corpus.documents);
    let test_candidates = test_cands_exec(&symbols);
    let mut public_apis = api_cards_exec(&symbols, &test_candidates, max, false);
    let rex_apis = rex_api_cards_exec(&reexports, &symbols, &test_candidates, &corpus.module_resolution, max);
    let mut public_types = type_cards_exec(&symbols, max, false);
    let rex_types = rex_type_cards_exec(&reexports, &symbols, &corpus.module_resolution, max);
    let ghost a0 = card_views(public_apis@);
    let ghost t0 = card_views(public_types@);
    append_cards(&mut public_apis, rex_apis);
    append_cards(&mut public_types, rex_types);
    assert(card_views(public_apis@) == candidate_apis(docs, mr, max as nat));
    assert(card_views(public_types@) == candidate_types(docs, mr, max as nat));
    let used_unknown_fallback = public_apis.len() == 0 && public_types.len() == 0;
    assert(used_unknown_fallback == uses_fallback(docs, mr, max as nat));
    if used_unknown_fallback {
        public_apis = api_cards_exec(&symbols, &test_candidates, max, true);
        public_types = type_cards_exec(&symbols, max, true);
    }
    let public_apis = sort_ranked(public_apis);
    let public_types = sort_ranked(public_types);
    assert(card_views(public_apis@) == ranked_apis(docs, mr, max as nat));
    assert(card_views(public_types@) == ranked_types(docs, mr, max as nat));
    let tests = collect_public_api_tests(&public_apis);
    let public_api_tests = sort_ranked(tests);
    assert(card_views(public_api_tests@) == ranked_tests(docs, mr, max as nat));
    let mut public_apis = public_apis;
    let mut public_types = public_types;
    let mut public_api_tests = public_api_tests;
    let ghost all_apis = public_apis@;
    let ghost all_types = public_types@;
    let ghost all_tests = public_api_tests@;
    let mut truncated = public_apis.len() > budget.max_apis;
    truncate_vec(&mut public_apis, budget.max_apis);
    if public_types.len() > budget.max_types {
        truncated = true;
    }
    truncate_vec(&mut public_types, budget.max_types);
    if public_api_tests.len() > budget.max_tests {
        truncated = true;
    }
    truncate_vec(&mut public_api_tests, budget.max_tests);
    proof {
        lemma_truncate_views(all_apis, budget.max_apis as int);
        lemma_truncate_views(all_types, budget.max_types as int);
        lemma_truncate_views(all_tests, budget.max_tests as int);
    }
    let mut entry_hints = build_entry_hints(&public_apis, &public_types, &public_api_tests);
    let ghost all_hints = entry_hints@;
    if entry_hints.len() > budget.max_hints {
        truncated = true;
    }
    truncate_vec(&mut entry_hints, budget.max_hints);
    proof {
        lemma_truncate_views(all_hints, budget.max_hints as int);
    }
    let ghost ov = overview_of(docs, mr, repo@, budget);
    assert(truncated == ov.truncated);
    assert(card_views(public_apis@) == ov.public_apis);
    assert(card_views(public_types@) == ov.public_types);
    assert(card_views(public_api_tests@) == ov.public_api_tests);
    assert(card_views(entry_hints@) == ov.entry_hints);
    let mut coverage = build_coverage_summary(&symbols, &public_apis);
    let ghost n0 = views(coverage.notes@);
    if used_unknown_fallback && (public_apis.len() > 0 || public_types.len() > 0) {
        push_note(&mut coverage.notes, "overview fell back to symbols with unknown publicness");
    }
    let ghost n1 = views(coverage.notes@);
    assert(n1 =~= n0 + (if uses_fallback(docs, mr, max as nat) && (ov.public_apis.len() > 0 || ov.public_types.len() > 0) {
        seq!["overview fell back to symbols with unknown publicness"@]
    } else {
        Seq::empty()
    }));
    if truncated {
        push_note(&mut coverage.notes, "overview output truncated by render budget");
    }
    assert(views(coverage.notes@) =~= ov.coverage.notes);
    let r = InvestigationOverview {
        meta: OverviewMeta { repo: string_of(repo), coverage, truncated },
        public_apis,
        public_types,
        public_api_tests,
        entry_hints,
    };
    r
}

proof fn lemma_truncate_views<T: View>(s: Seq<T>, n: int)
    requires
        n >= 0,
    ensures
        card_views(truncate(s, n)) == truncate(card_views(s), n),
{
    assert(card_views(truncate(s, n)) =~= truncate(card_views(s), n));
}

fn append_cards<T: View>(dst: &mut Vec<T>, src: Vec<T>)
    ensures
        card_views(final(dst)@) == card_views(old(dst)@) + card_views(src@),
{
    let ghost d0 = card_views(dst@);
    let ghost sv = card_views(src@);
    let mut rest = src;
    let ghost mut k: int = 0;
    while rest.len() > 0
        invariant
            0 <= k <= sv.len(),
            card_views(rest@) == sv.subrange(k, sv.len() as int),
            card_views(dst@) == d0 + sv.subrange(0, k),
        decreases rest.len(),
    {
        let ghost before_rest = rest@;
        assert(card_views(rest@).len() == rest@.len());
        let x = rest.remove(0);
        proof {
            assert(card_views(before_rest)[0] == x@);
            assert(card_views(rest@) =~= card_views(before_rest).drop_first());
        }
        let ghost pre = dst@;
        dst.push(x);
        proof {
            assert(card_views(dst@) =~= card_views(pre).push(x@));
            assert(sv.subrange(k, sv.len() as int)[0] == sv[k]);
            assert(sv.subrange(0, k + 1) =~= sv.subrange(0, k).push(sv[k]));
            assert(card_views(rest@) =~= sv.subrange(k + 1, sv.len() as int));
            k = k + 1;
        }
    }
    assert(sv.subrange(0, k) =~= sv);
}


// ---------------------------------------------------------------------------
// Laws of the overview
// ---------------------------------------------------------------------------

proof fn lemma_truncate_ranked<T: Ranked>(s: Seq<T::V>, n: int)
    requires
        is_ranked::<T>(s),
        n >= 0,
    ensures
        is_ranked::<T>(truncate(s, n)),
        truncate(s, n).len() <= n,
        truncate(s, n).len() == if s.len() > n { n } else { s.len() as int },
{
}

/// Every list of an overview is ranked (highest score first, then by path and reference) and
/// within its budget; the overview is marked truncated exactly when a list was cut, and then
/// its coverage notes say so.
pub proof fn lemma_overview_ranked_within_budget(
    docs: Seq<IndexDocumentView>,
    mr: ResolutionView,
    repo: Seq<char>,
    b: OverviewBudget,
)
    ensures
        ({
            let ov = overview_of(docs, mr, repo, b);
            let max = b.max_comment_chars as nat;
            &&& is_ranked::<PublicApiCard>(ov.public_apis)
            &&& is_ranked::<PublicTypeCard>(ov.public_types)
            &&& is_ranked::<TestCard>(ov.public_api_tests)
            &&& ov.public_apis.len() <= b.max_apis
            &&& ov.public_types.len() <= b.max_types
            &&& ov.public_api_tests.len() <= b.max_tests
            &&& ov.entry_hints.len() <= b.max_hints
            &&& ov.truncated == (ranked_apis(docs, mr, max).len() > b.max_apis
                || ranked_types(docs, mr, max).len() > b.max_types
                || ranked_tests(docs, mr, max).len() > b.max_tests
                || entry_hints(ov.public_apis, ov.public_types, ov.public_api_tests).len() > b.max_hints)
            &&& ov.truncated ==> ov.coverage.notes.last() == "overview output truncated by render budget"@
        }),
{
    let max = b.max_comment_chars as nat;
    let syms = syms_of(docs);
    let a = if uses_fallback(docs, mr, max) {
        api_cards(syms, test_cands(syms), max, true)
    } else {
        candidate_apis(docs, mr, max)
    };
    let t = if uses_fallback(docs, mr, max) {
        type_cards(syms, max, true)
    } else {
        candidate_types(docs, mr, max)
    };
    lemma_ranked_sort_ranked::<PublicApiCard>(a);
    lemma_ranked_sort_ranked::<PublicTypeCard>(t);
    lemma_ranked_sort_ranked::<TestCard>(collect_tests(ranked_apis(docs, mr, max)));
    lemma_truncate_ranked::<PublicApiCard>(ranked_apis(docs, mr, max), b.max_apis as int);
    lemma_truncate_ranked::<PublicTypeCard>(ranked_types(docs, mr, max), b.max_types as int);
    lemma_truncate_ranked::<TestCard>(ranked_tests(docs, mr, max), b.max_tests as int);
}

/// The test links of a symbol are at most three, ranked, each with a reason.
pub proof fn lemma_linked_tests_ranked(sym: SymbolView, cands: Seq<SymbolView>)
    ensures
        linked_tests(sym, cands).len() <= 3,
        is_ranked::<TestLink>(linked_tests(sym, cands)),
        forall|i: int| 0 <= i < linked_tests(sym, cands).len() ==> (#[trigger] linked_tests(sym, cands)[i]).reasons.len() > 0,
{
    let raw = raw_links(sym, cands);
    lemma_raw_links_have_reasons(sym, cands);
    lemma_ranked_sort_ranked::<TestLink>(raw);
    crate::rank::lemma_ranked_sort_perm::<TestLink>(raw);
    lemma_truncate_ranked::<TestLink>(ranked_sort::<TestLink>(raw), 3);
    let sorted = ranked_sort::<TestLink>(raw);
    assert forall|i: int| 0 <= i < linked_tests(sym, cands).len() implies (#[trigger] linked_tests(sym, cands)[i]).reasons.len() > 0 by {
        let x = sorted[i];
        assert(sorted.to_multiset().count(x) > 0) by {
            vstd::seq_lib::lemma_seq_contains_after_push::<TestLinkView>(Seq::empty(), x, x);
            broadcast use vstd::seq_lib::group_to_multiset_ensures;
            assert(sorted.contains(x));
        }
        broadcast use vstd::seq_lib::group_to_multiset_ensures;
        assert(raw.contains(x));
    }
}

proof fn lemma_raw_links_have_reasons(sym: SymbolView, cands: Seq<SymbolView>)
    ensures
        forall|i: int| 0 <= i < raw_links(sym, cands).len() ==> (#[trigger] raw_links(sym, cands)[i]).reasons.len() > 0,
    decreases cands.len(),
{
    if cands.len() > 0 {
        lemma_raw_links_have_reasons(sym, cands.drop_last());
        let prev = raw_links(sym, cands.drop_last());
        let rs = link_reasons(sym, cands.last());
        if rs.len() > 0 {
            assert forall|i: int| 0 <= i < raw_links(sym, cands).len() implies (#[trigger] raw_links(sym, cands)[i]).reasons.len() > 0 by {
                if i < prev.len() {
                    assert(raw_links(sym, cands)[i] == prev[i]);
                }
            }
        }
    }
}


/// Test link `t` of the API `api_ref` is accounted for by a card: one with its reference, at
/// least its score, the API among its linked symbols and all of its reasons.
pub open spec fn covered(cards: Seq<TestCardView>, api_ref: Seq<char>, t: TestLinkView) -> bool {
    exists|i: int|
        0 <= i < cards.len() && (#[trigger] cards[i]).test_ref == t.test_ref && cards[i].score >= t.score
            && cards[i].linked_symbols.contains(api_ref) && forall|k: int|
            0 <= k < t.reasons.len() ==> cards[i].reasons.contains(#[trigger] t.reasons[k])
}

/// No two test cards share a reference.
pub open spec fn distinct_tests(cards: Seq<TestCardView>) -> bool {
    forall|i: int, j: int| 0 <= i < j < cards.len() ==> (#[trigger] cards[i]).test_ref != (#[trigger] cards[j]).test_ref
}

proof fn lemma_find_card(cards: Seq<TestCardView>, r: Seq<char>)
    ensures
        match find_card(cards, r) {
            Some(i) => 0 <= i < cards.len() && cards[i].test_ref == r,
            None => forall|j: int| 0 <= j < cards.len() ==> (#[trigger] cards[j]).test_ref != r,
        },
    decreases cards.len(),
{
    if cards.len() > 0 && cards[0].test_ref != r {
        lemma_find_card(cards.drop_first(), r);
        assert forall|j: int| 0 < j < cards.len() implies cards[j] == cards.drop_first()[j - 1] by {}
    }
}

proof fn lemma_merge_reasons(rs: Seq<TestLinkReason>, add: Seq<TestLinkReason>)
    ensures
        forall|x: TestLinkReason| rs.contains(x) ==> merge_reasons(rs, add).contains(x),
        forall|k: int| 0 <= k < add.len() ==> merge_reasons(rs, add).contains(#[trigger] add[k]),
    decreases add.len(),
{
    if add.len() > 0 {
        lemma_merge_reasons(rs, add.drop_last());
        let m = merge_reasons(rs, add.drop_last());
        assert forall|x: TestLinkReason| m.contains(x) implies push_unique(m, add.last()).contains(x) by {
            if !m.contains(add.last()) {
                let j = choose|j: int| 0 <= j < m.len() && m[j] == x;
                assert(m.push(add.last())[j] == x);
            }
        }
        assert(push_unique(m, add.last()).contains(add.last())) by {
            if !m.contains(add.last()) {
                assert(m.push(add.last())[m.len() as int] == add.last());
            }
        }
        assert forall|k: int| 0 <= k < add.len() implies push_unique(m, add.last()).contains(#[trigger] add[k]) by {
            if k < add.len() - 1 {
                assert(add[k] == add.drop_last()[k]);
            }
        }
    }
}

proof fn lemma_push_unique_contains<V>(s: Seq<V>, x: V)
    ensures
        push_unique(s, x).contains(x),
        forall|y: V| s.contains(y) ==> push_unique(s, x).contains(y),
{
    if !s.contains(x) {
        assert(s.push(x)[s.len() as int] == x);
        assert forall|y: V| s.contains(y) implies s.push(x).contains(y) by {
            let j = choose|j: int| 0 <= j < s.len() && s[j] == y;
            assert(s.push(x)[j] == y);
        }
    }
}

proof fn lemma_add_test(cards: Seq<TestCardView>, api_ref: Seq<char>, t: TestLinkView)
    requires
        distinct_tests(cards),
    ensures
        distinct_tests(add_test(cards, api_ref, t)),
        covered(add_test(cards, api_ref, t), api_ref, t),
        forall|a: Seq<char>, u: TestLinkView| covered(cards, a, u) ==> #[trigger] covered(add_test(cards, api_ref, t), a, u),
{
    lemma_find_card(cards, t.test_ref);
    let n = add_test(cards, api_ref, t);
    match find_card(cards, t.test_ref) {
        Some(i) => {
            let c = cards[i];
            lemma_push_unique_contains(c.linked_symbols, api_ref);
            lemma_merge_reasons(c.reasons, t.reasons);
            assert(n[i].test_ref == t.test_ref);
            assert(covered(n, api_ref, t));
            assert forall|a: Seq<char>, u: TestLinkView| covered(cards, a, u) implies #[trigger] covered(n, a, u) by {
                let j = choose|j: int|
                    0 <= j < cards.len() && (#[trigger] cards[j]).test_ref == u.test_ref && cards[j].score >= u.score
                        && cards[j].linked_symbols.contains(a) && forall|k: int|
                        0 <= k < u.reasons.len() ==> cards[j].reasons.contains(#[trigger] u.reasons[k]);
                if j == i {
                    assert(n[j].linked_symbols.contains(a));
                    assert forall|k: int| 0 <= k < u.reasons.len() implies n[j].reasons.contains(#[trigger] u.reasons[k]) by {
                        assert(c.reasons.contains(u.reasons[k]));
                    }
                    assert(n[j].test_ref == u.test_ref);
                } else {
                    assert(n[j] == cards[j]);
                }
            }
        },
        None => {
            let nc = n[cards.len() as int];
            assert(nc.linked_symbols[0] == api_ref);
            assert forall|k: int| 0 <= k < t.reasons.len() implies nc.reasons.contains(#[trigger] t.reasons[k]) by {
                assert(nc.reasons[k] == t.reasons[k]);
            }
            assert(covered(n, api_ref, t));
            assert forall|a: Seq<char>, u: TestLinkView| covered(cards, a, u) implies #[trigger] covered(n, a, u) by {
                let j = choose|j: int|
                    0 <= j < cards.len() && (#[trigger] cards[j]).test_ref == u.test_ref && cards[j].score >= u.score
                        && cards[j].linked_symbols.contains(a) && forall|k: int|
                        0 <= k < u.reasons.len() ==> cards[j].reasons.contains(#[trigger] u.reasons[k]);
                assert(n[j] == cards[j]);
            }
        },
    }
}

proof fn lemma_add_tests(cards: Seq<TestCardView>, api_ref: Seq<char>, ts: Seq<TestLinkView>)
    requires
        distinct_tests(cards),
    ensures
        distinct_tests(add_tests(cards, api_ref, ts)),
        forall|k: int| 0 <= k < ts.len() ==> covered(add_tests(cards, api_ref, ts), api_ref, #[trigger] ts[k]),
        forall|a: Seq<char>, u: TestLinkView| covered(cards, a, u) ==> #[trigger] covered(add_tests(cards, api_ref, ts), a, u),
    decreases ts.len(),
{
    if ts.len() > 0 {
        lemma_add_tests(cards, api_ref, ts.drop_last());
        let prev = add_tests(cards, api_ref, ts.drop_last());
        lemma_add_test(prev, api_ref, ts.last());
        assert forall|k: int| 0 <= k < ts.len() implies covered(add_tests(cards, api_ref, ts), api_ref, #[trigger] ts[k]) by {
            if k < ts.len() - 1 {
                assert(ts[k] == ts.drop_last()[k]);
                assert(covered(prev, api_ref, ts.drop_last()[k]));
            }
        }
    }
}

/// The linked tests of a list of APIs are deduplicated by reference, and every test link of
/// every API is accounted for by a card with its reference, at least its score, the API among
/// its linked symbols and all of its reasons.
pub proof fn lemma_collect_tests_dedup_union(apis: Seq<ApiCardView>)
    ensures
        distinct_tests(collect_tests(apis)),
        forall|m: int, k: int|
            0 <= m < apis.len() && 0 <= k < apis[m].tests.len() ==> covered(
                collect_tests(apis),
                apis[m].symbol_ref,
                #[trigger] apis[m].tests[k],
            ),
    decreases apis.len(),
{
    if apis.len() > 0 {
        lemma_collect_tests_dedup_union(apis.drop_last());
        let prev = collect_tests(apis.drop_last());
        let last = apis.last();
        lemma_add_tests(prev, last.symbol_ref, last.tests);
        assert forall|m: int, k: int|
            0 <= m < apis.len() && 0 <= k < apis[m].tests.len() implies covered(
                collect_tests(apis),
                apis[m].symbol_ref,
                #[trigger] apis[m].tests[k],
            ) by {
            if m < apis.len() - 1 {
                assert(apis[m] == apis.drop_last()[m]);
                assert(covered(prev, apis.drop_last()[m].symbol_ref, apis.drop_last()[m].tests[k]));
            }
        }
    }
}

/// The overview's linked tests: ranking keeps them deduplicated by reference, and before the
/// budget cuts them every test link of every surfaced API is accounted for by one of them.
pub proof fn lemma_overview_tests_dedup_union(docs: Seq<IndexDocumentView>, mr: ResolutionView, repo: Seq<char>, b: OverviewBudget)
    ensures
        ({
            let max = b.max_comment_chars as nat;
            let apis = ranked_apis(docs, mr, max);
            let tests = ranked_tests(docs, mr, max);
            &&& distinct_tests(tests)
            &&& distinct_tests(overview_of(docs, mr, repo, b).public_api_tests)
            &&& forall|m: int, k: int|
                0 <= m < apis.len() && 0 <= k < apis[m].tests.len() ==> covered(
                    tests,
                    apis[m].symbol_ref,
                    #[trigger] apis[m].tests[k],
                )
        }),
{
    let max = b.max_comment_chars as nat;
    let apis = ranked_apis(docs, mr, max);
    let collected = collect_tests(apis);
    let tests = ranked_tests(docs, mr, max);
    lemma_collect_tests_dedup_union(apis);
    assert(crate::rank::distinct_refs::<TestCard>(collected));
    crate::rank::lemma_ranked_sort_distinct::<TestCard>(collected);
    assert(distinct_tests(tests));
    assert forall|m: int, k: int|
        0 <= m < apis.len() && 0 <= k < apis[m].tests.len() implies covered(
            tests,
            apis[m].symbol_ref,
            #[trigger] apis[m].tests[k],
        ) by {
        let t = apis[m].tests[k];
        let a = apis[m].symbol_ref;
        assert(covered(collected, a, t));
        let i = choose|i: int|
            0 <= i < collected.len() && (#[trigger] collected[i]).test_ref == t.test_ref && collected[i].score >= t.score
                && collected[i].linked_symbols.contains(a) && forall|k2: int|
                0 <= k2 < t.reasons.len() ==> collected[i].reasons.contains(#[trigger] t.reasons[k2]);
        crate::rank::lemma_ranked_sort_contains::<TestCard>(collected, collected[i]);
        assert(collected.contains(collected[i]));
        let j = choose|j: int| 0 <= j < tests.len() && tests[j] == collected[i];
        assert(tests[j].test_ref == t.test_ref);
    }
    let cut = overview_of(docs, mr, repo, b).public_api_tests;
    assert forall|i: int, j: int| 0 <= i < j < cut.len() implies (#[trigger] cut[i]).test_ref != (#[trigger] cut[j]).test_ref by {
        assert(cut[i] == tests[i] && cut[j] == tests[j]);
    }
}


/// Every test link of every API card has a reason.
pub open spec fn links_have_reasons(apis: Seq<ApiCardView>) -> bool {
    forall|m: int, k: int| 0 <= m < apis.len() && 0 <= k < apis[m].tests.len() ==> (#[trigger] apis[m].tests[k]).reasons.len() > 0
}

proof fn lemma_push_links_have_reasons(apis: Seq<ApiCardView>, a: ApiCardView)
    requires
        links_have_reasons(apis),
        forall|k: int| 0 <= k < a.tests.len() ==> (#[trigger] a.tests[k]).reasons.len() > 0,
    ensures
        links_have_reasons(apis.push(a)),
{
    assert forall|m: int, k: int| 0 <= m < apis.push(a).len() && 0 <= k < apis.push(a)[m].tests.len() implies (#[trigger] apis.push(a)[m].tests[k]).reasons.len() > 0 by {
        if m < apis.len() {
            assert(apis.push(a)[m] == apis[m]);
        }
    }
}

proof fn lemma_concat_links_have_reasons(a: Seq<ApiCardView>, b: Seq<ApiCardView>)
    requires
        links_have_reasons(a),
        links_have_reasons(b),
    ensures
        links_have_reasons(a + b),
{
    assert forall|m: int, k: int| 0 <= m < (a + b).len() && 0 <= k < (a + b)[m].tests.len() implies (#[trigger] (a + b)[m].tests[k]).reasons.len() > 0 by {
        if m < a.len() {
            assert((a + b)[m] == a[m]);
        } else {
            assert((a + b)[m] == b[m - a.len()]);
        }
    }
}

proof fn lemma_api_cards_reasons(syms: Seq<SymbolView>, cands: Seq<SymbolView>, max: nat, unknown: bool)
    ensures
        links_have_reasons(api_cards(syms, cands, max, unknown)),
    decreases syms.len(),
{
    if syms.len() > 0 {
        lemma_api_cards_reasons(syms.drop_last(), cands, max, unknown);
        if is_api_candidate(syms.last(), unknown) {
            lemma_linked_tests_ranked(syms.last(), cands);
            lemma_push_links_have_reasons(api_cards(syms.drop_last(), cands, max, unknown), api_card(syms.last(), cands, max));
        }
    }
}

proof fn lemma_target_api_cards_reasons(rx: ReexportView, ts: Seq<SymbolView>, cands: Seq<SymbolView>, max: nat)
    ensures
        links_have_reasons(target_api_cards(rx, ts, cands, max)),
    decreases ts.len(),
{
    if ts.len() > 0 {
        lemma_target_api_cards_reasons(rx, ts.drop_last(), cands, max);
        if ts.last().kind == SymbolKind::Function {
            lemma_linked_tests_ranked(ts.last(), cands);
            lemma_push_links_have_reasons(target_api_cards(rx, ts.drop_last(), cands, max), rex_api_card(rx, ts.last(), cands, max));
        }
    }
}

proof fn lemma_rex_api_cards_reasons(rxs: Seq<ReexportView>, syms: Seq<SymbolView>, cands: Seq<SymbolView>, mr: ResolutionView, max: nat)
    ensures
        links_have_reasons(rex_api_cards(rxs, syms, cands, mr, max)),
    decreases rxs.len(),
{
    if rxs.len() > 0 {
        lemma_rex_api_cards_reasons(rxs.drop_last(), syms, cands, mr, max);
        lemma_target_api_cards_reasons(rxs.last(), rex_targets(rxs.last(), syms, mr), cands, max);
        lemma_concat_links_have_reasons(
            rex_api_cards(rxs.drop_last(), syms, cands, mr, max),
            target_api_cards(rxs.last(), rex_targets(rxs.last(), syms, mr), cands, max),
        );
    }
}

proof fn lemma_ranked_apis_reasons(docs: Seq<IndexDocumentView>, mr: ResolutionView, max: nat)
    ensures
        links_have_reasons(ranked_apis(docs, mr, max)),
{
    let syms = syms_of(docs);
    let cands = test_cands(syms);
    lemma_api_cards_reasons(syms, cands, max, true);
    lemma_api_cards_reasons(syms, cands, max, false);
    lemma_rex_api_cards_reasons(rexs_of(docs), syms, cands, mr, max);
    lemma_concat_links_have_reasons(api_cards(syms, cands, max, false), rex_api_cards(rexs_of(docs), syms, cands, mr, max));
    let a = if uses_fallback(docs, mr, max) {
        api_cards(syms, cands, max, true)
    } else {
        candidate_apis(docs, mr, max)
    };
    let r = ranked_apis(docs, mr, max);
    assert forall|m: int, k: int| 0 <= m < r.len() && 0 <= k < r[m].tests.len() implies (#[trigger] r[m].tests[k]).reasons.len() > 0 by {
        crate::rank::lemma_ranked_sort_contains::<PublicApiCard>(a, r[m]);
        assert(r.contains(r[m]));
        let j = choose|j: int| 0 <= j < a.len() && a[j] == r[m];
        assert(a[j].tests[k] == r[m].tests[k]);
    }
}

/// Every card has a reason.
pub open spec fn cards_have_reasons(cards: Seq<TestCardView>) -> bool {
    forall|i: int| 0 <= i < cards.len() ==> (#[trigger] cards[i]).reasons.len() > 0
}

proof fn lemma_add_test_reasons(cards: Seq<TestCardView>, api_ref: Seq<char>, t: TestLinkView)
    requires
        cards_have_reasons(cards),
        t.reasons.len() > 0,
    ensures
        cards_have_reasons(add_test(cards, api_ref, t)),
{
    lemma_find_card(cards, t.test_ref);
    let n = add_test(cards, api_ref, t);
    match find_card(cards, t.test_ref) {
        Some(i) => {
            lemma_merge_reasons(cards[i].reasons, t.reasons);
            assert(merge_reasons(cards[i].reasons, t.reasons).contains(t.reasons[0]));
            assert forall|j: int| 0 <= j < n.len() implies (#[trigger] n[j]).reasons.len() > 0 by {
                if j != i {
                    assert(n[j] == cards[j]);
                }
            }
        },
        None => {
            assert forall|j: int| 0 <= j < n.len() implies (#[trigger] n[j]).reasons.len() > 0 by {
                if j < cards.len() {
                    assert(n[j] == cards[j]);
                }
            }
        },
    }
}

proof fn lemma_collect_tests_reasons(apis: Seq<ApiCardView>)
    requires
        links_have_reasons(apis),
    ensures
        cards_have_reasons(collect_tests(apis)),
    decreases apis.len(),
{
    if apis.len() > 0 {
        assert(links_have_reasons(apis.drop_last())) by {
            assert forall|m: int, k: int| 0 <= m < apis.drop_last().len() && 0 <= k < apis.drop_last()[m].tests.len() implies (#[trigger] apis.drop_last()[m].tests[k]).reasons.len() > 0 by {
                assert(apis.drop_last()[m] == apis[m]);
            }
        }
        lemma_collect_tests_reasons(apis.drop_last());
        let last = apis.last();
        lemma_add_tests_reasons(collect_tests(apis.drop_last()), last.symbol_ref, last.tests, apis.len() - 1, apis);
    }
}

proof fn lemma_add_tests_reasons(cards: Seq<TestCardView>, api_ref: Seq<char>, ts: Seq<TestLinkView>, m: int, apis: Seq<ApiCardView>)
    requires
        cards_have_reasons(cards),
        links_have_reasons(apis),
        0 <= m < apis.len(),
        ts.len() <= apis[m].tests.len(),
        forall|k: int| 0 <= k < ts.len() ==> ts[k] == apis[m].tests[k],
    ensures
        cards_have_reasons(add_tests(cards, api_ref, ts)),
    decreases ts.len(),
{
    if ts.len() > 0 {
        lemma_add_tests_reasons(cards, api_ref, ts.drop_last(), m, apis);
        assert(ts.last() == apis[m].tests[ts.len() - 1]);
        lemma_add_test_reasons(add_tests(cards, api_ref, ts.drop_last()), api_ref, ts.last());
    }
}

/// Every surfaced test says why it is linked: each test link of each surfaced API, and each
/// linked test card, carries at least one reason.
pub proof fn lemma_overview_tests_have_reasons(docs: Seq<IndexDocumentView>, mr: ResolutionView, repo: Seq<char>, b: OverviewBudget)
    ensures
        links_have_reasons(overview_of(docs, mr, repo, b).public_apis),
        cards_have_reasons(overview_of(docs, mr, repo, b).public_api_tests),
{
    let max = b.max_comment_chars as nat;
    let apis = ranked_apis(docs, mr, max);
    lemma_ranked_apis_reasons(docs, mr, max);
    lemma_collect_tests_reasons(apis);
    let collected = collect_tests(apis);
    let tests = ranked_tests(docs, mr, max);
    assert(cards_have_reasons(tests)) by {
        assert forall|i: int| 0 <= i < tests.len() implies (#[trigger] tests[i]).reasons.len() > 0 by {
            crate::rank::lemma_ranked_sort_contains::<TestCard>(collected, tests[i]);
            assert(tests.contains(tests[i]));
            let j = choose|j: int| 0 <= j < collected.len() && collected[j] == tests[i];
        }
    }
    let ov = overview_of(docs, mr, repo, b);
    assert forall|i: int| 0 <= i < ov.public_api_tests.len() implies (#[trigger] ov.public_api_tests[i]).reasons.len() > 0 by {
        assert(ov.public_api_tests[i] == tests[i]);
    }
    assert forall|m: int, k: int| 0 <= m < ov.public_apis.len() && 0 <= k < ov.public_apis[m].tests.len() implies (#[trigger] ov.public_apis[m].tests[k]).reasons.len() > 0 by {
        assert(ov.public_apis[m] == apis[m]);
    }
}

/// Every API card links at most three tests.
pub open spec fn links_bounded(apis: Seq<ApiCardView>) -> bool {
    forall|m: int| 0 <= m < apis.len() ==> (#[trigger] apis[m]).tests.len() <= 3
}

/// Every test card links at least one symbol.
pub open spec fn cards_linked(cards: Seq<TestCardView>) -> bool {
    forall|i: int| 0 <= i < cards.len() ==> (#[trigger] cards[i]).linked_symbols.len() > 0
}

proof fn lemma_concat_links_bounded(a: Seq<ApiCardView>, b: Seq<ApiCardView>)
    requires
        links_bounded(a),
        links_bounded(b),
    ensures
        links_bounded(a + b),
{
    assert forall|m: int| 0 <= m < (a + b).len() implies (#[trigger] (a + b)[m]).tests.len() <= 3 by {
        if m < a.len() {
            assert((a + b)[m] == a[m]);
        } else {
            assert((a + b)[m] == b[m - a.len()]);
        }
    }
}

proof fn lemma_api_cards_bounded(syms: Seq<SymbolView>, cands: Seq<SymbolView>, max: nat, unknown: bool)
    ensures
        links_bounded(api_cards(syms, cands, max, unknown)),
    decreases syms.len(),
{
    if syms.len() > 0 {
        lemma_api_cards_bounded(syms.drop_last(), cands, max, unknown);
        let prev = api_cards(syms.drop_last(), cands, max, unknown);
        if is_api_candidate(syms.last(), unknown) {
            lemma_linked_tests_ranked(syms.last(), cands);
            let a = api_card(syms.last(), cands, max);
            assert forall|m: int| 0 <= m < prev.push(a).len() implies (#[trigger] prev.push(a)[m]).tests.len() <= 3 by {
                if m < prev.len() {
                    assert(prev.push(a)[m] == prev[m]);
                }
            }
        }
    }
}

proof fn lemma_target_api_cards_bounded(rx: ReexportView, ts: Seq<SymbolView>, cands: Seq<SymbolView>, max: nat)
    ensures
        links_bounded(target_api_cards(rx, ts, cands, max)),
    decreases ts.len(),
{
    if ts.len() > 0 {
        lemma_target_api_cards_bounded(rx, ts.drop_last(), cands, max);
        let prev = target_api_cards(rx, ts.drop_last(), cands, max);
        if ts.last().kind == SymbolKind::Function {
            lemma_linked_tests_ranked(ts.last(), cands);
            let a = rex_api_card(rx, ts.last(), cands, max);
            assert forall|m: int| 0 <= m < prev.push(a).len() implies (#[trigger] prev.push(a)[m]).tests.len() <= 3 by {
                if m < prev.len() {
                    assert(prev.push(a)[m] == prev[m]);
                }
            }
        }
    }
}

proof fn lemma_rex_api_cards_bounded(rxs: Seq<ReexportView>, syms: Seq<SymbolView>, cands: Seq<SymbolView>, mr: ResolutionView, max: nat)
    ensures
        links_bounded(rex_api_cards(rxs, syms, cands, mr, max)),
    decreases rxs.len(),
{
    if rxs.len() > 0 {
        lemma_rex_api_cards_bounded(rxs.drop_last(), syms, cands, mr, max);
        lemma_target_api_cards_bounded(rxs.last(), rex_targets(rxs.last(), syms, mr), cands, max);
        lemma_concat_links_bounded(
            rex_api_cards(rxs.drop_last(), syms, cands, mr, max),
            target_api_cards(rxs.last(), rex_targets(rxs.last(), syms, mr), cands, max),
        );
    }
}

proof fn lemma_add_test_linked(cards: Seq<TestCardView>, api_ref: Seq<char>, t: TestLinkView)
    requires
        cards_linked(cards),
    ensures
        cards_linked(add_test(cards, api_ref, t)),
{
    lemma_find_card(cards, t.test_ref);
    let n = add_test(cards, api_ref, t);
    match find_card(cards, t.test_ref) {
        Some(i) => {
            lemma_push_unique_contains(cards[i].linked_symbols, api_ref);
            assert forall|j: int| 0 <= j < n.len() implies (#[trigger] n[j]).linked_symbols.len() > 0 by {
                if j != i {
                    assert(n[j] == cards[j]);
                }
            }
        },
        None => {
            assert forall|j: int| 0 <= j < n.len() implies (#[trigger] n[j]).linked_symbols.len() > 0 by {
                if j < cards.len() {
                    assert(n[j] == cards[j]);
                }
            }
        },
    }
}

proof fn lemma_collect_tests_linked(apis: Seq<ApiCardView>)
    ensures
        cards_linked(collect_tests(apis)),
    decreases apis.len(),
{
    if apis.len() > 0 {
        lemma_collect_tests_linked(apis.drop_last());
        lemma_add_tests_linked(collect_tests(apis.drop_last()), apis.last().symbol_ref, apis.last().tests);
    }
}

proof fn lemma_add_tests_linked(cards: Seq<TestCardView>, api_ref: Seq<char>, ts: Seq<TestLinkView>)
    requires
        cards_linked(cards),
    ensures
        cards_linked(add_tests(cards, api_ref, ts)),
    decreases ts.len(),
{
    if ts.len() > 0 {
        lemma_add_tests_linked(cards, api_ref, ts.drop_last());
        lemma_add_test_linked(add_tests(cards, api_ref, ts.drop_last()), api_ref, ts.last());
    }
}

/// Every surfaced API links at most three tests, and every linked test card of the overview
/// names at least one of the APIs it is linked to.
pub proof fn lemma_overview_tests_bounded_and_linked(docs: Seq<IndexDocumentView>, mr: ResolutionView, repo: Seq<char>, b: OverviewBudget)
    ensures
        links_bounded(overview_of(docs, mr, repo, b).public_apis),
        cards_linked(overview_of(docs, mr, repo, b).public_api_tests),
{
    let max = b.max_comment_chars as nat;
    let syms = syms_of(docs);
    let cands = test_cands(syms);
    lemma_api_cards_bounded(syms, cands, max, true);
    lemma_api_cards_bounded(syms, cands, max, false);
    lemma_rex_api_cards_bounded(rexs_of(docs), syms, cands, mr, max);
    lemma_concat_links_bounded(api_cards(syms, cands, max, false), rex_api_cards(rexs_of(docs), syms, cands, mr, max));
    let a = if uses_fallback(docs, mr, max) {
        api_cards(syms, cands, max, true)
    } else {
        candidate_apis(docs, mr, max)
    };
    let apis = ranked_apis(docs, mr, max);
    assert(links_bounded(apis)) by {
        assert forall|m: int| 0 <= m < apis.len() implies (#[trigger] apis[m]).tests.len() <= 3 by {
            crate::rank::lemma_ranked_sort_contains::<PublicApiCard>(a, apis[m]);
            assert(apis.contains(apis[m]));
            let j = choose|j: int| 0 <= j < a.len() && a[j] == apis[m];
        }
    }
    lemma_collect_tests_linked(apis);
    let collected = collect_tests(apis);
    let tests = ranked_tests(docs, mr, max);
    assert(cards_linked(tests)) by {
        assert forall|i: int| 0 <= i < tests.len() implies (#[trigger] tests[i]).linked_symbols.len() > 0 by {
            crate::rank::lemma_ranked_sort_contains::<TestCard>(collected, tests[i]);
            assert(tests.contains(tests[i]));
            let j = choose|j: int| 0 <= j < collected.len() && collected[j] == tests[i];
        }
    }
    let ov = overview_of(docs, mr, repo, b);
    assert forall|i: int| 0 <= i < ov.public_api_tests.len() implies (#[trigger] ov.public_api_tests[i]).linked_symbols.len() > 0 by {
        assert(ov.public_api_tests[i] == tests[i]);
    }
    assert forall|m: int| 0 <= m < ov.public_apis.len() implies (#[trigger] ov.public_apis[m]).tests.len() <= 3 by {
        assert(ov.public_apis[m] == apis[m]);
    }
}

/// A symbol is a test candidate exactly when its path, with `\` written as `/` and lowercased,
/// contains `/tests/`, `/test/`, `/__tests__/`, `/spec/`, `.test.`, `_test.`, `.spec.` or
/// `_spec.`, or its name starts with `test`; the candidates keep the symbols' order.
pub proof fn lemma_test_candidates_by_path_or_name(syms: Seq<SymbolView>, s: SymbolView)
    ensures
        test_cands(syms).contains(s) <==> (syms.contains(s) && ({
            let n = ascii_lower(replace_char(s.filepath, '\\', '/'));
            ||| contains_sub(n, "/tests/"@)
            ||| contains_sub(n, "/test/"@)
            ||| contains_sub(n, "/__tests__/"@)
            ||| contains_sub(n, "/spec/"@)
            ||| contains_sub(n, ".test."@)
            ||| contains_sub(n, "_test."@)
            ||| contains_sub(n, ".spec."@)
            ||| contains_sub(n, "_spec."@)
            ||| starts_with(s.name, "test"@)
        })),
    decreases syms.len(),
{
    if syms.len() > 0 {
        let rest = syms.drop_last();
        let last = syms.last();
        lemma_test_candidates_by_path_or_name(rest, s);
        let prev = test_cands(rest);
        assert(syms =~= rest.push(last));
        assert(syms.contains(s) <==> (rest.contains(s) || s == last)) by {
            if syms.contains(s) {
                let i = choose|i: int| 0 <= i < syms.len() && syms[i] == s;
                if i < rest.len() {
                    assert(rest[i] == s);
                }
            }
            if rest.contains(s) {
                let i = choose|i: int| 0 <= i < rest.len() && rest[i] == s;
                assert(syms[i] == s);
            }
            if s == last {
                assert(syms[syms.len() - 1] == s);
            }
        }
        if is_test_candidate(last.filepath, last.name) {
            assert(prev.push(last).contains(s) <==> (prev.contains(s) || s == last)) by {
                if prev.push(last).contains(s) {
                    let i = choose|i: int| 0 <= i < prev.push(last).len() && prev.push(last)[i] == s;
                    if i < prev.len() {
                        assert(prev[i] == s);
                    }
                }
                if prev.contains(s) {
                    let i = choose|i: int| 0 <= i < prev.len() && prev[i] == s;
                    assert(prev.push(last)[i] == s);
                }
                if s == last {
                    assert(prev.push(last)[prev.len() as int] == s);
                }
            }
        }
    }
}

/// The module file extensions, written out: `ts`, `tsx`, `js`, `jsx`, `mts`, `cts`, `mjs`, `cjs`.
pub open spec fn is_listed_module_ext(e: Seq<char>) -> bool {
    e == "ts"@ || e == "tsx"@ || e == "js"@ || e == "jsx"@ || e == "mts"@ || e == "cts"@ || e == "mjs"@ || e == "cjs"@
}

/// A candidate with an extension is tried as is; one without is tried with each module
/// extension appended and as the `index` file of that directory with each module extension,
/// so a specifier naming a directory reaches its index file.
pub proof fn lemma_expand_candidate_files_and_index(raw: Seq<char>, e: Seq<char>)
    ensures
        crate::paths::extension(raw) is Some ==> expand_candidate(raw) == seq![raw],
        crate::paths::extension(raw) is None && is_listed_module_ext(e) ==> {
            &&& expand_candidate(raw).contains(raw + seq!['.'] + e)
            &&& expand_candidate(raw).contains(raw + "/index."@ + e)
        },
{
    if crate::paths::extension(raw) is None && is_listed_module_ext(e) {
        let x = expand_candidate(raw);
        let exts = module_exts();
        let k: int = if e == "ts"@ { 0 } else if e == "tsx"@ { 1 } else if e == "js"@ { 2 } else if e == "jsx"@ { 3 }
            else if e == "mts"@ { 4 } else if e == "cts"@ { 5 } else if e == "mjs"@ { 6 } else { 7 };
        assert(exts[k] == e);
        assert(x[k] == raw + seq!['.'] + e);
        assert(x[8 + k] == raw + "/index."@ + e);
    }
}

/// An extensionless candidate is tried only as itself with a module extension or as its
/// directory's `index` file with a module extension.
pub proof fn lemma_expand_candidate_only_module_files(raw: Seq<char>, x: Seq<char>)
    requires
        crate::paths::extension(raw) is None,
        expand_candidate(raw).contains(x),
    ensures
        exists|e: Seq<char>| #[trigger] is_listed_module_ext(e) && (x == raw + seq!['.'] + e || x == raw + "/index."@ + e),
{
    let xs = expand_candidate(raw);
    let exts = module_exts();
    let i = choose|i: int| 0 <= i < xs.len() && xs[i] == x;
    let k = if i < 8 { i } else { i - 8 };
    assert(0 <= k < 8);
    assert(is_listed_module_ext(exts[k])) by {
        if k == 0 {} else if k == 1 {} else if k == 2 {} else if k == 3 {} else if k == 4 {} else if k == 5 {} else if k == 6 {} else {}
    }
    if i < 8 {
        assert(x == raw + seq!['.'] + exts[k]);
    } else {
        assert(x == raw + "/index."@ + exts[k]);
    }
}

/// Every extensionless candidate, with `\` written as `/`, is tried as the `index` file of that
/// directory with each module extension.
pub proof fn lemma_expand_all_reaches_index_files(raws: Seq<Seq<char>>, i: int, e: Seq<char>)
    requires
        0 <= i < raws.len(),
        crate::paths::extension(replace_char(raws[i], '\\', '/')) is None,
        is_listed_module_ext(e),
    ensures
        expand_all(raws).contains(replace_char(raws[i], '\\', '/') + "/index."@ + e),
        expand_all(raws).contains(replace_char(raws[i], '\\', '/') + seq!['.'] + e),
    decreases raws.len(),
{
    let r = replace_char(raws[i], '\\', '/');
    let prev = expand_all(raws.drop_last());
    let here = expand_candidate(replace_char(raws.last(), '\\', '/'));
    if i < raws.len() - 1 {
        assert(raws.drop_last()[i] == raws[i]);
        lemma_expand_all_reaches_index_files(raws.drop_last(), i, e);
        let a = choose|a: int| 0 <= a < prev.len() && prev[a] == r + "/index."@ + e;
        assert((prev + here)[a] == prev[a]);
        let b = choose|b: int| 0 <= b < prev.len() && prev[b] == r + seq!['.'] + e;
        assert((prev + here)[b] == prev[b]);
    } else {
        lemma_expand_candidate_files_and_index(r, e);
        let a = choose|a: int| 0 <= a < here.len() && here[a] == r + "/index."@ + e;
        assert((prev + here)[prev.len() + a] == here[a]);
        let b = choose|b: int| 0 <= b < here.len() && here[b] == r + seq!['.'] + e;
        assert((prev + here)[prev.len() + b] == here[b]);
    }
}

} // verus!
