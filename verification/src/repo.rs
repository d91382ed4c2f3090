//! Repository specs, cache layout, clone validation and index metadata.
use vstd::prelude::*;
use vstd::string::StrSliceExecFns;
use crate::investigation::{first_index, lemma_first_index};
use crate::text::{append_chars, from_chars, to_chars, str_eq, string_of, views};
use crate::rank::card_views;

verus! {

broadcast use vstd::seq::group_seq_axioms;

// ---------------------------------------------------------------------------
// Repository specs
// ---------------------------------------------------------------------------

/// The parts of an `owner/repo[@ref]` spec: split at the first `@`, then the part before it at
/// its first `/`; both owner and repo must be non-empty.
pub open spec fn repo_spec_parts(spec: Seq<char>) -> Option<(Seq<char>, Seq<char>, Option<Seq<char>>)> {
    let (main, rf) = match first_index(spec, '@') {
        Some(i) => (spec.subrange(0, i), Some(spec.subrange(i + 1, spec.len() as int))),
        None => (spec, None),
    };
    match first_index(main, '/') {
        Some(j) => {
            let owner = main.subrange(0, j);
            let repo = main.subrange(j + 1, main.len() as int);
            if owner.len() == 0 || repo.len() == 0 {
                None
            } else {
                Some((owner, repo, rf))
            }
        },
        None => None,
    }
}

proof fn lemma_first_index_at(s: Seq<char>, c: char, i: int)
    requires
        0 <= i < s.len(),
        s[i] == c,
        forall|j: int| 0 <= j < i ==> s[j] != c,
    ensures
        first_index(s, c) == Some(i),
{
    lemma_first_index(s, c);
}

proof fn lemma_first_index_none(s: Seq<char>, c: char)
    requires
        !s.contains(c),
    ensures
        first_index(s, c) is None,
{
    lemma_first_index(s, c);
    if let Some(i) = first_index(s, c) {
        assert(s.contains(s[i]));
    }
}

/// The text of a spec: `owner/repo`, followed by `@ref` when there is a ref.
pub open spec fn repo_spec_text(owner: Seq<char>, repo: Seq<char>, rf: Option<Seq<char>>) -> Seq<char> {
    owner + seq!['/'] + repo + match rf {
        Some(r) => seq!['@'] + r,
        None => Seq::empty(),
    }
}

/// A spec written from an owner (without `/` or `@`), a repository (without `@`), both
/// non-empty, and an optional ref, parses back into those parts.
pub proof fn lemma_repo_spec_roundtrip(owner: Seq<char>, repo: Seq<char>, rf: Option<Seq<char>>)
    requires
        owner.len() > 0,
        repo.len() > 0,
        !owner.contains('/'),
        !owner.contains('@'),
        !repo.contains('@'),
    ensures
        repo_spec_parts(repo_spec_text(owner, repo, rf)) == Some((owner, repo, rf)),
{
    let main = owner + seq!['/'] + repo;
    let spec = repo_spec_text(owner, repo, rf);
    assert forall|j: int| 0 <= j < main.len() implies main[j] != '@' by {
        if j < owner.len() {
            assert(main[j] == owner[j]);
            assert(owner.contains(owner[j]));
        } else if j > owner.len() {
            assert(main[j] == repo[j - owner.len() - 1]);
            assert(repo.contains(repo[j - owner.len() - 1]));
        }
    }
    match rf {
        Some(r) => {
            assert(spec =~= main + (seq!['@'] + r));
            assert(spec[main.len() as int] == '@');
            assert forall|j: int| 0 <= j < main.len() implies spec[j] != '@' by {
                assert(spec[j] == main[j]);
            }
            lemma_first_index_at(spec, '@', main.len() as int);
            assert(spec.subrange(0, main.len() as int) =~= main);
            assert(spec.subrange(main.len() as int + 1, spec.len() as int) =~= r);
        },
        None => {
            assert(spec =~= main);
            assert(!spec.contains('@')) by {
                if spec.contains('@') {
                    let j = choose|j: int| 0 <= j < spec.len() && spec[j] == '@';
                    assert(main[j] != '@');
                }
            }
            lemma_first_index_none(spec, '@');
        },
    }
    assert(main[owner.len() as int] == '/');
    assert forall|j: int| 0 <= j < owner.len() implies main[j] != '/' by {
        assert(main[j] == owner[j]);
        assert(owner.contains(owner[j]));
    }
    lemma_first_index_at(main, '/', owner.len() as int);
    assert(main.subrange(0, owner.len() as int) =~= owner);
    assert(main.subrange(owner.len() as int + 1, main.len() as int) =~= repo);
}

fn first_index_str(s: &str, c: char) -> (r: Option<usize>)
    ensures
        match r {
            Some(i) => first_index(s@, c) == Some(i as int) && i < s@.len(),
            None => first_index(s@, c) is None,
        },
{
    let v = to_chars(s);
    let mut i: usize = 0;
    assert(v@.skip(0) =~= v@);
    while i < v.len()
        invariant
            0 <= i <= v.len(),
            v@ == s@,
            first_index(v@, c) == match first_index(v@.skip(i as int), c) {
                Some(j) => Some(j + i),
                None => None,
            },
        decreases v.len() - i,
    {
        if v[i] == c {
            return Some(i);
        }
        assert(v@.skip(i as int).drop_first() =~= v@.skip(i + 1));
        i = i + 1;
    }
    None
}

/// Parse an `owner/repo` spec, optionally with `@ref`.
///
/// `"vercel/next.js"` gives `("vercel", "next.js", None)`; `"vercel/next.js@v14"` gives
/// `("vercel", "next.js", Some("v14"))`.
pub fn parse_repo_spec(spec: &str) -> (r: Option<(&str, &str, Option<&str>)>)
    ensures
        match repo_spec_parts(spec@) {
            Some((o, p, f)) => r matches Some((ro, rp, rf)) && ro@ == o && rp@ == p && match f {
                Some(x) => rf matches Some(y) && y@ == x,
                None => rf is None,
            },
            None => r is None,
        },
{
    let (main, ref_spec) = match first_index_str(spec, '@') {
        Some(i) => {
            proof {
                lemma_first_index(spec@, '@');
            }
            let n = spec.unicode_len();
            (spec.substring_char(0, i), Some(spec.substring_char(i + 1, n)))
        },
        None => (spec, None),
    };
    match first_index_str(main, '/') {
        Some(j) => {
            proof {
                lemma_first_index(main@, '/');
            }
            let owner = main.substring_char(0, j);
            let n = main.unicode_len();
            let repo = main.substring_char(j + 1, n);
            if owner.unicode_len() == 0 || repo.unicode_len() == 0 {
                None
            } else {
                Some((owner, repo, ref_spec))
            }
        },
        None => None,
    }
}

// ---------------------------------------------------------------------------
// Cache layout
// ---------------------------------------------------------------------------

/// A single, safe path component: non-empty, not `.` or `..`, without separators.
pub open spec fn safe_component(s: Seq<char>) -> bool {
    &&& s.len() > 0
    &&& s != seq!['.']
    &&& s != seq!['.', '.']
    &&& !s.contains('/')
    &&& !s.contains('\\')
}

/// Check that a string is safe to use as a single path component.
pub fn is_safe_path_component(s: &str) -> (r: bool)
    ensures
        r == safe_component(s@),
{
    let v = to_chars(s);
    if v.len() == 0 {
        return false;
    }
    if v.len() == 1 && v[0] == '.' {
        assert(v@ =~= seq!['.']);
        return false;
    }
    if v.len() == 2 && v[0] == '.' && v[1] == '.' {
        assert(v@ =~= seq!['.', '.']);
        return false;
    }
    let mut i: usize = 0;
    while i < v.len()
        invariant
            0 <= i <= v.len(),
            v@ == s@,
            forall|j: int| 0 <= j < i ==> v@[j] != '/' && v@[j] != '\\',
        decreases v.len() - i,
    {
        if v[i] == '/' || v[i] == '\\' {
            assert(v@[i as int] == '/' ==> s@.contains('/'));
            assert(v@[i as int] == '\\' ==> s@.contains('\\'));
            return false;
        }
        i = i + 1;
    }
    proof {
        if v@.len() == 1 {
            assert(v@ != seq!['.', '.']);
        }
    }
    true
}

/// `Path::join` of a relative part onto a base: a separator between them unless the base is
/// empty or already ends with one.
pub open spec fn join_path(base: Seq<char>, part: Seq<char>) -> Seq<char> {
    if base.len() == 0 || base.last() == '/' {
        base + part
    } else {
        base + seq!['/'] + part
    }
}

proof fn lemma_split_at_separator(o1: Seq<char>, r1: Seq<char>, o2: Seq<char>, r2: Seq<char>)
    requires
        !o1.contains('/'),
        !o2.contains('/'),
        o1 + seq!['/'] + r1 == o2 + seq!['/'] + r2,
    ensures
        o1 == o2,
        r1 == r2,
{
    let a = o1 + seq!['/'] + r1;
    let b = o2 + seq!['/'] + r2;
    if o1.len() < o2.len() {
        assert(a[o1.len() as int] == '/');
        assert(b[o1.len() as int] == o2[o1.len() as int]);
        assert(o2.contains(o2[o1.len() as int]));
    } else if o2.len() < o1.len() {
        assert(b[o2.len() as int] == '/');
        assert(a[o2.len() as int] == o1[o2.len() as int]);
        assert(o1.contains(o1[o2.len() as int]));
    }
    assert(o1 =~= a.subrange(0, o1.len() as int));
    assert(o2 =~= b.subrange(0, o2.len() as int));
    assert(r1 =~= a.subrange(o1.len() as int + 1, a.len() as int));
    assert(r2 =~= b.subrange(o2.len() as int + 1, b.len() as int));
}

/// Different repositories never share a cache directory: the directory of `owner/repo` under a
/// cache root determines the owner and the repository.
pub proof fn lemma_repo_dirs_distinct(cache_root: Seq<char>, o1: Seq<char>, r1: Seq<char>, o2: Seq<char>, r2: Seq<char>)
    requires
        safe_component(o1),
        safe_component(r1),
        safe_component(o2),
        safe_component(r2),
        repo_dir_of(cache_root, o1, r1) == repo_dir_of(cache_root, o2, r2),
    ensures
        o1 == o2,
        r1 == r2,
{
    reveal_strlit("repos/github.com");
    let base = join_path(cache_root, "repos/github.com"@);
    assert(base.len() > 0 && base.last() == 'm');
    let d1 = join_path(base, o1);
    let d2 = join_path(base, o2);
    assert(d1 == base + seq!['/'] + o1);
    assert(d2 == base + seq!['/'] + o2);
    assert(d1.last() == o1.last());
    assert(o1.contains(o1.last()));
    assert(d2.last() == o2.last());
    assert(o2.contains(o2.last()));
    let f1 = join_path(d1, r1);
    let f2 = join_path(d2, r2);
    assert(f1 == d1 + seq!['/'] + r1);
    assert(f2 == d2 + seq!['/'] + r2);
    let pre = base + seq!['/'];
    assert(f1 =~= pre + (o1 + seq!['/'] + r1));
    assert(f2 =~= pre + (o2 + seq!['/'] + r2));
    assert((o1 + seq!['/'] + r1) =~= f1.subrange(pre.len() as int, f1.len() as int));
    assert((o2 + seq!['/'] + r2) =~= f2.subrange(pre.len() as int, f2.len() as int));
    lemma_split_at_separator(o1, r1, o2, r2);
}

fn join_path_exec(base: &Vec<char>, part: &str) -> (r: Vec<char>)
    ensures
        r@ == join_path(base@, part@),
{
    let mut out = crate::text::copy_chars(base);
    if !(base.len() == 0 || base[base.len() - 1] == '/') {
        out.push('/');
    }
    append_chars(&mut out, &to_chars(part));
    out
}

/// `<cache_root>/repos/github.com/<owner>/<repo>`.
pub open spec fn repo_dir_of(cache_root: Seq<char>, owner: Seq<char>, repo: Seq<char>) -> Seq<char> {
    join_path(join_path(join_path(cache_root, "repos/github.com"@), owner), repo)
}

/// Returns the directory for a specific repository's data under `cache_root`:
/// `<cache_root>/repos/github.com/<owner>/<repo>`.
pub fn repo_cache_dir(cache_root: &str, owner: &str, repo: &str) -> (r: String)
    requires
        safe_component(owner@),
        safe_component(repo@),
    ensures
        r@ == repo_dir_of(cache_root@, owner@, repo@),
{
    let a = join_path_exec(&to_chars(cache_root), "repos/github.com");
    let b = join_path_exec(&a, owner);
    let c = join_path_exec(&b, repo);
    from_chars(c.as_slice())
}

fn repo_file(cache_root: &str, owner: &str, repo: &str, name: &str) -> (r: String)
    requires
        safe_component(owner@),
        safe_component(repo@),
    ensures
        r@ == join_path(repo_dir_of(cache_root@, owner@, repo@), name@),
{
    let d = repo_cache_dir(cache_root, owner, repo);
    let p = join_path_exec(&to_chars(d.as_str()), name);
    from_chars(p.as_slice())
}

/// Returns the path for the cloned repository.
pub fn repo_clone_dir(cache_root: &str, owner: &str, repo: &str) -> (r: String)
    requires
        safe_component(owner@),
        safe_component(repo@),
    ensures
        r@ == join_path(repo_dir_of(cache_root@, owner@, repo@), "repo"@),
{
    repo_file(cache_root, owner, repo, "repo")
}

/// Returns the path for the serialized index.
pub fn repo_index_path(cache_root: &str, owner: &str, repo: &str) -> (r: String)
    requires
        safe_component(owner@),
        safe_component(repo@),
    ensures
        r@ == join_path(repo_dir_of(cache_root@, owner@, repo@), "index.bin"@),
{
    repo_file(cache_root, owner, repo, "index.bin")
}

/// Returns the path for the index metadata.
pub fn repo_meta_path(cache_root: &str, owner: &str, repo: &str) -> (r: String)
    requires
        safe_component(owner@),
        safe_component(repo@),
    ensures
        r@ == join_path(repo_dir_of(cache_root@, owner@, repo@), "index.meta.json"@),
{
    repo_file(cache_root, owner, repo, "index.meta.json")
}

/// Returns the path for the lock file.
pub fn repo_lock_path(cache_root: &str, owner: &str, repo: &str) -> (r: String)
    requires
        safe_component(owner@),
        safe_component(repo@),
    ensures
        r@ == join_path(repo_dir_of(cache_root@, owner@, repo@), ".lock"@),
{
    repo_file(cache_root, owner, repo, ".lock")
}

/// Returns the path for the serialized investigation corpus.
pub fn repo_corpus_path(cache_root: &str, owner: &str, repo: &str) -> (r: String)
    requires
        safe_component(owner@),
        safe_component(repo@),
    ensures
        r@ == join_path(repo_dir_of(cache_root@, owner@, repo@), "corpus.bin"@),
{
    repo_file(cache_root, owner, repo, "corpus.bin")
}

/// Returns the path for the corpus metadata.
pub fn repo_corpus_meta_path(cache_root: &str, owner: &str, repo: &str) -> (r: String)
    requires
        safe_component(owner@),
        safe_component(repo@),
    ensures
        r@ == join_path(repo_dir_of(cache_root@, owner@, repo@), "corpus.meta.json"@),
{
    repo_file(cache_root, owner, repo, "corpus.meta.json")
}

/// Whether a cache directory may be removed whole: only one whose path names `repoask`.
pub fn is_removable_cache_root(dir: &str) -> (r: bool)
    ensures
        r == crate::text::contains_sub(dir@, "repoask"@),
{
    crate::text::contains_exec(&to_chars(dir), &to_chars("repoask"))
}

// ---------------------------------------------------------------------------
// Clone validation
// ---------------------------------------------------------------------------

#[verifier::external_type_specification]
#[verifier::external_body]
pub struct ExIoError(std::io::Error);

/// Error type for clone operations.
#[non_exhaustive]
pub enum CloneError {
    /// Git command failed.
    GitFailed(String),
    /// Invalid repository specification (owner, repo, or ref_spec).
    InvalidSpec(String),
    /// IO error during directory operations.
    Io(std::io::Error),
}

/// A character allowed in owner and repo names.
pub open spec fn name_char(c: char) -> bool {
    ||| ('a' <= c && c <= 'z')
    ||| ('A' <= c && c <= 'Z')
    ||| ('0' <= c && c <= '9')
    ||| c == '.'
    ||| c == '_'
    ||| c == '-'
}

/// A valid owner or repo name: non-empty, of ASCII letters, digits, `.`, `_` and `-`.
pub open spec fn valid_name(s: Seq<char>) -> bool {
    s.len() > 0 && forall|i: int| 0 <= i < s.len() ==> name_char(#[trigger] s[i])
}

/// Validate that an owner or repo name contains only safe characters.
pub fn is_valid_name(name: &str) -> (r: bool)
    ensures
        r == valid_name(name@),
{
    let v = to_chars(name);
    if v.len() == 0 {
        return false;
    }
    let mut i: usize = 0;
    while i < v.len()
        invariant
            0 <= i <= v.len(),
            v@ == name@,
            forall|j: int| 0 <= j < i ==> name_char(#[trigger] v@[j]),
        decreases v.len() - i,
    {
        let c = v[i];
        let ok = ('a' <= c && c <= 'z') || ('A' <= c && c <= 'Z') || ('0' <= c && c <= '9') || c == '.'
            || c == '_' || c == '-';
        if !ok {
            return false;
        }
        i = i + 1;
    }
    true
}

/// `format!("{:?}", s)`: the string quoted and escaped as `Debug` writes it.
pub uninterp spec fn debug_quoted(s: Seq<char>) -> Seq<char>;

/// Calls `<str as Debug>::fmt` through `format!`; the quoting and escaping rules are std's and
/// are not written out.
#[verifier::external_body]
fn debug_str(s: &str) -> (r: String)
    ensures
        r@ == debug_quoted(s@),
{
    format!("{s:?}")
}

fn labelled(label: &str, value: &str) -> (r: String)
    ensures
        r@ == label@ + debug_quoted(value@),
{
    let mut v = to_chars(label);
    append_chars(&mut v, &to_chars(debug_str(value).as_str()));
    from_chars(v.as_slice())
}

/// Whether a clone request is well formed: its validation error, if any, in the order owner,
/// repo, ref.
pub open spec fn clone_spec_error(owner: Seq<char>, repo: Seq<char>, ref_spec: Option<Seq<char>>) -> Option<Seq<char>> {
    if !valid_name(owner) || !safe_component(owner) {
        Some("invalid owner: "@ + debug_quoted(owner))
    } else if !valid_name(repo) || !safe_component(repo) {
        Some("invalid repo: "@ + debug_quoted(repo))
    } else {
        match ref_spec {
            Some(r) => if r.len() > 0 && r[0] == '-' {
                Some("invalid ref_spec: "@ + debug_quoted(r))
            } else {
                None
            },
            None => None,
        }
    }
}

/// Validate a clone request before anything touches the disk: names of safe characters only
/// that are usable as a single path component (not `.` or `..`), and a ref that cannot be read
/// as an option.
pub fn check_clone_spec(owner: &str, repo: &str, ref_spec: Option<&str>) -> (r: Result<(), CloneError>)
    ensures
        match clone_spec_error(owner@, repo@, match ref_spec { Some(s) => Some(s@), None => None }) {
            Some(msg) => r matches Err(CloneError::InvalidSpec(m)) && m@ == msg,
            None => r is Ok,
        },
{
    if !is_valid_name(owner) || !is_safe_path_component(owner) {
        return Err(CloneError::InvalidSpec(labelled("invalid owner: ", owner)));
    }
    if !is_valid_name(repo) || !is_safe_path_component(repo) {
        return Err(CloneError::InvalidSpec(labelled("invalid repo: ", repo)));
    }
    match ref_spec {
        Some(r) => {
            let rv = to_chars(r);
            if rv.len() > 0 && rv[0] == '-' {
                return Err(CloneError::InvalidSpec(labelled("invalid ref_spec: ", r)));
            }
        },
        None => {},
    }
    Ok(())
}


// ---------------------------------------------------------------------------
// Index metadata
// ---------------------------------------------------------------------------

/// Current index format version. Bump when the index structure changes.
pub const INDEX_FORMAT_VERSION: u32 = 1;

/// Current corpus format version. Bump when the corpus structure changes.
pub const CORPUS_FORMAT_VERSION: u32 = 1;

/// Largest serialized index accepted on load (500 MB).
pub const MAX_INDEX_FILE_SIZE: u64 = 524288000;

/// Largest metadata file accepted on load (1 MB).
pub const MAX_META_FILE_SIZE: u64 = 1048576;

/// Largest serialized corpus accepted on load (500 MB).
pub const MAX_CORPUS_FILE_SIZE: u64 = 524288000;

/// The version of this library, recorded in index metadata.
pub open spec fn library_version() -> Seq<char> {
    "0.1.0"@
}

/// Metadata about a cached index for validity checking.
pub struct IndexMeta {
    /// Git commit hash at the time of indexing.
    pub commit_hash: String,
    /// Unix timestamp when the index was built.
    pub indexed_at: u64,
    /// Version of repoask that built the index.
    pub repoask_version: String,
    /// Format version for compatibility checking.
    pub index_format_version: u32,
}

/// Calls `SystemTime::now` and takes the seconds since the Unix epoch (0 for a clock before
/// it). The result is the time of the call; nothing is stated of it.
#[verifier::external_body]
fn unix_now() -> (r: u64) {
    match std::time::SystemTime::now().duration_since(std::time::UNIX_EPOCH) {
        Ok(d) => d.as_secs(),
        Err(_) => 0,
    }
}

impl IndexMeta {
    /// Create metadata for a freshly built index, stamped with the current time.
    pub fn new(commit_hash: String) -> (r: Self)
        ensures
            r.commit_hash@ == commit_hash@,
            r.repoask_version@ == library_version(),
            r.index_format_version == INDEX_FORMAT_VERSION,
    {
        let now = unix_now();
        IndexMeta::with_time(commit_hash, now)
    }

    /// Create metadata for an index built at `indexed_at` (seconds since the Unix epoch).
    pub fn with_time(commit_hash: String, indexed_at: u64) -> (r: Self)
        ensures
            r.commit_hash@ == commit_hash@,
            r.indexed_at == indexed_at,
            r.repoask_version@ == library_version(),
            r.index_format_version == INDEX_FORMAT_VERSION,
    {
        IndexMeta {
            commit_hash,
            indexed_at,
            repoask_version: string_of("0.1.0"),
            index_format_version: INDEX_FORMAT_VERSION,
        }
    }

    /// Check if the index format is compatible with the current version.
    pub fn is_compatible(&self) -> (r: bool)
        ensures
            r == (self.index_format_version == INDEX_FORMAT_VERSION),
    {
        self.index_format_version == INDEX_FORMAT_VERSION
    }

    /// Check if the index was built from the same commit.
    pub fn matches_commit(&self, commit_hash: &str) -> (r: bool)
        ensures
            r == (self.commit_hash@ == commit_hash@),
    {
        str_eq(self.commit_hash.as_str(), commit_hash)
    }
}


// ---------------------------------------------------------------------------
// Cache eviction
// ---------------------------------------------------------------------------

/// Maximum total cache size in bytes (2 GB).
pub const MAX_CACHE_SIZE: u64 = 2147483648;

/// A cached repository: its directory, its size in bytes and when it was last modified.
pub struct CacheEntry {
    pub path: String,
    pub size: u64,
    /// Modification time: whole seconds since the Unix epoch (negative before it)...
    pub modified_secs: i64,
    /// ... and the nanoseconds past them.
    pub modified_nanos: u32,
}

/// The content of a cache entry.
pub struct CacheEntryView {
    pub path: Seq<char>,
    pub size: u64,
    /// Modification time in nanoseconds relative to the Unix epoch.
    pub modified: int,
}

impl View for CacheEntry {
    type V = CacheEntryView;

    open spec fn view(&self) -> CacheEntryView {
        CacheEntryView {
            path: self.path@,
            size: self.size,
            modified: self.modified_secs as int * 1_000_000_000 + self.modified_nanos as int,
        }
    }
}

impl crate::rank::Ranked for CacheEntry {
    /// Oldest first, then by path.
    open spec fn key_of(v: CacheEntryView) -> crate::rank::RankKey {
        (-v.modified, v.path, v.path)
    }

    fn rank_score(&self) -> (r: i128) {
        let secs = self.modified_secs as i128;
        let nanos = self.modified_nanos as i128;
        assert(-0x8000_0000_0000_0000 * 1_000_000_000 <= secs * 1_000_000_000 <= 0x7fff_ffff_ffff_ffff * 1_000_000_000) by (nonlinear_arith)
            requires
                -0x8000_0000_0000_0000 <= secs <= 0x7fff_ffff_ffff_ffff;
        -(secs * 1_000_000_000 + nanos)
    }

    fn rank_path(&self) -> (r: &String) {
        &self.path
    }

    fn rank_ref(&self) -> (r: &String) {
        &self.path
    }
}

/// The total size of the entries.
pub open spec fn total_size(es: Seq<CacheEntryView>) -> nat
    decreases es.len(),
{
    if es.len() == 0 {
        0
    } else {
        total_size(es.drop_last()) + es.last().size as nat
    }
}

/// The entries removed, in order, from `es` (oldest first) while the size still exceeds `max`;
/// each removal subtracts its size (saturating at zero).
pub open spec fn evictions(es: Seq<CacheEntryView>, remaining: nat, max: nat) -> Seq<Seq<char>>
    decreases es.len(),
{
    if es.len() == 0 || remaining <= max {
        Seq::empty()
    } else {
        let next = if remaining >= es[0].size { (remaining - es[0].size) as nat } else { 0 };
        seq![es[0].path] + evictions(es.drop_first(), next, max)
    }
}

/// The cache directories to remove, oldest first, until the cache fits in `MAX_CACHE_SIZE`
/// (none when it already fits).
pub open spec fn eviction_plan_of(es: Seq<CacheEntryView>) -> Seq<Seq<char>> {
    evictions(crate::rank::ranked_sort::<CacheEntry>(es), total_size(es), MAX_CACHE_SIZE as nat)
}

/// Decide which cached repositories to remove: oldest first until the total size is under
/// `MAX_CACHE_SIZE`.
pub fn eviction_plan(entries: Vec<CacheEntry>) -> (r: Vec<String>)
    requires
        total_size(card_views(entries@)) <= u64::MAX,
    ensures
        views(r@) == eviction_plan_of(card_views(entries@)),
{
    let ghost ev = card_views(entries@);
    let mut total: u64 = 0;
    let mut i: usize = 0;
    proof {
        lemma_total_size_prefix_le(ev, 0);
    }
    while i < entries.len()
        invariant
            0 <= i <= entries.len(),
            ev == card_views(entries@),
            total_size(ev) <= u64::MAX,
            total as nat == total_size(ev.subrange(0, i as int)),
        decreases entries.len() - i,
    {
        proof {
            assert(ev.subrange(0, i + 1).drop_last() =~= ev.subrange(0, i as int));
            assert(ev[i as int] == entries@[i as int]@);
            lemma_total_size_prefix_le(ev, i + 1);
        }
        total = total + entries[i].size;
        i = i + 1;
    }
    assert(ev.subrange(0, i as int) =~= ev);
    let sorted = crate::rank::sort_ranked(entries);
    let ghost sv = card_views(sorted@);
    let mut out: Vec<String> = Vec::new();
    let mut remaining = total;
    let mut k: usize = 0;
    assert(sv.skip(0) =~= sv);
    while k < sorted.len() && remaining > MAX_CACHE_SIZE
        invariant
            0 <= k <= sorted.len(),
            sv == card_views(sorted@),
            views(out@) + evictions(sv.skip(k as int), remaining as nat, MAX_CACHE_SIZE as nat) == eviction_plan_of(ev),
        decreases sorted.len() - k,
    {
        let e = &sorted[k];
        assert(sv.skip(k as int)[0] == e@);
        assert(sv.skip(k as int).drop_first() =~= sv.skip(k + 1));
        let p = e.path.clone();
        proof {
            crate::text::lemma_views_push(out@, p);
        }
        out.push(p);
        remaining = if remaining >= e.size { remaining - e.size } else { 0 };
        k = k + 1;
    }
    assert(views(out@) =~= eviction_plan_of(ev));
    out
}

proof fn lemma_total_size_prefix_le(es: Seq<CacheEntryView>, k: int)
    requires
        0 <= k <= es.len(),
    ensures
        total_size(es.subrange(0, k)) <= total_size(es),
    decreases es.len() - k,
{
    if k < es.len() {
        lemma_total_size_prefix_le(es, k + 1);
        assert(es.subrange(0, k + 1).drop_last() =~= es.subrange(0, k));
    } else {
        assert(es.subrange(0, k) =~= es);
    }
}


proof fn lemma_total_size_prepend(x: CacheEntryView, es: Seq<CacheEntryView>)
    ensures
        total_size(seq![x] + es) == x.size + total_size(es),
    decreases es.len(),
{
    let s2 = seq![x] + es;
    if es.len() > 0 {
        lemma_total_size_prepend(x, es.drop_last());
        assert(s2.drop_last() =~= seq![x] + es.drop_last());
        assert(s2.last() == es.last());
        assert(total_size(s2) == total_size(s2.drop_last()) + s2.last().size);
        assert(total_size(es) == total_size(es.drop_last()) + es.last().size);
    } else {
        assert(s2 =~= seq![x]);
        assert(s2.drop_last() =~= Seq::<CacheEntryView>::empty());
        assert(total_size(s2) == total_size(s2.drop_last()) + x.size);
        assert(total_size(es) == 0);
    }
}

proof fn lemma_evictions_prefix(es: Seq<CacheEntryView>, rem: nat, max: nat)
    ensures
        evictions(es, rem, max).len() <= es.len(),
        evictions(es, rem, max) == es.take(evictions(es, rem, max).len() as int).map_values(
            |e: CacheEntryView| e.path,
        ),
        evictions(es, rem, max).len() == es.len() || rem - total_size(es.take(evictions(es, rem, max).len() as int))
            <= max,
        forall|k: int| 0 <= k < evictions(es, rem, max).len() ==> rem - total_size(#[trigger] es.take(k)) > max,
    decreases es.len(),
{
    let ev = evictions(es, rem, max);
    if es.len() == 0 || rem <= max {
        assert(es.take(0) =~= Seq::<CacheEntryView>::empty());
        assert(ev =~= es.take(0).map_values(|e: CacheEntryView| e.path));
    } else {
        let rest = es.drop_first();
        let next: nat = if rem >= es[0].size { (rem - es[0].size) as nat } else { 0 };
        lemma_evictions_prefix(rest, next, max);
        let tail = evictions(rest, next, max);
        let n = ev.len() as int;
        assert(ev == seq![es[0].path] + tail);
        assert(n == tail.len() + 1);
        assert(es.take(n) =~= seq![es[0]] + rest.take(n - 1));
        assert(ev =~= es.take(n).map_values(|e: CacheEntryView| e.path));
        lemma_total_size_prepend(es[0], rest.take(n - 1));
        assert forall|k: int| 0 <= k < n implies rem - total_size(#[trigger] es.take(k)) > max by {
            if k == 0 {
                assert(es.take(0) =~= Seq::<CacheEntryView>::empty());
            } else {
                assert(es.take(k) =~= seq![es[0]] + rest.take(k - 1));
                lemma_total_size_prepend(es[0], rest.take(k - 1));
                assert(next - total_size(rest.take(k - 1)) > max);
            }
        }
    }
}

/// Eviction removes the oldest entries first, and the fewest of them that bring the cache
/// within `MAX_CACHE_SIZE`: the plan is a prefix of the entries in eviction order; after it,
/// the remaining size fits (unless every entry goes); before its last removal, it did not.
pub proof fn lemma_eviction_plan_oldest_until_fit(es: Seq<CacheEntryView>)
    ensures
        ({
            let sorted = crate::rank::ranked_sort::<CacheEntry>(es);
            let plan = eviction_plan_of(es);
            &&& plan.len() <= sorted.len()
            &&& plan == sorted.take(plan.len() as int).map_values(|e: CacheEntryView| e.path)
            &&& plan.len() == sorted.len() || total_size(es) - total_size(sorted.take(plan.len() as int))
                <= MAX_CACHE_SIZE
            &&& forall|k: int| 0 <= k < plan.len() ==> total_size(es) - total_size(#[trigger] sorted.take(k))
                > MAX_CACHE_SIZE
        }),
{
    lemma_evictions_prefix(crate::rank::ranked_sort::<CacheEntry>(es), total_size(es), MAX_CACHE_SIZE as nat);
}

} // verus!
