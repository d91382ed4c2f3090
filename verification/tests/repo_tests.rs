use repoask::repo::{
    check_clone_spec, is_safe_path_component, is_valid_name, parse_repo_spec, repo_cache_dir, repo_clone_dir,
    repo_index_path, repo_lock_path, repo_meta_path, repo_corpus_path, repo_corpus_meta_path, is_removable_cache_root,
    eviction_plan, CacheEntry, CloneError, IndexMeta,
    INDEX_FORMAT_VERSION, MAX_CACHE_SIZE,
};

#[test]
fn test_parse_repo_spec_basic() {
    let (owner, repo, ref_spec) = parse_repo_spec("vercel/next.js").unwrap();
    assert_eq!(owner, "vercel");
    assert_eq!(repo, "next.js");
    assert!(ref_spec.is_none());
}

#[test]
fn test_parse_repo_spec_with_ref() {
    let (owner, repo, ref_spec) = parse_repo_spec("vercel/next.js@v14.0.0").unwrap();
    assert_eq!(owner, "vercel");
    assert_eq!(repo, "next.js");
    assert_eq!(ref_spec, Some("v14.0.0"));
}

#[test]
fn test_parse_repo_spec_with_branch() {
    let (_, _, ref_spec) = parse_repo_spec("owner/repo@main").unwrap();
    assert_eq!(ref_spec, Some("main"));
}

#[test]
fn test_parse_repo_spec_invalid() {
    assert!(parse_repo_spec("no-slash").is_none());
    assert!(parse_repo_spec("/repo").is_none());
    assert!(parse_repo_spec("owner/").is_none());
}

#[test]
fn parse_repo_spec_splits_at_first_separators() {
    let (owner, repo, r) = parse_repo_spec("a/b/c@x@y").unwrap();
    assert_eq!((owner, repo, r), ("a", "b/c", Some("x@y")));
    assert!(parse_repo_spec("a@b/c").is_none());
}

#[test]
fn cache_paths_follow_the_layout() {
    assert_eq!(repo_cache_dir("/c/repoask", "o", "r"), "/c/repoask/repos/github.com/o/r");
    assert_eq!(repo_cache_dir("/c/repoask/", "o", "r"), "/c/repoask/repos/github.com/o/r");
    assert_eq!(repo_clone_dir("/c", "o", "r"), "/c/repos/github.com/o/r/repo");
    assert_eq!(repo_index_path("/c", "o", "r"), "/c/repos/github.com/o/r/index.bin");
    assert_eq!(repo_meta_path("/c", "o", "r"), "/c/repos/github.com/o/r/index.meta.json");
    assert_eq!(repo_lock_path("/c", "o", "r"), "/c/repos/github.com/o/r/.lock");
}

#[test]
fn safe_components_reject_traversal() {
    assert!(is_safe_path_component("next.js"));
    assert!(!is_safe_path_component(""));
    assert!(!is_safe_path_component("."));
    assert!(!is_safe_path_component(".."));
    assert!(!is_safe_path_component("a/b"));
    assert!(!is_safe_path_component("a\\b"));
}

#[test]
fn valid_names_allow_only_safe_characters() {
    assert!(is_valid_name("next.js"));
    assert!(is_valid_name("my_repo-2"));
    assert!(!is_valid_name(""));
    assert!(!is_valid_name("bad name"));
    assert!(!is_valid_name("rëpo"));
}

#[test]
fn clone_spec_errors_name_the_bad_part() {
    assert!(check_clone_spec("vercel", "next.js", Some("v14")).is_ok());
    match check_clone_spec("bad owner", "r", None) {
        Err(CloneError::InvalidSpec(m)) => assert_eq!(m, "invalid owner: \"bad owner\""),
        _ => panic!("expected invalid owner"),
    }
    match check_clone_spec("o", "", None) {
        Err(CloneError::InvalidSpec(m)) => assert_eq!(m, "invalid repo: \"\""),
        _ => panic!("expected invalid repo"),
    }
    match check_clone_spec("o", "r", Some("--upload-pack=x")) {
        Err(CloneError::InvalidSpec(m)) => assert_eq!(m, "invalid ref_spec: \"--upload-pack=x\""),
        _ => panic!("expected invalid ref"),
    }
}

#[test]
fn index_meta_checks_format_and_commit() {
    let meta = IndexMeta::with_time("abc123".to_owned(), 42);
    assert!(meta.is_compatible());
    assert!(meta.matches_commit("abc123"));
    assert!(!meta.matches_commit("abc124"));
    assert_eq!(meta.indexed_at, 42);
    assert_eq!(meta.index_format_version, INDEX_FORMAT_VERSION);
    let old = IndexMeta { index_format_version: 0, ..IndexMeta::new("x".to_owned()) };
    assert!(!old.is_compatible());
}

fn entry(path: &str, size: u64, secs: i64, nanos: u32) -> CacheEntry {
    CacheEntry { path: path.to_owned(), size, modified_secs: secs, modified_nanos: nanos }
}

#[test]
fn eviction_removes_oldest_until_the_cache_fits() {
    let gb: u64 = 1 << 30;
    let plan = eviction_plan(vec![
        entry("/c/a", gb + gb / 2, 100, 0),
        entry("/c/b", gb, 50, 0),
        entry("/c/c", gb / 5, 200, 0),
    ]);
    assert_eq!(plan, vec!["/c/b"]);
    let plan = eviction_plan(vec![
        entry("/c/a", 2 * gb, 100, 5),
        entry("/c/b", 2 * gb, 100, 4),
        entry("/c/c", gb, -3, 0),
    ]);
    assert_eq!(plan, vec!["/c/c", "/c/b"]);
}

#[test]
fn eviction_keeps_a_cache_that_fits() {
    assert!(eviction_plan(Vec::new()).is_empty());
    assert!(eviction_plan(vec![entry("/c/a", MAX_CACHE_SIZE, 1, 0)]).is_empty());
    assert_eq!(eviction_plan(vec![entry("/c/a", MAX_CACHE_SIZE + 1, 1, 0)]), vec!["/c/a"]);
}

#[test]
fn eviction_breaks_ties_by_path() {
    let plan = eviction_plan(vec![
        entry("/c/z", MAX_CACHE_SIZE, 7, 0),
        entry("/c/m", MAX_CACHE_SIZE, 7, 0),
    ]);
    assert_eq!(plan, vec!["/c/m"]);
}

#[test]
fn corpus_paths_are_distinct_from_index_paths() {
    assert_eq!(repo_corpus_path("/c", "o", "r"), "/c/repos/github.com/o/r/corpus.bin");
    assert_eq!(repo_corpus_meta_path("/c", "o", "r"), "/c/repos/github.com/o/r/corpus.meta.json");
    assert_ne!(repo_corpus_meta_path("/c", "o", "r"), repo_meta_path("/c", "o", "r"));
}

#[test]
fn only_cache_roots_naming_repoask_are_removable() {
    assert!(is_removable_cache_root("/home/u/.cache/repoask"));
    assert!(!is_removable_cache_root("/home/u/.cache"));
    assert!(!is_removable_cache_root(""));
}

#[test]
fn different_repositories_get_different_directories() {
    let a = repo_cache_dir("/c", "ab", "c");
    let b = repo_cache_dir("/c", "a", "bc");
    assert_ne!(a, b);
    assert_ne!(repo_cache_dir("/c", "o", "r"), repo_cache_dir("/c", "r", "o"));
}

#[test]
fn written_specs_parse_back() {
    assert_eq!(parse_repo_spec("own-er/re.po"), Some(("own-er", "re.po", None)));
    assert_eq!(parse_repo_spec("o/r/x@feature/y@z"), Some(("o", "r/x", Some("feature/y@z"))));
}

#[test]
fn new_index_meta_records_the_current_time() {
    let meta = IndexMeta::new("abc".to_owned());
    assert!(meta.indexed_at > 1_600_000_000);
    assert_eq!(meta.commit_hash, "abc");
    assert!(meta.is_compatible());
}

#[test]
fn dot_names_are_invalid_specs() {
    match check_clone_spec("..", "repo", None) {
        Err(CloneError::InvalidSpec(m)) => assert_eq!(m, "invalid owner: \"..\""),
        _ => panic!("expected invalid owner"),
    }
    match check_clone_spec("o", ".", None) {
        Err(CloneError::InvalidSpec(m)) => assert_eq!(m, "invalid repo: \".\""),
        _ => panic!("expected invalid repo"),
    }
}
