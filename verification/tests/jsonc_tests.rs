use repoask::investigation::PathAliasRule;
use repoask::jsonc::{merge_configs, strip_jsonc_comments, strip_trailing_commas, ResolvedModuleConfig};

#[test]
fn strips_line_and_block_comments_outside_strings() {
    let src = "{\n // comment\n \"a\": \"// not a comment\", /* block\n spans */ \"b\": 1\n}";
    assert_eq!(
        strip_jsonc_comments(src),
        "{\n \n \"a\": \"// not a comment\", \n \"b\": 1\n}"
    );
}

#[test]
fn keeps_escaped_quotes_inside_strings() {
    let src = "{\"a\": \"x\\\"/*y*/\"}";
    assert_eq!(strip_jsonc_comments(src), src);
}

#[test]
fn block_comment_needs_its_own_star_to_close() {
    assert_eq!(strip_jsonc_comments("a/*/ still comment */b"), "ab");
    assert_eq!(strip_jsonc_comments("a/* unterminated"), "a");
}

#[test]
fn strips_trailing_commas_before_closers() {
    assert_eq!(strip_trailing_commas("{\"a\": [1, 2,],\n}"), "{\"a\": [1, 2]\n}");
    assert_eq!(strip_trailing_commas("[\",]\", 1]"), "[\",]\", 1]");
    assert_eq!(strip_trailing_commas("[1, 2]"), "[1, 2]");
}

#[test]
fn merge_prefers_child_base_url_and_rules() {
    let parent = ResolvedModuleConfig {
        tsconfig_base_url: Some("base".to_owned()),
        tsconfig_paths: vec![
            PathAliasRule { pattern: "@/*".to_owned(), targets: vec!["parent/*".to_owned()] },
            PathAliasRule { pattern: "@shared/*".to_owned(), targets: vec!["shared/*".to_owned()] },
        ],
    };
    let child = ResolvedModuleConfig {
        tsconfig_base_url: None,
        tsconfig_paths: vec![PathAliasRule { pattern: "@/*".to_owned(), targets: vec!["src/*".to_owned()] }],
    };
    let merged = merge_configs(parent, child);
    assert_eq!(merged.tsconfig_base_url.as_deref(), Some("base"));
    let patterns: Vec<&str> = merged.tsconfig_paths.iter().map(|r| r.pattern.as_str()).collect();
    assert_eq!(patterns, vec!["@/*", "@shared/*"]);
    assert_eq!(merged.tsconfig_paths[0].targets, vec!["src/*"]);
}
