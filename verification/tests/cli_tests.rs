use repoask::cli::{
    build_search_filters, format_parse_report, normalize_dir_filter, normalize_ext_filter, ParseDiagnostics,
    SearchTypeArg,
};
use repoask::types::SearchDocumentType;

#[test]
fn format_parse_report_for_cache_hit() {
    assert_eq!(
        format_parse_report(None),
        vec!["verbose: reused cached index; parse report unavailable"]
    );
}

#[test]
fn format_parse_report_lists_sorted_entries() {
    let report = ParseDiagnostics {
        unsupported: vec!["docs/guide.txt".to_owned()],
        failed: vec![("src/app.ts".to_owned(), "parse error".to_owned())],
        oversized: vec!["fixtures/big.log".to_owned()],
        parsed_count: 3,
    };

    assert_eq!(
        format_parse_report(Some(&report)),
        vec![
            "verbose: parsed 3 files (unsupported: 1, failed: 1, oversized: 1)",
            "unsupported: docs/guide.txt",
            "failed: src/app.ts (parse error)",
            "oversized: fixtures/big.log",
        ]
    );
}

#[test]
fn build_search_filters_normalizes_dir_and_ext_values() {
    let filters = build_search_filters(
        &vec!["./src/".to_owned(), "docs\\api".to_owned(), "   ".to_owned()],
        &vec![".RS".to_owned(), " md ".to_owned(), "".to_owned()],
        Some(SearchTypeArg::Code),
    );

    assert_eq!(filters.dirs, vec!["src", "docs/api"]);
    assert_eq!(filters.exts, vec!["rs", "md"]);
    assert_eq!(filters.result_type, Some(SearchDocumentType::Code));
}

#[test]
fn dir_filter_strips_repeated_dot_slash_and_slashes() {
    assert_eq!(normalize_dir_filter("././/pkg/web//").as_deref(), Some("pkg/web"));
    assert_eq!(normalize_dir_filter("//"), None);
    assert_eq!(normalize_dir_filter(" \\src\\lib\\ ").as_deref(), Some("src/lib"));
}

#[test]
fn ext_filter_strips_dots_and_lowercases() {
    assert_eq!(normalize_ext_filter("..TSX").as_deref(), Some("tsx"));
    assert_eq!(normalize_ext_filter(" . "), None);
}

#[test]
fn build_search_filters_maps_doc_type_and_none() {
    let doc = build_search_filters(&vec![], &vec![], Some(SearchTypeArg::Doc));
    assert_eq!(doc.result_type, Some(SearchDocumentType::Doc));
    let none = build_search_filters(&vec![], &vec![], None);
    assert_eq!(none.result_type, None);
    assert!(none.dirs.is_empty() && none.exts.is_empty());
}

#[test]
fn format_parse_report_counts_large_numbers() {
    let report = ParseDiagnostics { unsupported: vec![], failed: vec![], oversized: vec![], parsed_count: 1234 };
    assert_eq!(
        format_parse_report(Some(&report)),
        vec!["verbose: parsed 1234 files (unsupported: 0, failed: 0, oversized: 0)"]
    );
}
