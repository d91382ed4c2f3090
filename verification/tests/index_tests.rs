use repoask::index::{counts_within_limits, try_build, InvertedIndex, Posting, StoredDoc};
use repoask::types::{DocSection, ExportInfo, IndexDocument, SearchDocumentType, SearchFilters, Symbol, SymbolKind};

fn code(name: &str, filepath: &str) -> IndexDocument {
    IndexDocument::Code(Symbol {
        name: name.to_owned(),
        kind: SymbolKind::Function,
        filepath: filepath.to_owned(),
        start_line: 1,
        end_line: 5,
        params: vec![],
        signature_preview: None,
        comment: None,
        export: ExportInfo::public_named(),
    })
}

fn doc(title: &str, filepath: &str, content: &str) -> IndexDocument {
    IndexDocument::Doc(DocSection {
        filepath: filepath.to_owned(),
        section_title: title.to_owned(),
        heading_hierarchy: vec![title.to_owned()],
        content: content.to_owned(),
        code_symbols: vec![],
        start_line: 1,
        end_line: 3,
    })
}

fn filters(dirs: &[&str], exts: &[&str], t: Option<SearchDocumentType>) -> SearchFilters {
    SearchFilters {
        dirs: dirs.iter().map(|d| d.to_string()).collect(),
        exts: exts.iter().map(|e| e.to_string()).collect(),
        result_type: t,
    }
}

#[test]
fn empty_index_has_no_hits() {
    let idx = InvertedIndex::build(&vec![]);
    assert_eq!(idx.doc_count(), 0);
    assert!(idx.hits_for_query("anything").is_empty());
}

#[test]
fn hits_point_at_documents_containing_the_term() {
    let idx = InvertedIndex::build(&vec![
        code("validateToken", "src/auth.ts"),
        doc("Setup", "README.md", "Install the package and validate tokens."),
    ]);
    assert_eq!(idx.doc_count(), 2);
    let hits = idx.hits_for_query("validate");
    assert!(!hits.is_empty());
    assert!(hits.iter().any(|(d, _)| *d == 0));
    assert!(hits.iter().any(|(d, _)| *d == 1));
    assert!(hits.iter().all(|(_, input)| input.total_docs == 2 && input.doc_freq == 2));
    assert!(idx.hits_for_query("zebra").is_empty());
}

#[test]
fn reexports_are_not_indexed() {
    let idx = InvertedIndex::build(&vec![IndexDocument::Reexport(repoask::types::Reexport {
        filepath: "src/index.ts".to_owned(),
        start_line: 1,
        end_line: 1,
        local_name: "a".to_owned(),
        exported_name: "b".to_owned(),
        source_specifier: None,
        is_type_only: false,
    })]);
    assert_eq!(idx.doc_count(), 0);
}

#[test]
fn filters_by_type_dir_and_extension() {
    let idx = InvertedIndex::build(&vec![
        code("alpha", "src\\auth\\alpha.TS"),
        doc("Alpha", "docs/alpha.md", "alpha"),
        code("alpha2", "srcx/alpha.ts"),
    ]);
    assert!(idx.matches_filters(0, &filters(&[], &[], Some(SearchDocumentType::Code))));
    assert!(!idx.matches_filters(1, &filters(&[], &[], Some(SearchDocumentType::Code))));
    assert!(idx.matches_filters(0, &filters(&["src"], &[], None)));
    assert!(!idx.matches_filters(2, &filters(&["src"], &[], None)));
    assert!(idx.matches_filters(0, &filters(&[], &["ts"], None)));
    assert!(!idx.matches_filters(1, &filters(&[], &["ts"], None)));
    assert!(!idx.matches_filters(7, &filters(&[], &[], None)));
}

#[test]
fn stored_docs_keep_metadata_and_example_flag() {
    let idx = InvertedIndex::build(&vec![code("demo", "pkg/examples/demo.ts")]);
    match idx.stored_doc(0) {
        StoredDoc::Code { filepath, is_example, .. } => {
            assert_eq!(filepath, "pkg/examples/demo.ts");
            assert!(*is_example);
        },
        _ => panic!("expected code"),
    }
}

#[test]
fn index_parts_round_trip() {
    let docs = vec![code("validateToken", "src/auth.rs"), doc("Authentication", "README.md", "validate the token")];
    let idx = InvertedIndex::build(&docs);
    let before = idx.hits_for_query("validate token");
    let parts = idx.into_parts();
    assert_eq!(parts.documents.len(), 2);
    let back = InvertedIndex::from_parts(parts).expect("consistent tables");
    let after = back.hits_for_query("validate token");
    assert_eq!(before, after);
    assert_eq!(back.doc_count(), 2);
}

#[test]
fn inconsistent_parts_are_refused() {
    let idx = InvertedIndex::build(&vec![code("alpha", "a.rs"), code("beta", "b.rs")]);
    let mut parts = idx.into_parts();
    parts.postings[0].push(Posting { doc_id: 7, field_id: 0, term_freq: 1 });
    assert!(InvertedIndex::from_parts(parts).is_none());

    let mut parts = InvertedIndex::build(&vec![code("alpha", "a.rs"), code("beta", "b.rs")]).into_parts();
    parts.terms.swap(0, 1);
    assert!(InvertedIndex::from_parts(parts).is_none());

    let mut parts = InvertedIndex::build(&vec![code("alpha", "a.rs")]).into_parts();
    parts.doc_freqs.pop();
    assert!(InvertedIndex::from_parts(parts).is_none());

    let mut parts = InvertedIndex::build(&vec![code("alpha", "a.rs")]).into_parts();
    parts.postings[0][0].field_id = 4;
    assert!(InvertedIndex::from_parts(parts).is_none());
}

#[test]
fn term_counts_must_fit_sixteen_bits() {
    assert!(counts_within_limits(&vec![code("alpha", "a.rs"), doc("T", "r.md", "word word word")]));
    let long = "word ".repeat(70_000);
    assert!(!counts_within_limits(&vec![doc("T", "r.md", &long)]));
    assert!(counts_within_limits(&vec![]));
}

#[test]
fn test_search_with_dir_filter_matches_windows_style_paths() {
    let idx = InvertedIndex::build(&vec![code("validateToken", "src\\auth\\token.rs")]);
    let f = filters(&["src/auth"], &[], None);
    let hits = idx.hits_for_query("validate token");
    assert!(!hits.is_empty());
    assert!(hits.iter().all(|(d, _)| idx.matches_filters(*d, &f)));
    match idx.stored_doc(0) {
        StoredDoc::Code { filepath, .. } => assert_eq!(filepath, "src\\auth\\token.rs"),
        StoredDoc::Doc { .. } => panic!("expected a code document"),
    }
}

#[test]
fn test_search_with_dir_filter_does_not_match_file_named_like_directory() {
    let idx = InvertedIndex::build(&vec![
        doc("Root docs file", "docs", "metadata"),
        doc("Auth docs", "docs/auth.md", "Authenticate users"),
    ]);
    let f = filters(&["docs"], &[], None);
    let passing: Vec<u32> = {
        let mut ids: Vec<u32> = idx.hits_for_query("docs authenticate").iter().map(|(d, _)| *d).filter(|d| idx.matches_filters(*d, &f)).collect();
        ids.sort();
        ids.dedup();
        ids
    };
    assert_eq!(passing, vec![1]);
    match idx.stored_doc(1) {
        StoredDoc::Doc { filepath, .. } => assert_eq!(filepath, "docs/auth.md"),
        StoredDoc::Code { .. } => panic!("expected a doc section"),
    }
}

#[test]
fn candidates_are_filtered_hits_once_each_in_order() {
    let idx = InvertedIndex::build(&vec![
        code("validateToken", "src/auth.ts"),
        doc("Tokens", "docs/tokens.md", "validate the token"),
        code("validateUser", "src/user.ts"),
        code("other", "src/other.ts"),
    ]);
    assert_eq!(idx.candidates("validate token", &filters(&[], &[], None)), vec![0, 1, 2]);
    assert_eq!(idx.candidates("validate token", &filters(&["src"], &[], None)), vec![0, 2]);
    assert_eq!(idx.candidates("validate token", &filters(&[], &["md"], None)), vec![1]);
    assert!(idx.candidates("zebra", &filters(&[], &[], None)).is_empty());
}

#[test]
fn try_build_indexes_documents_within_limits() {
    let docs = vec![code("alpha", "src/a.ts"), doc("Alpha", "docs/a.md", "alpha")];
    let idx = try_build(&docs).expect("two small documents fit");
    assert_eq!(idx.doc_count(), 2);
    let long = "word ".repeat(70_000);
    assert!(try_build(&vec![doc("Big", "docs/big.md", &long)]).is_none());
}
