use repoask::cli::ParseDiagnostics;
use repoask::parser::{
    is_doc_file, is_ts_path, last_segment_exec, parse_file, parse_file_lenient, parse_source_file, record_outcome,
    record_oversized, ParseError,
};
use repoask::queries::{c_query, cpp_query, go_query, java_query, python_query, ruby_query, rust_query};
use repoask::types::{IndexDocument, ParseOutcome};

#[test]
fn parse_file_lenient_returns_some_for_supported_markdown() {
    let docs = parse_file_lenient("README.md", "# Hello\n\nrepoask", Vec::new());
    assert!(docs.is_some());
}

#[test]
fn parse_file_lenient_returns_none_for_unsupported_extension() {
    let docs = parse_file_lenient("README.txt", "repoask", Vec::new());
    assert!(docs.is_none());
}

#[test]
fn parse_file_reports_the_unsupported_extension() {
    match parse_file("notes.txt", "hello", Vec::new()) {
        ParseOutcome::Unsupported { filepath, extension } => {
            assert_eq!(filepath, "notes.txt");
            assert_eq!(extension.as_deref(), Some("txt"));
        },
        _ => panic!("expected unsupported"),
    }
    match parse_file("Makefile", "all:", Vec::new()) {
        ParseOutcome::Unsupported { extension, .. } => assert_eq!(extension, None),
        _ => panic!("expected unsupported"),
    }
}

#[test]
fn parse_file_fails_a_nonblank_script_without_documents() {
    match parse_file("src/app.ts", "export const x = 1;", Vec::new()) {
        ParseOutcome::Failed { filepath, reason } => {
            assert_eq!(filepath, "src/app.ts");
            assert_eq!(reason, "oxc parser returned no symbols (possible parse error)");
        },
        _ => panic!("expected failure"),
    }
    assert!(matches!(parse_file("src/empty.ts", "  \n", Vec::new()), ParseOutcome::Parsed(ref d) if d.is_empty()));
}

#[test]
fn parse_file_keeps_markdown_sections_as_docs() {
    match parse_file("docs/guide.mdx", "# A\n\ntext\n\n## B\n\nmore\n", Vec::new()) {
        ParseOutcome::Parsed(docs) => {
            assert_eq!(docs.len(), 2);
            assert!(docs.iter().all(|d| matches!(d, IndexDocument::Doc(_))));
        },
        _ => panic!("expected parsed"),
    }
}

#[test]
fn doc_files_are_recognised_case_insensitively() {
    assert!(is_doc_file("docs/Guide.MD"));
    assert!(is_doc_file("CHANGELOG"));
    assert!(is_doc_file("Contributing.txt"));
    assert!(!is_doc_file("src/main.rs"));
}

#[test]
fn last_segment_follows_the_last_dot() {
    assert_eq!(last_segment_exec("a/b.c.ts"), "ts");
    assert_eq!(last_segment_exec("noext"), "noext");
    assert!(is_ts_path("x.mjs"));
    assert!(!is_ts_path("x.rs"));
}

#[test]
fn parse_error_messages() {
    let e = ParseError::UnsupportedExtension { filepath: "a.zig".to_owned() };
    assert_eq!(e.message(), "unsupported file extension: a.zig");
    let f = ParseError::ParseFailed { filepath: "b.ts".to_owned(), reason: "bad".to_owned() };
    assert_eq!(f.message(), "parse failed for b.ts: bad");
}

#[test]
fn queries_name_their_definitions() {
    assert!(rust_query().contains("@definition.function"));
    assert!(python_query().contains("class_definition"));
    assert!(go_query().contains("method_declaration"));
    assert!(java_query().contains("interface_declaration"));
    assert!(c_query().contains("struct_specifier"));
    assert!(cpp_query().contains("class_specifier"));
    assert!(ruby_query().contains("(module"));
}

#[test]
fn parse_source_file_falls_back_to_tree_sitter() {
    match parse_source_file("src/lib.rs", "pub fn hello() {}\n", Vec::new()) {
        ParseOutcome::Parsed(docs) => {
            assert_eq!(docs.len(), 1);
            assert!(matches!(&docs[0], IndexDocument::Code(c) if c.name == "hello"));
        },
        _ => panic!("expected parsed"),
    }
    assert!(matches!(parse_source_file("README.md", "# A\n", Vec::new()), ParseOutcome::Parsed(_)));
    match parse_source_file("data.bin", "xx", Vec::new()) {
        ParseOutcome::Unsupported { extension, .. } => assert_eq!(extension.as_deref(), Some("bin")),
        _ => panic!("expected unsupported"),
    }
}

fn empty_report() -> ParseDiagnostics {
    ParseDiagnostics { unsupported: Vec::new(), failed: Vec::new(), oversized: Vec::new(), parsed_count: 0 }
}

#[test]
fn record_outcome_sorts_files_into_the_report() {
    let mut report = empty_report();
    let mut docs: Vec<IndexDocument> = Vec::new();
    let parsed = parse_source_file("README.md", "# A\n\ntext\n", Vec::new());
    record_outcome(&mut report, &mut docs, "README.md", parsed);
    assert_eq!(report.parsed_count, 1);
    assert_eq!(docs.len(), 1);
    let unsupported = parse_source_file("x.bin", "", Vec::new());
    record_outcome(&mut report, &mut docs, "x.bin", unsupported);
    assert_eq!(report.unsupported, vec!["x.bin"]);
    let failed = parse_file("a.ts", "let x = 1;", Vec::new());
    record_outcome(&mut report, &mut docs, "a.ts", failed);
    assert_eq!(report.failed, vec![("a.ts".to_owned(), "oxc parser returned no symbols (possible parse error)".to_owned())]);
    record_oversized(&mut report, "big.rs");
    assert_eq!(report.oversized, vec!["big.rs"]);
    assert_eq!(report.parsed_count, 1);
    assert_eq!(docs.len(), 1);
}
