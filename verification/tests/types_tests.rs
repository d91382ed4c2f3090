use repoask::types::{
    CommentFlag, CommentInfo, CommentNormalizationStatus, CommentSource, ExportInfo, ExportKind, IndexDocument,
    ParseOutcome, Publicness,
};

#[test]
fn comment_info_extracts_summary_and_flags() {
    let comment = CommentInfo::from_normalized_text(
        "@deprecated Validate token safely. Internal use only.",
        CommentSource::JsDoc,
    )
    .unwrap();

    assert_eq!(comment.summary_line.as_deref(), Some("@deprecated Validate token safely."));
    assert!(comment.flags.contains(&CommentFlag::Deprecated));
    assert!(comment.flags.contains(&CommentFlag::Internal));
}

#[test]
fn searchable_text_deduplicates_identical_body_preview() {
    let comment = CommentInfo {
        summary_line: Some("Validate token".to_owned()),
        body_preview: Some("Validate token".to_owned()),
        flags: vec![],
        source: CommentSource::PlainComment,
        normalization_status: CommentNormalizationStatus::SummaryOnly,
    };

    assert_eq!(comment.searchable_text().as_deref(), Some("Validate token"));
}

#[test]
fn export_info_surface_public_matches_public_variants() {
    assert!(ExportInfo::public_named().is_surface_public());
    assert!(ExportInfo::reexported().is_surface_public());
    assert!(!ExportInfo::private().is_surface_public());
    assert!(!ExportInfo::unknown().is_surface_public());
}

#[test]
fn comment_info_of_blank_text_is_none() {
    assert!(CommentInfo::from_normalized_text("   \n\t ", CommentSource::RustDoc).is_none());
}

#[test]
fn comment_info_normalizes_whitespace() {
    let c = CommentInfo::from_normalized_text("  Adds   two\n numbers.  ", CommentSource::RustDoc).unwrap();
    assert_eq!(c.summary_line.as_deref(), Some("Adds two numbers."));
    assert_eq!(c.source, CommentSource::RustDoc);
}

#[test]
fn searchable_text_joins_distinct_parts() {
    let comment = CommentInfo {
        summary_line: Some("Validate token.".to_owned()),
        body_preview: Some("Validate token. Checks expiry.".to_owned()),
        flags: vec![],
        source: CommentSource::PlainComment,
        normalization_status: CommentNormalizationStatus::SummaryOnly,
    };
    let text = comment.searchable_text().unwrap();
    assert!(text.contains("Validate token."));
    assert!(text.contains("Checks expiry."));
}

#[test]
fn export_info_constructors_set_kinds() {
    assert_eq!(ExportInfo::public_default().export_kind, ExportKind::Default);
    assert_eq!(ExportInfo::private().export_kind, ExportKind::NotExported);
    assert_eq!(ExportInfo::new(Publicness::Package, ExportKind::Named).publicness, Publicness::Package);
}

#[test]
fn into_lenient_keeps_only_parsed_documents() {
    let docs: Vec<IndexDocument> = vec![];
    assert!(ParseOutcome::Parsed(docs).into_lenient().is_some());
    let failed = ParseOutcome::Failed { filepath: "a.ts".to_owned(), reason: "x".to_owned() };
    assert!(failed.into_lenient().is_none());
}
