use repoask::investigation::{
    build_overview, build_surface_ref, HintAction, InvestigationCorpus, ModuleResolutionConfig, OverviewBudget,
    PathAliasRule, ScopedModuleResolution, SurfaceKind, TestLinkReason,
};
use repoask::types::{
    CommentInfo, CommentSource, ExportInfo, ExportKind, IndexDocument, Publicness, Reexport, Symbol, SymbolKind,
};

fn symbol(name: &str, kind: SymbolKind, filepath: &str, line: u32, params: &[&str], export: ExportInfo) -> Symbol {
    let params: Vec<String> = params.iter().map(|p| p.to_string()).collect();
    let signature = match kind {
        SymbolKind::Function | SymbolKind::Method => format!("{name}({})", params.join(", ")),
        _ => name.to_owned(),
    };
    Symbol {
        name: name.to_owned(),
        kind,
        filepath: filepath.to_owned(),
        start_line: line,
        end_line: line + 2,
        params,
        signature_preview: Some(signature),
        comment: None,
        export,
    }
}

fn reexport(filepath: &str, line: u32, local: &str, exported: &str, source: Option<&str>) -> Reexport {
    Reexport {
        filepath: filepath.to_owned(),
        start_line: line,
        end_line: line,
        local_name: local.to_owned(),
        exported_name: exported.to_owned(),
        source_specifier: source.map(|s| s.to_owned()),
        is_type_only: false,
    }
}

#[test]
fn build_surface_ref_normalizes_path_and_keeps_line_anchor() {
    assert_eq!(
        build_surface_ref(SurfaceKind::Api, "src\\auth.ts", "validateToken", 3),
        "api:src/auth.ts#validateToken@L3"
    );
}

#[test]
fn overview_budget_defaults_match_step_one_spec() {
    let budget = OverviewBudget::default();
    assert_eq!(budget.max_apis, 6);
    assert_eq!(budget.max_hints, 4);
    assert_eq!(budget.max_total_chars, 6_000);
}

#[test]
fn build_overview_surfaces_public_api_type_test_and_hints() {
    let mut validate = symbol("validateToken", SymbolKind::Function, "src/auth.ts", 3, &["token"], ExportInfo::public_named());
    validate.comment = CommentInfo::from_normalized_text("Validates a token.", CommentSource::JsDoc);
    let corpus = InvestigationCorpus::new(vec![
        IndexDocument::Code(validate),
        IndexDocument::Code(symbol("Session", SymbolKind::Interface, "src/auth.ts", 10, &[], ExportInfo::public_named())),
        IndexDocument::Code(symbol(
            "validate_token_returns_session",
            SymbolKind::Function,
            "tests/auth_test.rs",
            5,
            &[],
            ExportInfo { publicness: Publicness::Private, export_kind: ExportKind::NotExported, container: None },
        )),
    ]);

    let overview = build_overview(&corpus, "owner/repo", OverviewBudget::default());

    assert_eq!(overview.public_apis.len(), 1);
    assert_eq!(overview.public_types.len(), 1);
    assert_eq!(overview.public_api_tests.len(), 1);
    assert!(overview.entry_hints.iter().any(|hint| hint.action == HintAction::InspectSymbol));
    assert!(overview.public_apis[0].tests[0].reasons.contains(&TestLinkReason::FileStemMatch));
    assert!(overview.public_apis[0].tests[0].reasons.contains(&TestLinkReason::TestNameMatch));
}

#[test]
fn build_overview_falls_back_to_unknown_publicness_symbols() {
    let corpus = InvestigationCorpus::new(vec![IndexDocument::Code(symbol(
        "findUser",
        SymbolKind::Function,
        "app.py",
        1,
        &["user_id"],
        ExportInfo::unknown(),
    ))]);

    let overview = build_overview(&corpus, "owner/repo", OverviewBudget::default());

    assert_eq!(overview.public_apis.len(), 1);
    assert_eq!(overview.public_apis[0].publicness, Publicness::Unknown);
    assert!(overview.meta.coverage.notes.iter().any(|note| note.contains("unknown publicness")));
}

#[test]
fn build_overview_resolves_barrel_reexports() {
    let corpus = InvestigationCorpus::new(vec![
        IndexDocument::Code(symbol("validateToken", SymbolKind::Function, "src/auth.ts", 3, &["token"], ExportInfo::public_named())),
        IndexDocument::Reexport(reexport("src/index.ts", 1, "validateToken", "createSession", Some("./auth"))),
    ]);

    let overview = build_overview(&corpus, "owner/repo", OverviewBudget::default());

    assert!(overview
        .public_apis
        .iter()
        .any(|api| api.signature == "createSession(token)" && api.publicness == Publicness::Reexported));
}

#[test]
fn build_overview_resolves_default_reexports() {
    let corpus = InvestigationCorpus::new(vec![
        IndexDocument::Code(symbol("createClient", SymbolKind::Function, "src/client.ts", 1, &["config"], ExportInfo::public_default())),
        IndexDocument::Reexport(reexport("src/index.ts", 1, "default", "createRepoClient", Some("./client"))),
    ]);

    let overview = build_overview(&corpus, "owner/repo", OverviewBudget::default());

    assert!(overview.public_apis.iter().any(|api| api.signature == "createRepoClient(config)"));
}

#[test]
fn build_overview_resolves_path_alias_reexports() {
    let corpus = InvestigationCorpus::with_module_resolution(
        vec![
            IndexDocument::Code(symbol("validateToken", SymbolKind::Function, "src/auth.ts", 3, &["token"], ExportInfo::public_named())),
            IndexDocument::Reexport(reexport("src/index.ts", 1, "validateToken", "createSession", Some("@/auth"))),
        ],
        ModuleResolutionConfig {
            tsconfig_base_url: None,
            tsconfig_paths: vec![PathAliasRule { pattern: "@/*".to_owned(), targets: vec!["src/*".to_owned()] }],
            scoped_configs: vec![],
        },
    );

    let overview = build_overview(&corpus, "owner/repo", OverviewBudget::default());

    assert!(overview.public_apis.iter().any(|api| api.signature == "createSession(token)"));
}

#[test]
fn build_overview_expands_wildcard_reexports_and_namespace_hints() {
    let corpus = InvestigationCorpus::new(vec![
        IndexDocument::Code(symbol("validateToken", SymbolKind::Function, "src/auth.ts", 3, &["token"], ExportInfo::public_named())),
        IndexDocument::Code(symbol("Session", SymbolKind::Interface, "src/auth.ts", 10, &[], ExportInfo::public_named())),
        IndexDocument::Reexport(reexport("src/index.ts", 1, "*", "*", Some("./auth"))),
        IndexDocument::Reexport(reexport("src/index.ts", 2, "*", "authApi", Some("./auth"))),
    ]);

    let overview = build_overview(&corpus, "owner/repo", OverviewBudget::default());

    assert!(overview.public_apis.iter().any(|api| api.signature == "validateToken(token)"));
    assert!(overview.public_types.iter().any(|public_type| public_type.signature == "Session"));
    assert!(overview.public_types.iter().any(|public_type| public_type.signature == "authApi"));
}

#[test]
fn overview_scores_are_in_tenths() {
    // A public function with a linked test: 3.0 + 1.5; the type: 2.0; the namespace module: 2.1.
    let corpus = InvestigationCorpus::new(vec![
        IndexDocument::Code(symbol("validateToken", SymbolKind::Function, "src/auth.ts", 3, &["token"], ExportInfo::public_named())),
        IndexDocument::Code(symbol("Session", SymbolKind::Interface, "src/auth.ts", 10, &[], ExportInfo::public_named())),
        IndexDocument::Code(symbol("test_validate_token", SymbolKind::Function, "tests/auth_test.rs", 1, &[], ExportInfo::private())),
        IndexDocument::Reexport(reexport("src/index.ts", 2, "*", "authApi", Some("./auth"))),
    ]);
    let overview = build_overview(&corpus, "owner/repo", OverviewBudget::default());
    assert_eq!(overview.public_apis[0].score, 45);
    let session = overview.public_types.iter().find(|t| t.signature == "Session").unwrap();
    assert_eq!(session.score, 20);
    let ns = overview.public_types.iter().find(|t| t.signature == "authApi").unwrap();
    assert_eq!(ns.score, 21);
    assert_eq!(ns.comment_summary.as_deref(), Some("namespace re-export from ./auth"));
    // ranked: the module card (2.1) before the interface (2.0)
    assert_eq!(overview.public_types[0].signature, "authApi");
    let test = &overview.public_apis[0].tests[0];
    assert_eq!(test.test_ref, "test:tests/auth_test.rs#test_validate_token@L1");
    assert_eq!(u32::try_from(test.reasons.len()).unwrap() * 10 + 5, test.score);
}

#[test]
fn overview_lists_are_ranked_and_cut_to_budget() {
    let mut docs = Vec::new();
    for (i, name) in ["alpha", "beta", "gamma", "delta"].iter().enumerate() {
        docs.push(IndexDocument::Code(symbol(name, SymbolKind::Function, &format!("src/{name}.ts"), i as u32 + 1, &[], ExportInfo::public_named())));
    }
    let budget = OverviewBudget { max_apis: 2, max_types: 6, max_tests: 6, max_hints: 1, max_comment_chars: 140, max_total_chars: 6000 };
    let overview = build_overview(&InvestigationCorpus::new(docs), "owner/repo", budget);
    assert_eq!(overview.public_apis.len(), 2);
    assert!(overview.meta.truncated);
    assert_eq!(overview.entry_hints.len(), 1);
    // equal scores rank by path: alpha before beta
    assert_eq!(overview.public_apis[0].filepath, "src/alpha.ts");
    assert_eq!(overview.public_apis[1].filepath, "src/beta.ts");
    assert_eq!(overview.meta.coverage.notes.last().map(|s| s.as_str()), Some("overview output truncated by render budget"));
}

#[test]
fn overview_of_empty_corpus_is_empty_and_unsupported() {
    let overview = build_overview(&InvestigationCorpus::new(vec![]), "o/r", OverviewBudget::default());
    assert!(overview.public_apis.is_empty() && overview.public_types.is_empty());
    assert!(overview.entry_hints.is_empty());
    assert!(!overview.meta.truncated);
    assert_eq!(overview.meta.repo, "o/r");
}

#[test]
fn examples_paths_lower_the_score_and_comments_raise_it() {
    let mut with_comment = symbol("run", SymbolKind::Function, "examples/demo/run.ts", 1, &[], ExportInfo::public_named());
    with_comment.comment = CommentInfo::from_normalized_text("Runs it. @deprecated", CommentSource::JsDoc);
    let overview = build_overview(&InvestigationCorpus::new(vec![IndexDocument::Code(with_comment)]), "o/r", OverviewBudget::default());
    // "examples/demo/run.ts" has no leading '/', so the examples penalty does not apply: 3.0 + 0.3 + 0.2
    assert_eq!(overview.public_apis[0].score, 35);
    let nested = symbol("run2", SymbolKind::Function, "pkg/examples/run2.ts", 1, &[], ExportInfo::public_named());
    let overview2 = build_overview(&InvestigationCorpus::new(vec![IndexDocument::Code(nested)]), "o/r", OverviewBudget::default());
    assert_eq!(overview2.public_apis[0].score, 23);
}

#[test]
fn scoped_base_url_resolves_bare_specifiers() {
    let corpus = InvestigationCorpus::with_module_resolution(
        vec![
            IndexDocument::Code(symbol("Button", SymbolKind::Class, "packages/web/src/button.tsx", 1, &[], ExportInfo::public_named())),
            IndexDocument::Reexport(reexport("packages/web/index.ts", 1, "Button", "Button", Some("src/button"))),
        ],
        ModuleResolutionConfig {
            tsconfig_base_url: None,
            tsconfig_paths: vec![],
            scoped_configs: vec![ScopedModuleResolution {
                scope_dir: "packages/web".to_owned(),
                tsconfig_base_url: Some("packages/web".to_owned()),
                tsconfig_paths: vec![],
            }],
        },
    );
    let overview = build_overview(&corpus, "o/r", OverviewBudget::default());
    assert!(overview.public_types.iter().any(|t| t.symbol_ref == "type:packages/web/index.ts#Button@L1" && t.score == 21));
}
