use repoask::investigation::{PathAliasRule, ScopedModuleResolution};
use repoask::jsonc::{merge_configs, ResolvedModuleConfig};
use repoask::tsconfig::{
    assemble_module_resolution, config_extends, extract_compiler_options, get, is_config_file_name,
    is_skipped_dir_name, normalize_path, parse_jsonc_value, normalize_repo_relative, normalize_scope_dir, parent_path,
    read_module_resolution, resolve_chain, resolve_extends_candidates, sort_config_paths, ChainLoader, ChainStep,
    JsonValue,
};

fn parse_config(source: &str) -> JsonValue {
    parse_jsonc_value(source).expect("a JSON config")
}

fn has_rule(rules: &[PathAliasRule], pattern: &str, targets: &[&str]) -> bool {
    rules.iter().any(|r| r.pattern == pattern && r.targets == targets)
}

#[test]
fn normalize_path_drops_dots_and_pops_parents() {
    assert_eq!(normalize_path("/a/./b/../c"), "/a/c");
    assert_eq!(normalize_path("a/b/.."), "a");
    assert_eq!(normalize_path("../x"), "x");
    assert_eq!(normalize_path("/"), "/");
    assert_eq!(normalize_path(""), "");
    assert_eq!(normalize_path("a//b/"), "a/b");
}

#[test]
fn repo_relative_targets_stay_inside_the_root() {
    assert_eq!(normalize_repo_relative("/repo", "/repo", ".").as_deref(), Some(""));
    assert_eq!(
        normalize_repo_relative("/repo/packages/web", "/repo", "src/*").as_deref(),
        Some("packages/web/src/*")
    );
    assert_eq!(normalize_repo_relative("/repo/a", "/repo", "../../outside"), None);
    assert_eq!(normalize_repo_relative("/repo", "/repo", "/abs/elsewhere"), None);
}

#[test]
fn parent_path_of_normalized_paths() {
    assert_eq!(parent_path("/a/b").as_deref(), Some("/a"));
    assert_eq!(parent_path("/a").as_deref(), Some("/"));
    assert_eq!(parent_path("/"), None);
    assert_eq!(parent_path(""), None);
    assert_eq!(parent_path("a").as_deref(), Some(""));
}

#[test]
fn scope_dir_is_relative_to_the_root() {
    assert_eq!(normalize_scope_dir("/repo/packages/web", "/repo").as_deref(), Some("packages/web"));
    assert_eq!(normalize_scope_dir("/repo/./x/..", "/repo").as_deref(), Some(""));
    assert_eq!(normalize_scope_dir("/other", "/repo"), None);
}

#[test]
fn json_get_and_extends() {
    let json = parse_config(r#"{"extends": "./base.json", "n": 3}"#);
    assert_eq!(config_extends(&json).as_deref(), Some("./base.json"));
    assert!(matches!(get(&json, "n"), Some(JsonValue::Number(s)) if s == "3"));
    assert!(get(&json, "missing").is_none());
    assert!(get(&JsonValue::Null, "extends").is_none());
    let not_a_string = parse_config(r#"{"extends": ["a", "b"]}"#);
    assert_eq!(config_extends(&not_a_string), None);
}

#[test]
fn extract_compiler_options_reads_base_url_and_paths() {
    let json = parse_config(
        r#"{
            "compilerOptions": {
                "baseUrl": ".",
                "paths": {
                    "@/*": ["src/*"],
                    "@lib": ["lib/index.ts"],
                    "@none": [],
                    "@bad": "src/*"
                }
            }
        }"#,
    );
    let resolved = extract_compiler_options("/repo", "/repo", &json);
    assert_eq!(resolved.tsconfig_base_url.as_deref(), Some(""));
    assert_eq!(resolved.tsconfig_paths.len(), 2);
    assert!(has_rule(&resolved.tsconfig_paths, "@/*", &["src/*"]));
    assert!(has_rule(&resolved.tsconfig_paths, "@lib", &["lib/index.ts"]));
}

#[test]
fn extract_compiler_options_resolves_against_the_config_directory() {
    let json = parse_config(r#"{"compilerOptions": {"baseUrl": ".", "paths": {"@/*": ["src/*", "../../up/*"]}}}"#);
    let resolved = extract_compiler_options("/repo", "/repo/packages/web", &json);
    assert_eq!(resolved.tsconfig_base_url.as_deref(), Some("packages/web"));
    assert!(has_rule(&resolved.tsconfig_paths, "@/*", &["packages/web/src/*", "up/*"]));
    let empty = extract_compiler_options("/repo", "/repo", &parse_config("{}"));
    assert_eq!(empty.tsconfig_base_url, None);
    assert!(empty.tsconfig_paths.is_empty());
}

#[test]
fn relative_extends_has_two_candidates() {
    assert_eq!(
        resolve_extends_candidates("/repo", "/repo/packages/web", "../../tsconfig.base.json"),
        vec!["/repo/tsconfig.base.json", "/repo/tsconfig.base.json"]
    );
    assert_eq!(
        resolve_extends_candidates("/repo", "/repo", "./base"),
        vec!["/repo/base", "/repo/base.json"]
    );
}

#[test]
fn package_extends_searches_ancestor_node_modules_up_to_the_root() {
    assert_eq!(
        resolve_extends_candidates("/repo", "/repo/packages/web", "@acme/config/base"),
        vec![
            "/repo/packages/web/node_modules/@acme/config/base",
            "/repo/packages/web/node_modules/@acme/config/base.json",
            "/repo/packages/node_modules/@acme/config/base",
            "/repo/packages/node_modules/@acme/config/base.json",
            "/repo/node_modules/@acme/config/base",
            "/repo/node_modules/@acme/config/base.json",
        ]
    );
}

#[test]
fn config_and_skipped_names() {
    assert!(is_config_file_name("tsconfig.json"));
    assert!(is_config_file_name("jsconfig.json"));
    assert!(!is_config_file_name("tsconfig.base.json"));
    assert!(is_skipped_dir_name("node_modules"));
    assert!(is_skipped_dir_name(".git"));
    assert!(is_skipped_dir_name("target"));
    assert!(is_skipped_dir_name(".direnv"));
    assert!(!is_skipped_dir_name("src"));
}

#[test]
fn config_paths_are_read_shallow_first_tsconfig_first() {
    let sorted = sort_config_paths(vec![
        "/r/packages/web/tsconfig.json".to_owned(),
        "/r/jsconfig.json".to_owned(),
        "/r/b/tsconfig.json".to_owned(),
        "/r/tsconfig.json".to_owned(),
        "/r/a/jsconfig.json".to_owned(),
    ]);
    assert_eq!(
        sorted,
        vec![
            "/r/tsconfig.json",
            "/r/jsconfig.json",
            "/r/b/tsconfig.json",
            "/r/a/jsconfig.json",
            "/r/packages/web/tsconfig.json",
        ]
    );
}

fn scoped(dir: &str, base: Option<&str>, rules: Vec<PathAliasRule>) -> ScopedModuleResolution {
    ScopedModuleResolution {
        scope_dir: dir.to_owned(),
        tsconfig_base_url: base.map(str::to_owned),
        tsconfig_paths: rules,
    }
}

fn rule(pattern: &str, target: &str) -> PathAliasRule {
    PathAliasRule { pattern: pattern.to_owned(), targets: vec![target.to_owned()] }
}

#[test]
fn assembly_keeps_the_first_config_of_each_scope() {
    let config = assemble_module_resolution(vec![
        scoped("", Some(""), vec![rule("@/*", "src/*")]),
        scoped("", Some("ignored"), vec![rule("@x", "x")]),
        scoped("packages/web", Some("packages/web"), vec![rule("@/*", "packages/web/src/*")]),
        scoped("packages/web", None, Vec::new()),
    ]);
    assert_eq!(config.tsconfig_base_url.as_deref(), Some(""));
    assert!(has_rule(&config.tsconfig_paths, "@/*", &["src/*"]));
    assert_eq!(config.tsconfig_paths.len(), 1);
    assert_eq!(config.scoped_configs.len(), 1);
    assert_eq!(config.scoped_configs[0].scope_dir, "packages/web");
    assert_eq!(config.scoped_configs[0].tsconfig_base_url.as_deref(), Some("packages/web"));
}

#[test]
fn nested_config_with_extends_merges_parent_rules() {
    // packages/web/tsconfig.json extends ../../tsconfig.base.json
    let base = parse_config(r#"{"compilerOptions": {"baseUrl": ".", "paths": {"@shared/*": ["shared/*"]}}}"#);
    let web = parse_config(
        r#"{"extends": "../../tsconfig.base.json", "compilerOptions": {"baseUrl": ".", "paths": {"@/*": ["src/*"]}}}"#,
    );
    let parent = extract_compiler_options("/repo", "/repo", &base);
    let current = extract_compiler_options("/repo", "/repo/packages/web", &web);
    let merged: ResolvedModuleConfig = merge_configs(parent, current);
    assert_eq!(merged.tsconfig_base_url.as_deref(), Some("packages/web"));
    assert!(has_rule(&merged.tsconfig_paths, "@/*", &["packages/web/src/*"]));
    assert!(has_rule(&merged.tsconfig_paths, "@shared/*", &["shared/*"]));
}

#[test]
fn package_config_targets_resolve_inside_node_modules() {
    let package = parse_config(r#"{"compilerOptions": {"paths": {"@shared/*": ["shared/*"]}}}"#);
    let resolved = extract_compiler_options("/repo", "/repo/node_modules/@acme/config", &package);
    assert!(has_rule(&resolved.tsconfig_paths, "@shared/*", &["node_modules/@acme/config/shared/*"]));
}

#[test]
fn jsonc_config_with_comments_and_trailing_commas() {
    let json = parse_config(
        r#"{
            // comment
            "compilerOptions": {
                "baseUrl": ".",
                "paths": {
                    "@/*": ["src/*",],
                },
            },
        }"#,
    );
    let resolved = extract_compiler_options("/repo", "/repo", &json);
    assert_eq!(resolved.tsconfig_base_url.as_deref(), Some(""));
    assert!(has_rule(&resolved.tsconfig_paths, "@/*", &["src/*"]));
}

fn link(dir: &str, source: &str) -> (String, JsonValue) {
    (dir.to_owned(), parse_config(source))
}

#[test]
fn chain_settings_merge_child_over_parent() {
    let chain = vec![
        link("/repo/packages/web", r#"{"compilerOptions": {"paths": {"@/*": ["src/*"]}}}"#),
        link("/repo", r#"{"compilerOptions": {"baseUrl": ".", "paths": {"@/*": ["lib/*"], "@shared/*": ["shared/*"]}}}"#),
    ];
    let resolved = resolve_chain("/repo", &chain);
    assert_eq!(resolved.tsconfig_base_url.as_deref(), Some(""));
    assert_eq!(resolved.tsconfig_paths.len(), 2);
    assert_eq!(resolved.tsconfig_paths[0].pattern, "@/*");
    assert_eq!(resolved.tsconfig_paths[0].targets, vec!["packages/web/src/*"]);
    assert!(has_rule(&resolved.tsconfig_paths, "@shared/*", &["shared/*"]));
    let empty = resolve_chain("/repo", &Vec::new());
    assert_eq!(empty.tsconfig_base_url, None);
    assert!(empty.tsconfig_paths.is_empty());
}

#[test]
fn module_resolution_reads_base_url_and_paths() {
    let root = link("/repo", r#"{"compilerOptions": {"baseUrl": ".", "paths": {"@/*": ["src/*"], "@lib": ["lib/index.ts"]}}}"#);
    let config = read_module_resolution("/repo", vec![("/repo/tsconfig.json".to_owned(), Some(vec![root]))]);
    assert_eq!(config.tsconfig_base_url.as_deref(), Some(""));
    assert!(has_rule(&config.tsconfig_paths, "@/*", &["src/*"]));
    assert!(has_rule(&config.tsconfig_paths, "@lib", &["lib/index.ts"]));
    assert!(config.scoped_configs.is_empty());
}

#[test]
fn module_resolution_nested_config_with_extends_and_scope_precedence() {
    let base = r#"{"compilerOptions": {"baseUrl": ".", "paths": {"@shared/*": ["shared/*"]}}}"#;
    let root_chain = vec![
        link("/repo", r#"{"extends": "./tsconfig.base.json", "compilerOptions": {"paths": {"@/*": ["src/*"]}}}"#),
        link("/repo", base),
    ];
    let web_chain = vec![
        link(
            "/repo/packages/web",
            r#"{"extends": "../../tsconfig.base.json", "compilerOptions": {"baseUrl": ".", "paths": {"@/*": ["src/*"]}}}"#,
        ),
        link("/repo", base),
    ];
    let config = read_module_resolution(
        "/repo",
        vec![
            ("/repo/tsconfig.json".to_owned(), Some(root_chain)),
            ("/repo/packages/web/tsconfig.json".to_owned(), Some(web_chain)),
        ],
    );
    assert!(has_rule(&config.tsconfig_paths, "@/*", &["src/*"]));
    let web = config.scoped_configs.iter().find(|s| s.scope_dir == "packages/web").unwrap();
    assert_eq!(web.tsconfig_base_url.as_deref(), Some("packages/web"));
    assert!(has_rule(&web.tsconfig_paths, "@/*", &["packages/web/src/*"]));
    assert!(has_rule(&web.tsconfig_paths, "@shared/*", &["shared/*"]));
}

#[test]
fn module_resolution_package_extends_from_node_modules() {
    let web_chain = vec![
        link("/repo/packages/web", r#"{"extends": "@acme/config/base", "compilerOptions": {"baseUrl": "."}}"#),
        link("/repo/node_modules/@acme/config", r#"{"compilerOptions": {"paths": {"@shared/*": ["shared/*"]}}}"#),
    ];
    let config = read_module_resolution("/repo", vec![("/repo/packages/web/tsconfig.json".to_owned(), Some(web_chain))]);
    let web = config.scoped_configs.iter().find(|s| s.scope_dir == "packages/web").unwrap();
    assert!(has_rule(&web.tsconfig_paths, "@shared/*", &["node_modules/@acme/config/shared/*"]));
}

#[test]
fn module_resolution_skips_unreadable_configs_and_later_duplicates() {
    let config = read_module_resolution(
        "/repo",
        vec![
            ("/repo/tsconfig.json".to_owned(), None),
            ("/repo/jsconfig.json".to_owned(), Some(vec![link("/repo", r#"{"compilerOptions": {"baseUrl": "src"}}"#)])),
            ("/repo/a/tsconfig.json".to_owned(), Some(vec![link("/repo/a", r#"{"compilerOptions": {"baseUrl": "."}}"#)])),
            ("/repo/a/jsconfig.json".to_owned(), Some(vec![link("/repo/a", r#"{"compilerOptions": {"baseUrl": "x"}}"#)])),
        ],
    );
    assert_eq!(config.tsconfig_base_url.as_deref(), Some("src"));
    assert_eq!(config.scoped_configs.len(), 1);
    assert_eq!(config.scoped_configs[0].tsconfig_base_url.as_deref(), Some("a"));
}

#[test]
fn chain_loader_reads_each_file_once() {
    let (mut loader, step) = ChainLoader::new("/repo", "/repo/./a/tsconfig.json");
    assert!(matches!(&step, ChainStep::Read(p) if p == "/repo/a/tsconfig.json"));
    let step = loader.loaded(Some(parse_config(r#"{"extends": "../base.json"}"#)));
    match &step {
        ChainStep::Probe(c) => assert_eq!(c, &vec!["/repo/base.json", "/repo/base.json"]),
        _ => panic!("expected candidates"),
    }
    let step = loader.probed(Some("/repo/base.json".to_owned()));
    assert!(matches!(&step, ChainStep::Read(p) if p == "/repo/base.json"));
    let step = loader.loaded(Some(parse_config(r#"{"extends": "./a/tsconfig.json"}"#)));
    assert!(matches!(step, ChainStep::Probe(_)));
    // The first file again: the chain ends there.
    let step = loader.probed(Some("/repo/a/../a/tsconfig.json".to_owned()));
    assert!(matches!(step, ChainStep::Done));
    let chain = loader.into_chain();
    assert_eq!(chain.len(), 2);
    assert_eq!(chain[0].0, "/repo/a");
    assert_eq!(chain[1].0, "/repo");
}

#[test]
fn chain_loader_reports_an_unreadable_config_and_stops_at_an_unreadable_parent() {
    let (mut loader, _) = ChainLoader::new("/repo", "/repo/tsconfig.json");
    assert!(matches!(loader.loaded(None), ChainStep::Unreadable));

    let (mut loader, _) = ChainLoader::new("/repo", "/repo/tsconfig.json");
    assert!(matches!(loader.loaded(Some(parse_config(r#"{"extends": "@x/y"}"#))), ChainStep::Probe(_)));
    assert!(matches!(loader.probed(None), ChainStep::Done));
    assert_eq!(loader.into_chain().len(), 1);

    let (mut loader, _) = ChainLoader::new("/repo", "/repo/tsconfig.json");
    assert!(matches!(loader.loaded(Some(parse_config(r#"{"extends": "./b.json"}"#))), ChainStep::Probe(_)));
    assert!(matches!(loader.probed(Some("/repo/b.json".to_owned())), ChainStep::Read(_)));
    assert!(matches!(loader.loaded(None), ChainStep::Done));
    assert_eq!(loader.into_chain().len(), 1);
}

#[test]
fn jsonc_text_parses_into_a_value() {
    match parse_jsonc_value("{ // note\n \"a\": [1, \"x\",], /* b */ \"t\": true,\n}") {
        Some(JsonValue::Object(members)) => {
            assert_eq!(members.len(), 2);
            assert_eq!(members[0].0, "a");
            assert!(matches!(&members[0].1, JsonValue::Array(items)
                if matches!(&items[0], JsonValue::Number(n) if n == "1") && matches!(&items[1], JsonValue::Str(x) if x == "x")));
            assert!(matches!(members[1].1, JsonValue::Bool(true)));
        },
        _ => panic!("expected an object"),
    }
    assert!(parse_jsonc_value("{ not json").is_none());
    assert!(matches!(parse_jsonc_value("null"), Some(JsonValue::Null)));
}
