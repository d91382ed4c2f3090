use repoask::tokenizer::{split_identifier, tokenize_identifier, tokenize_query, tokenize_text};
use rust_stemmers::{Algorithm, Stemmer};

#[test]
fn test_camel_case() {
    assert_eq!(split_identifier("validateToken"), vec!["validate", "token"]);
}

#[test]
fn test_pascal_case() {
    assert_eq!(split_identifier("ValidateToken"), vec!["validate", "token"]);
}

#[test]
fn test_snake_case() {
    assert_eq!(split_identifier("validate_jwt_token"), vec!["validate", "jwt", "token"]);
}

#[test]
fn test_uppercase_run() {
    assert_eq!(split_identifier("parseJSONResponse"), vec!["parse", "json", "response"]);
}

#[test]
fn test_all_uppercase() {
    assert_eq!(split_identifier("HTTP"), vec!["http"]);
}

#[test]
fn test_mixed() {
    assert_eq!(split_identifier("XMLHttpRequest"), vec!["xml", "http", "request"]);
}

#[test]
fn test_kebab_case() {
    assert_eq!(split_identifier("my-component-name"), vec!["my", "component", "name"]);
}

#[test]
fn test_filepath_tokens() {
    assert_eq!(split_identifier("src/auth/jwt.ts"), vec!["src", "auth", "jwt", "ts"]);
}

#[test]
fn test_tokenize_identifier_stems() {
    let tokens = tokenize_identifier("validateJWTToken");
    assert!(tokens.contains(&"valid".to_owned()));
    assert!(tokens.contains(&"jwt".to_owned()));
    assert!(tokens.contains(&"token".to_owned()));
}

#[test]
fn test_tokenize_text() {
    let tokens = tokenize_text("middleware authentication setup");
    assert_eq!(tokens.len(), 3);
    let stemmer = Stemmer::create(Algorithm::English);
    for word in ["middleware", "authentication", "setup"] {
        let expected = stemmer.stem(&word.to_lowercase()).to_string();
        assert!(tokens.contains(&expected), "expected stemmed form {expected:?} of {word:?} in {tokens:?}");
    }
}

#[test]
fn tokenize_query_matches_tokenize_text() {
    let q = "Parse JSON responses, quickly!";
    assert_eq!(tokenize_query(q), tokenize_text(q));
}

#[test]
fn split_identifier_on_empty_and_separators_only() {
    assert!(split_identifier("").is_empty());
    assert!(split_identifier("__--..").is_empty());
}

#[test]
fn tokenize_drops_single_byte_tokens() {
    let tokens = tokenize_identifier("a_b_value");
    assert!(!tokens.iter().any(|t| t.len() <= 1));
}

#[test]
fn split_identifier_tokens_are_nonempty_and_lowercase() {
    for name in ["HTTPServer_v2", "__init__", "kebab-Case--x", "a1B2", ""] {
        let parts = split_identifier(name);
        assert!(parts.iter().all(|p| !p.is_empty()));
        assert!(parts.iter().all(|p| p.chars().all(|c| !c.is_ascii_uppercase())));
    }
    assert_eq!(split_identifier("__init__"), vec!["init"]);
}
