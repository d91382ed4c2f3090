//! repoask: code and documentation search over repositories.
pub mod text;
pub mod tokenizer;
pub mod types;
pub mod order;
pub mod markdown;
pub mod paths;
pub mod index;
pub mod rank;
pub mod investigation;
pub mod parser;
pub mod queries;
pub mod repo;
pub mod jsonc;
pub mod cli;
pub mod treesitter;
pub mod tsconfig;
pub mod repo_index;
pub mod source_text;
