[package]
name = "repoask"
version = "0.1.0"
edition = "2021"
publish = false

[dependencies]
rust-stemmers = "=1.2.0"
serde = { version = "=1.0.229", features = ["derive"] }
serde_json = "=1.0.154"
clap = { version = "=4.6.7", features = ["derive"] }
dirs = "=7.0.0"
fs2 = "=0.4.3"
ignore = "=0.4.34"
bincode = { version = "=2.0.1", features = ["serde"] }
postcard = { version = "=1.1.3", features = ["use-std"] }
thiserror = "=2.0.21"
tree-sitter = "=0.25.10"
tree-sitter-rust = "=0.24.2"
tree-sitter-python = "=0.25.0"
tree-sitter-go = "=0.25.0"
tree-sitter-java = "=0.23.5"
tree-sitter-c = "=0.24.2"
tree-sitter-cpp = "=0.23.4"
tree-sitter-ruby = "=0.23.1"
wasm-bindgen = "=0.2.130"
