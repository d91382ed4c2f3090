use repoask::treesitter::{
    extract_export_info, extract_symbols, parse_file, parse_file_lenient, supports_extension, symbols_from_captures, LanguageId,
    TsCapture, TsChild, TsNode,
};
use repoask::types::{CommentSource, ExportKind, IndexDocument, ParseOutcome, Publicness, Symbol, SymbolKind};

fn get_symbols(filepath: &str, source: &str) -> Vec<Symbol> {
    match parse_file(filepath, source) {
        ParseOutcome::Parsed(docs) => docs
            .into_iter()
            .filter_map(|doc| match doc {
                IndexDocument::Code(s) => Some(s),
                _ => None,
            })
            .collect(),
        ParseOutcome::Unsupported { .. } | ParseOutcome::Failed { .. } => vec![],
    }
}

#[test]
fn test_rust() {
    let source = "/// Add two numbers\nfn add(a: i32, b: i32) -> i32 { a + b }\n\nstruct Point { x: f64 }\n\nenum Color { Red }\n";
    let symbols = get_symbols("lib.rs", source);
    assert!(symbols.iter().any(|s| s.name == "add" && s.kind == SymbolKind::Function));
    assert!(symbols.iter().any(|s| s.name == "Point" && s.kind == SymbolKind::Struct));
    assert!(symbols.iter().any(|s| s.name == "Color" && s.kind == SymbolKind::Enum));
    let add = symbols.iter().find(|s| s.name == "add").unwrap();
    assert!(add.comment.as_ref().unwrap().summary_line.as_ref().unwrap().contains("Add two numbers"));
}

#[test]
fn test_python() {
    let source = "def greet(name):\n    return name\n\nclass UserService:\n    def find(self, user_id):\n        pass\n";
    let symbols = get_symbols("app.py", source);
    assert!(symbols.iter().any(|s| s.name == "greet" && s.kind == SymbolKind::Function));
    assert!(symbols.iter().any(|s| s.name == "UserService" && s.kind == SymbolKind::Class));
    assert!(symbols.iter().any(|s| s.name == "find"));
}

#[test]
fn test_go() {
    let source = "func main() {\n\tfmt.Println(\"hello\")\n}\n\ntype Config struct {\n\tPort int\n}\n";
    let symbols = get_symbols("main.go", source);
    assert!(symbols.iter().any(|s| s.name == "main" && s.kind == SymbolKind::Function));
    assert!(symbols.iter().any(|s| s.name == "Config" && s.kind == SymbolKind::Type));
}

#[test]
fn test_unsupported_extension() {
    assert!(matches!(parse_file("test.zig", "const x = 1;"), ParseOutcome::Unsupported { .. }));
}

#[test]
fn test_rust_extraction() {
    let source = "\n/// Add two numbers\nfn add(a: i32, b: i32) -> i32 {\n    a + b\n}\n\nstruct Point {\n    x: f64,\n    y: f64,\n}\n\nenum Color {\n    Red,\n    Green,\n    Blue,\n}\n";
    let symbols = extract_symbols(source, "lib.rs", LanguageId::Rust);
    assert!(symbols.iter().any(|s| s.name == "add" && s.kind == SymbolKind::Function));
    assert!(symbols.iter().any(|s| s.name == "Point" && s.kind == SymbolKind::Struct));
    assert!(symbols.iter().any(|s| s.name == "Color" && s.kind == SymbolKind::Enum));
    let add = symbols.iter().find(|s| s.name == "add").unwrap();
    assert!(add.comment.as_ref().unwrap().summary_line.as_ref().unwrap().contains("Add two numbers"));
}

#[test]
fn test_python_extraction() {
    let source = "\ndef greet(name):\n    return f\"Hello, {name}\"\n\nclass UserService:\n    def find(self, user_id):\n        pass\n";
    let symbols = extract_symbols(source, "app.py", LanguageId::Python);
    assert!(symbols.iter().any(|s| s.name == "greet" && s.kind == SymbolKind::Function));
    assert!(symbols.iter().any(|s| s.name == "UserService" && s.kind == SymbolKind::Class));
    assert!(symbols.iter().any(|s| s.name == "find"));
}

#[test]
fn test_go_extraction() {
    let source = "\nfunc main() {\n    fmt.Println(\"hello\")\n}\n\ntype Config struct {\n    Port int\n}\n";
    let symbols = extract_symbols(source, "main.go", LanguageId::Go);
    assert!(symbols.iter().any(|s| s.name == "main" && s.kind == SymbolKind::Function));
    assert!(symbols.iter().any(|s| s.name == "Config" && s.kind == SymbolKind::Type));
}

#[test]
fn rust_symbols_carry_signature_lines_and_visibility() {
    let source = "pub fn add(a: i32, b: i32) -> i32 { a + b }\nfn hidden() {}\npub(crate) struct P;\n";
    let symbols = get_symbols("src/lib.rs", source);
    let add = symbols.iter().find(|s| s.name == "add").unwrap();
    assert_eq!(add.signature_preview.as_deref(), Some("add(a, b)"));
    assert_eq!(add.start_line, 1);
    assert_eq!(add.export.publicness, Publicness::Public);
    assert_eq!(add.filepath, "src/lib.rs");
    let hidden = symbols.iter().find(|s| s.name == "hidden").unwrap();
    assert_eq!(hidden.export.publicness, Publicness::Private);
    assert_eq!(hidden.export.export_kind, ExportKind::NotExported);
    let p = symbols.iter().find(|s| s.name == "P").unwrap();
    assert_eq!(p.export.publicness, Publicness::Package);
}

#[test]
fn python_methods_and_private_names() {
    let source = "class A:\n    def _helper(self):\n        pass\n";
    let symbols = get_symbols("m.py", source);
    let helper = symbols.iter().find(|s| s.name == "_helper").unwrap();
    assert_eq!(helper.kind, SymbolKind::Method);
    assert_eq!(helper.export.publicness, Publicness::Private);
    assert_eq!(helper.export.export_kind, ExportKind::ModuleMember);
}

#[test]
fn c_static_functions_are_private() {
    let source = "static int helper(int x) { return x; }\nint api(void) { return 0; }\n";
    let symbols = get_symbols("m.c", source);
    assert_eq!(symbols.iter().find(|s| s.name == "helper").unwrap().export.publicness, Publicness::Private);
    assert_eq!(symbols.iter().find(|s| s.name == "api").unwrap().export.publicness, Publicness::Public);
}

#[test]
fn export_info_rules_by_language() {
    assert_eq!(extract_export_info("java", SymbolKind::Method, "run", "public void run() {}").publicness, Publicness::Public);
    assert_eq!(extract_export_info("java", SymbolKind::Class, "A", "class A {}").publicness, Publicness::Package);
    assert_eq!(extract_export_info("go", SymbolKind::Function, "Serve", "").publicness, Publicness::Public);
    assert_eq!(extract_export_info("rb", SymbolKind::Function, "9x", "").publicness, Publicness::Unknown);
    assert_eq!(extract_export_info("txt", SymbolKind::Function, "f", "").publicness, Publicness::Unknown);
}

#[test]
fn supported_extensions_and_lenient_parse() {
    for ext in ["rs", "py", "pyi", "go", "java", "c", "h", "cpp", "cc", "cxx", "hpp", "hxx", "rb"] {
        assert!(supports_extension(ext), "{ext}");
    }
    assert!(!supports_extension("ts"));
    assert!(parse_file_lenient("x.md", "# a").is_none());
    assert!(parse_file_lenient("x.rb", "def a\nend\n").is_some());
}

#[test]
fn rust_doc_comments_use_rustdoc_source() {
    let source = "// Helper.\n// Second line.\nfn helper() {}\n";
    let symbols = get_symbols("a.rs", source);
    let c = symbols[0].comment.as_ref().unwrap();
    assert_eq!(c.source, CommentSource::RustDoc);
    assert_eq!(c.summary_line.as_deref(), Some("Helper."));
}

fn node(kind: &str, start_byte: usize, end_byte: usize) -> TsNode {
    TsNode { kind: kind.to_string(), start_byte, end_byte }
}

fn capture(name: &str, n: TsNode, rows: (usize, usize), children: Vec<TsChild>, ancestors: Vec<&str>) -> TsCapture {
    TsCapture {
        name: name.to_string(),
        node: n,
        start_row: rows.0,
        end_row: rows.1,
        children,
        ancestors: ancestors.into_iter().map(str::to_string).collect(),
        preceding: vec![],
    }
}

#[test]
fn captures_become_symbols_in_match_order() {
    let source = "fn add(a: i32) {}
fn x() {}
";
    let def = capture("definition.function", node("function_item", 0, 17), (0, 0), vec![], vec![]);
    let name = capture("name", node("identifier", 3, 6), (0, 0), vec![], vec![]);
    let param = TsChild { node: node("parameter", 7, 13), children: vec![node("identifier", 7, 8), node("primitive_type", 10, 13)] };
    let params = capture("params", node("parameters", 6, 14), (0, 0), vec![param], vec![]);
    // A match without a name capture gives no symbol.
    let nameless = vec![capture("definition.function", node("function_item", 18, 27), (1, 1), vec![], vec![])];
    let matches = vec![vec![def, name, params], nameless];
    let symbols = symbols_from_captures(&matches, "src/lib.rs", source);
    assert_eq!(symbols.len(), 1);
    assert_eq!(symbols[0].name, "add");
    assert_eq!(symbols[0].kind, SymbolKind::Function);
    assert_eq!((symbols[0].start_line, symbols[0].end_line), (1, 1));
    assert_eq!(symbols[0].params, vec!["a".to_string()]);
    assert_eq!(symbols[0].filepath, "src/lib.rs");
    assert!(symbols[0].comment.is_none());
}

#[test]
fn python_functions_inside_classes_become_methods() {
    let source = "class A:\n    def f(self):\n        pass\n";
    let def = capture("definition.function", node("function_definition", 13, 38), (1, 2), vec![], vec!["block", "class_definition", "module"]);
    let name = capture("name", node("identifier", 17, 18), (1, 1), vec![], vec![]);
    let symbols = symbols_from_captures(&vec![vec![def, name]], "a.py", source);
    assert_eq!(symbols.len(), 1);
    assert_eq!(symbols[0].name, "f");
    assert_eq!(symbols[0].kind, SymbolKind::Method);
    assert_eq!((symbols[0].start_line, symbols[0].end_line), (2, 3));
}
