use repoask::markdown::parse_markdown;

#[test]
fn test_basic_sections() {
    let md = "# Title\n\nSome intro text.\n\n## Setup\n\nInstall the package.\n";
    let sections = parse_markdown(md, "README.md");
    assert_eq!(sections.len(), 2);
    assert_eq!(sections[0].section_title, "Title");
    assert!(sections[0].content.contains("intro text"));
    assert_eq!(sections[1].section_title, "Setup");
    assert!(sections[1].content.contains("Install"));
}

#[test]
fn test_heading_hierarchy() {
    let md = "# Root\n\n## Child\n\n### Grandchild\n\nDeep content.\n";
    let sections = parse_markdown(md, "doc.md");
    let grandchild = sections.iter().find(|s| s.section_title == "Grandchild").unwrap();
    assert_eq!(grandchild.heading_hierarchy, vec!["Root", "Child", "Grandchild"]);
}

#[test]
fn test_code_block_not_split() {
    let md = "# API\n\n```\n# This is not a heading\nfoo()\n```\n";
    let sections = parse_markdown(md, "doc.md");
    assert_eq!(sections.len(), 1);
    assert_eq!(sections[0].section_title, "API");
}

#[test]
fn test_code_symbols_extracted() {
    let md = "# Auth\n\n```typescript\nconst token = validateJWT(secret);\n```\n";
    let sections = parse_markdown(md, "doc.md");
    assert!(sections[0].code_symbols.contains(&"validateJWT".to_string()));
    assert!(sections[0].code_symbols.contains(&"token".to_string()));
}

#[test]
fn test_no_headings() {
    let md = "Just some plain text without any headings.";
    let sections = parse_markdown(md, "notes.md");
    assert_eq!(sections.len(), 1);
    assert_eq!(sections[0].section_title, "Introduction");
}

#[test]
fn test_sibling_headings_reset_hierarchy() {
    let md = "# Root\n\n## A\n\nContent A.\n\n## B\n\nContent B.\n";
    let sections = parse_markdown(md, "doc.md");
    let b = sections.iter().find(|s| s.section_title == "B").unwrap();
    assert_eq!(b.heading_hierarchy, vec!["Root", "B"]);
}

#[test]
fn markdown_test_line_numbers() {
    let md = "# Title\n\nLine 3.\n\n## Section Two\n\nLine 7.\n";
    let sections = parse_markdown(md, "doc.md");
    assert_eq!(sections[0].start_line, 1);
    assert_eq!(sections[1].start_line, 5);
}

#[test]
fn markdown_empty_source_has_no_sections() {
    assert!(parse_markdown("", "empty.md").is_empty());
}

#[test]
fn markdown_sections_keep_filepath_and_end_lines() {
    let md = "# A\n\nx\n\n## B\n\ny\n";
    let sections = parse_markdown(md, "docs/a.md");
    assert!(sections.iter().all(|s| s.filepath == "docs/a.md"));
    assert_eq!(sections[0].end_line, 4);
}

#[test]
fn code_block_identifiers_are_sorted_and_unique() {
    let md = "# X\n\n```\nlet total = add(total, value);\n```\n";
    let ids = parse_markdown(md, "x.md")[0].code_symbols.clone();
    let mut sorted = ids.clone();
    sorted.sort();
    sorted.dedup();
    assert_eq!(ids, sorted);
    assert!(ids.contains(&"total".to_string()));
    assert!(ids.contains(&"value".to_string()));
}

#[test]
fn sections_come_in_file_order_with_their_own_titles_last() {
    let source = "intro text\n\n# Top\n\nbody\n\n## Child\n\nmore\n\n# Next\n\nlast\n";
    let sections = parse_markdown(source, "doc.md");
    assert_eq!(sections.len(), 4);
    for s in &sections {
        assert_eq!(s.filepath, "doc.md");
        assert!(1 <= s.start_line && s.start_line <= s.end_line);
        if let Some(last) = s.heading_hierarchy.last() {
            assert_eq!(last, &s.section_title);
        }
    }
    for pair in sections.windows(2) {
        assert!(pair[0].end_line < pair[1].start_line);
    }
    assert_eq!(sections[2].heading_hierarchy, vec!["Top", "Child"]);
    assert_eq!(sections[3].heading_hierarchy, vec!["Next"]);
}

#[test]
fn snapshot_readme_like() {
    let md = r#"# repoask

A code search tool.

## Installation

```bash
cargo install repoask
```

## Usage

### Basic search

```typescript
import { search } from "repoask";
const results = search("vercel/next.js", "middleware");
```

### Advanced options

Use `--dir` and `--ext` to filter.

## API Reference

### `search(repo, query)`

Returns matching symbols and documentation.
"#;
    let sections = parse_markdown(md, "README.md");
    let expected: Vec<(&str, Vec<&str>, &str, Vec<&str>, u32, u32)> = vec![
        ("repoask", vec!["repoask"], "A code search tool.", vec![], 1, 4),
        ("Installation", vec!["repoask", "Installation"], "```bash\ncargo install repoask\n```", vec!["cargo", "install", "repoask"], 5, 10),
        ("Usage", vec!["repoask", "Usage"], "", vec![], 11, 12),
        (
            "Basic search",
            vec!["repoask", "Usage", "Basic search"],
            "```typescript\nimport { search } from \"repoask\";\nconst results = search(\"vercel/next.js\", \"middleware\");\n```",
            vec!["const", "from", "import", "js", "middleware", "next", "repoask", "results", "search", "vercel"],
            13,
            19,
        ),
        ("Advanced options", vec!["repoask", "Usage", "Advanced options"], "Use `--dir` and `--ext` to filter.", vec![], 20, 23),
        ("API Reference", vec!["repoask", "API Reference"], "", vec![], 24, 25),
        (
            "`search(repo, query)`",
            vec!["repoask", "API Reference", "`search(repo, query)`"],
            "Returns matching symbols and documentation.",
            vec![],
            26,
            28,
        ),
    ];
    assert_eq!(sections.len(), expected.len());
    for (s, (title, hierarchy, content, symbols, start, end)) in sections.iter().zip(expected) {
        assert_eq!(s.filepath, "README.md");
        assert_eq!(s.section_title, title);
        assert_eq!(s.heading_hierarchy, hierarchy);
        assert_eq!(s.content, content);
        assert_eq!(s.code_symbols, symbols);
        assert_eq!((s.start_line, s.end_line), (start, end));
    }
}
