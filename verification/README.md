# repoask

Search code and documentation in any GitHub repository: clone it, parse its files into code
symbols and documentation sections, index them, and answer keyword queries with BM25 ranking.

The library (`src/`) is written in Verus and verified: every function carries a contract
stated over mathematical views (`Seq`, `Set`, `Map`, spec functions), and the laws that tie
functions together are proof functions.

- `text`, `order`, `paths`: character sequences, lexicographic order, path pieces.
- `tokenizer`: identifier splitting, text tokenization and stemming.
- `types`: documents (symbols, re-exports, sections), comments, export metadata, filters.
- `markdown`: Markdown sections with heading hierarchy and code-block identifiers.
- `index`: the inverted index, the postings a query hits with their BM25 statistics, result
  filters, and the stored form of an index.
- `repo_index`: an index built from file contents added one at a time.
- `rank`, `investigation`: the investigation overview (public APIs, types, linked tests,
  entry hints, coverage) and module-specifier resolution.
- `parser`, `treesitter`, `queries`: file parsing, tree-sitter symbol extraction.
- `source_text`: source text cut by UTF-8 byte ranges, as parse trees address it.
- `tsconfig`, `jsonc`: module-resolution settings from `tsconfig.json`/`jsconfig.json`.
- `repo`, `cli`: repository specs, cache layout and eviction, clone validation, index
  metadata, search filters and the parse report.

`app/` is the command-line program around the library: argument parsing, git, the file
system, serialization, and BM25 scoring (floating point). `tests/` runs the library.

TypeScript and JavaScript symbols come from a separate extractor that the library takes as
input (`parse_file`, `parse_source_file` and `RepoIndex::add_file` receive its documents). The
command-line program links no such extractor, so it reports every non-blank `.ts`/`.js`-family
file as a failed parse; Markdown and the tree-sitter languages (Rust, Python, Go, Java, C,
C++, Ruby) are parsed in full.
