use repoask::repo_index::RepoIndex;

#[test]
fn files_are_added_then_built() {
    let mut index = RepoIndex::new();
    assert_eq!(index.doc_count(), 0);
    assert!(index.index().is_none());

    index.add_file("README.md", "# Guide\nIntro text.\n\n## Install\nRun the installer.\n", vec![]);
    let added = index.doc_count();
    assert_eq!(added, 2);

    // Unsupported files add nothing.
    index.add_file("Makefile", "all:\n\tcc main.c\n", vec![]);
    assert_eq!(index.doc_count(), added);

    index.build();
    assert!(index.index().is_some());
    assert_eq!(index.doc_count(), added);
    assert_eq!(index.index().unwrap().doc_count(), added);
}

#[test]
fn failed_script_files_are_skipped() {
    let mut index = RepoIndex::new();
    // A non-blank script file for which the script parser found nothing is a parse failure.
    index.add_file("src/app.ts", "export const x = 1;\n", vec![]);
    assert_eq!(index.doc_count(), 0);
    index.build();
    assert_eq!(index.doc_count(), 0);
}

#[test]
fn small_corpora_can_be_built() {
    let mut index = RepoIndex::new();
    index.add_file("README.md", "# Guide\nIntro text.\n", vec![]);
    assert!(index.can_build());
}
