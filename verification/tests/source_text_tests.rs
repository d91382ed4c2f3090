use repoask::source_text::SourceText;

#[test]
fn byte_ranges_cut_on_character_boundaries() {
    let text = SourceText::new("héllo wörld");
    assert_eq!(text.slice(0, 1), "h");
    assert_eq!(text.slice(1, 3), "é");
    assert_eq!(text.slice(0, 6), "héllo");
    assert_eq!(text.slice(7, 13), "wörld");
    // Offsets inside a character, reversed ranges and ranges past the end give nothing.
    assert_eq!(text.slice(1, 2), "");
    assert_eq!(text.slice(3, 1), "");
    assert_eq!(text.slice(0, 40), "");
    assert_eq!(text.slice(13, 13), "");
}
