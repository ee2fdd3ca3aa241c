use local_agent::source_text::trim;

#[test]
fn trim_agrees_with_std_whitespace_on_every_char() {
    for u in 0u32..=0x10FFFF {
        if let Some(c) = char::from_u32(u) {
            let trimmed = trim(&vec![c]);
            assert_eq!(trimmed.is_empty(), c.is_whitespace(), "char U+{:04X}", u);
        }
    }
}

#[test]
fn trim_removes_unicode_spaces() {
    let s: Vec<char> = "\u{3000}\u{2009} word\u{85}\t".chars().collect();
    assert_eq!(trim(&s), vec!['w', 'o', 'r', 'd']);
}
