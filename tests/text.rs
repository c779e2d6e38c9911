use gemtext2md::text::{find_char_from, is_whitespace, run_end_from};

#[test]
fn whitespace_characters() {
    for c in [' ', '\t', '\n', '\r', '\u{0B}', '\u{0C}', '\u{85}', '\u{A0}', '\u{2003}', '\u{3000}'] {
        assert!(is_whitespace(c), "{:?}", c);
        assert_eq!(is_whitespace(c), c.is_whitespace());
    }
    for c in ['a', '#', '=', '\u{200B}', '\u{0}'] {
        assert!(!is_whitespace(c), "{:?}", c);
        assert_eq!(is_whitespace(c), c.is_whitespace());
    }
}

#[test]
fn finds_first_space() {
    assert_eq!(find_char_from("ab cd e", ' ', 0), 2);
    assert_eq!(find_char_from("ab cd e", ' ', 3), 5);
    assert_eq!(find_char_from("abc", ' ', 0), 3);
    assert_eq!(find_char_from("é è", ' ', 0), 1);
}

#[test]
fn counts_hash_run() {
    assert_eq!(run_end_from("### x", '#', 0), 3);
    assert_eq!(run_end_from("x#", '#', 0), 0);
    assert_eq!(run_end_from("##", '#', 0), 2);
    assert_eq!(run_end_from("a##b", '#', 1), 3);
}

#[test]
fn whitespace_agrees_with_std_on_every_char() {
    for u in 0u32..=0x10FFFF {
        if let Some(c) = char::from_u32(u) {
            assert_eq!(is_whitespace(c), c.is_whitespace(), "U+{:04X}", u);
        }
    }
}
