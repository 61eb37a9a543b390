use godotty::text::{after_bracket, chars_of, entries, last_component, nth_word, parse_number, trim, white};

#[test]
fn white_space_is_unicode_white_space() {
    for cp in 0..0x11_0000u32 {
        if let Some(c) = char::from_u32(cp) {
            assert_eq!(white(c), c.is_whitespace(), "{cp:x}");
        }
    }
}

#[test]
fn trimming_agrees_with_std() {
    for s in ["", " ", "a", " a ", "\t a b\n", "\u{a0}x\u{3000}", "x\u{200b}"] {
        assert_eq!(trim(s), s.trim());
    }
}

#[test]
fn lists_are_split_trimmed_and_filled() {
    assert_eq!(entries("Ctrl+Shift+P", ','), vec!["Ctrl+Shift+P"]);
    assert_eq!(entries(" a , ,b,, c d ,", ','), vec!["a", "b", "c d"]);
    assert!(entries("", ',').is_empty());
    assert!(entries(" , ", ',').is_empty());
}

#[test]
fn words_agree_with_std() {
    for s in ["", "  ", "a", "a b  c", " S 1 2 3 4 5 ", "\u{2003}x\ty\n"] {
        let words: Vec<&str> = s.split_whitespace().collect();
        for n in 0..8 {
            assert_eq!(nth_word(s, n).as_deref(), words.get(n).copied());
        }
    }
}

#[test]
fn numbers_agree_with_std() {
    for s in [
        "0", "7", "-1", "+5", "", "-", "+", "12a", "a", " 1", "9223372036854775807", "9223372036854775808", "-9223372036854775808",
        "-9223372036854775809", "99999999999999999999999999999999999999999999", "0000000000000000000000000000000012", "-0", "--1",
    ] {
        assert_eq!(parse_number(s), s.parse::<i64>().ok(), "{s}");
    }
}

#[test]
fn components_and_brackets() {
    assert_eq!(last_component("/bin/zsh"), "zsh");
    assert_eq!(last_component("C:\\Windows\\cmd.exe"), "cmd.exe");
    assert_eq!(last_component("fish"), "fish");
    assert_eq!(last_component("/bin/"), "");
    assert_eq!(after_bracket("12 (a) b) S 1").as_deref(), Some(" S 1"));
    assert_eq!(after_bracket("x)").as_deref(), Some(""));
    assert_eq!(after_bracket("none"), None);
    assert_eq!(chars_of("a\u{e9}"), vec!['a', '\u{e9}']);
}
