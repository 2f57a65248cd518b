use disk_cleaner::text::{
    chars_eq, chars_of, concat2, concat3, contains, copy_texts, decimal, ends_with, holds_text,
    is_whitespace, lines, pad_left, pad_right, sort_texts, split_on, split_whitespace, starts_with,
    str_eq, strip_prefix, strip_suffix, trim,
};

/// Every text of up to `length` of the given characters.
fn all_texts(alphabet: &[char], length: usize) -> Vec<String> {
    let mut all = vec![String::new()];
    let mut from = 0;
    for _ in 0..length {
        let to = all.len();
        for i in from..to {
            for c in alphabet {
                let mut longer = all[i].clone();
                longer.push(*c);
                all.push(longer);
            }
        }
        from = to;
    }
    all
}

#[test]
fn white_space_is_that_of_unicode() {
    for code in 0..=0x10_ffff_u32 {
        if let Some(c) = char::from_u32(code) {
            assert_eq!(is_whitespace(c), c.is_whitespace(), "{code:x}");
        }
    }
}

#[test]
fn trimming_agrees_with_std() {
    for text in all_texts(&[' ', '\t', '\u{3000}', 'a', '\n'], 5) {
        assert_eq!(trim(&text), text.trim(), "{text:?}");
    }
}

#[test]
fn splitting_agrees_with_std() {
    for text in all_texts(&[',', ' ', 'b', '\u{e9}'], 5) {
        let pieces: Vec<&str> = text.split(',').collect();
        assert_eq!(split_on(&text, ','), pieces, "{text:?}");
        let words: Vec<&str> = text.split_whitespace().collect();
        assert_eq!(split_whitespace(&text), words, "{text:?}");
    }
}

#[test]
fn lines_agree_with_std() {
    for text in all_texts(&['\n', '\r', 'x'], 6) {
        let expected: Vec<&str> = text.lines().collect();
        assert_eq!(lines(&text), expected, "{text:?}");
    }
}

#[test]
fn searching_agrees_with_std() {
    let texts = all_texts(&['a', 'b', '\u{e9}'], 4);
    for text in &texts {
        for needle in texts.iter().take(13) {
            assert_eq!(contains(text, needle), text.contains(needle.as_str()));
            assert_eq!(starts_with(text, needle), text.starts_with(needle.as_str()));
            assert_eq!(ends_with(text, needle), text.ends_with(needle.as_str()));
            assert_eq!(
                strip_prefix(text, needle).as_deref(),
                text.strip_prefix(needle.as_str())
            );
            assert_eq!(
                strip_suffix(text, needle).as_deref(),
                text.strip_suffix(needle.as_str())
            );
            assert_eq!(str_eq(text, needle), text == needle);
        }
    }
}

#[test]
fn numbers_are_written_in_decimal() {
    for n in [0, 7, 9, 10, 11, 99, 100, 1024, 65_535, u64::MAX] {
        assert_eq!(decimal(n), n.to_string());
    }
}

#[test]
fn padding_counts_characters() {
    assert_eq!(pad_right("ab", 5), "ab   ");
    assert_eq!(pad_left("ab", 5), "   ab");
    assert_eq!(pad_right("\u{e9}\u{e9}", 3), format!("{:<3}", "\u{e9}\u{e9}"));
    assert_eq!(pad_left("\u{e9}\u{e9}", 3), format!("{:>3}", "\u{e9}\u{e9}"));
    assert_eq!(pad_right("abcdef", 5), "abcdef");
    assert_eq!(pad_left("abcdef", 5), "abcdef");
}

#[test]
fn sorting_agrees_with_std() {
    let mut texts = all_texts(&['b', 'a', '\u{ff}', '\u{10000}', '~'], 3);
    texts.reverse();
    texts.push("a".to_string());
    let sorted = sort_texts(&texts);
    texts.sort();
    assert_eq!(sorted, texts);
}

#[test]
fn lists_of_texts_are_copied_and_searched() {
    let list = vec!["a".to_string(), "bc".to_string()];
    assert_eq!(copy_texts(&list), list);
    assert!(holds_text(&list, "bc"));
    assert!(!holds_text(&list, "b"));
    assert!(!holds_text(&[], ""));
}

#[test]
fn texts_are_joined() {
    assert_eq!(concat2("a", "\u{e9}"), "a\u{e9}");
    assert_eq!(concat3("a", "", "c"), "ac");
    assert_eq!(chars_of("a\u{e9}"), vec!['a', '\u{e9}']);
    assert!(chars_eq(&['a'], &['a']));
    assert!(!chars_eq(&['a'], &['a', 'b']));
}
