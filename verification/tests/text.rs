use aura::text::{chars_of, contains_text, decimal_text, join, less, split};

#[test]
fn split_and_join_undo_each_other() {
    for text in ["", ",", "a", "a,b", ",a,,b,"] {
        let parts = split(text, ',');
        let expected: Vec<String> = text.split(',').map(String::from).collect();
        assert_eq!(parts, expected);
        assert_eq!(join(&parts, ","), text);
    }
    assert_eq!(join(&Vec::new(), ","), "");
    assert_eq!(join(&vec!["a".to_string(), "b".to_string()], ", "), "a, b");
}

#[test]
fn numbers_are_written_in_decimal() {
    for number in [0, 7, 10, 99, 100, 1234567890, u64::MAX] {
        assert_eq!(decimal_text(number), number.to_string());
    }
}

#[test]
fn parts_are_found() {
    for (whole, part) in [("", ""), ("abc", ""), ("abc", "bc"), ("aab", "ab"), ("ab", "abc")] {
        assert_eq!(contains_text(whole, part), whole.contains(part));
    }
    assert!(contains_text("日本語", "本"));
    assert!(!contains_text("日本語", "語日"));
}

#[test]
fn texts_are_ordered_like_strings() {
    let words = ["", "a", "ab", "b", "Z", "é", "\u{FFFF}", "\u{10000}", "a\u{10000}"];
    for first in words {
        for second in words {
            assert_eq!(
                less(&chars_of(first), &chars_of(second)),
                first < second,
                "{first} {second}"
            );
        }
    }
    assert_eq!(chars_of("hé"), vec!['h', 'é']);
}
