use uciengine::tokens::{bytes_eq, is_word, next_token, token_at};

#[test]
fn next_token_splits_at_the_first_space() {
    assert_eq!(next_token("info depth 3"), ("info", Some("depth 3")));
    assert_eq!(next_token("quit"), ("quit", None));
    assert_eq!(next_token(""), ("", None));
    assert_eq!(next_token(" a"), ("", Some("a")));
    assert_eq!(next_token("a "), ("a", Some("")));
    assert_eq!(next_token("a  b"), ("a", Some(" b")));
    assert_eq!(next_token("\u{e9}\u{2192} x"), ("\u{e9}\u{2192}", Some("x")));
}

#[test]
fn token_at_counts_as_split_does() {
    for line in ["", " ", "a", "a b", "a  b", " a b ", "bestmove e2e4 ponder e7e5", "\u{e9} \u{2192}"] {
        let expected: Vec<&str> = line.split(" ").collect();
        for k in 0..expected.len() + 2 {
            assert_eq!(token_at(line, k), expected.get(k).copied());
        }
    }
    assert_eq!(token_at("a  b", 1), Some(""));
    assert_eq!(token_at("a  b", 2), Some("b"));
    assert_eq!(token_at("a  b", 3), None);
}

#[test]
fn words_are_compared_byte_by_byte() {
    assert!(is_word("info", "info"));
    assert!(!is_word("info", "inf"));
    assert!(!is_word("inf", "info"));
    assert!(!is_word("Info", "info"));
    assert!(is_word("", ""));
    assert!(bytes_eq(&[1, 2, 3], &[1, 2, 3]));
    assert!(!bytes_eq(&[1, 2, 3], &[1, 2, 4]));
    assert!(!bytes_eq(&[1, 2, 3], &[1, 2]));
}
