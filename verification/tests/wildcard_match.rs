use sudo_rs::wildcard_match::{bracket_match, wildcard_match};

#[test]
fn test_wildcard_match() {
    let tests = vec![
        ("foo bar", "foo *", true),
        ("foo bar", "foo ba*", true),
        ("foo bar", "foo *ar", true),
        ("foo bar", "foo *r", true),
        ("foo bar", "foo *ab", false),
        ("foo bar", "foo r*", false),
        ("foo bar", "*oo bar", true),
        ("foo bar", "*f* bar", true),
        ("foo bar", "*f bar", false),
        ("foo ", "foo *", true),
        ("foo", "foo *", false),
        ("foo", "foo*", true),
        ("foo bar", "f*******r", true),
        ("foo******bar", "f*r", true),
        ("foo********bar", "foo bar", false),
        ("#%^$V@#TYH%&rot13%#@$%#$%", "#%^$V@#*t13%#@$%#$%", true),
        ("#%^$V@#TYH%&rot13%#@$%#$%", "*%^*%&rot*%#$%", true),
        ("#%^$V@#TYH%&rot13%#@$%#$%", "#%^$V@#TYH%&r*%#@$#$%", false),
        ("#%^$V@#TYH%&rot13%#@$%#$%", "#%^$V@#*******@$%#$%", true),
    ];

    for (test, pattern, expected) in tests.into_iter() {
        assert_eq!(
            wildcard_match(test.as_bytes(), pattern.as_bytes()),
            expected,
            "\"{}\" {} match {}",
            test,
            if expected { "should" } else { "should not" },
            pattern
        );
    }
}

#[test]
fn test_bracket_match() {
    let tests = vec![
        ("foo", "[aeiou]", true),
        ("foo", "[xyz]", false),
        ("123", "[321]", true),
        ("123", "[456]", false),
        ("foo", "[xyz][fgh]", true),
        ("foo", "[AEIOU]", false),
        ("FOO", "[AEIOU]", true),
        ("foo", "[a-z]", true),
        ("foo", "[A-Z]", false),
        ("FOO", "[A-Z]", true),
        ("123", "[0-9]", true),
        ("foo", "[0-9]", false),
        ("foo", "[abc][123][e-j]", true),
        ("foo", "[^abc]", true),
        ("foo", "[!fgh]", false),
        ("foo", "[!a-c][!x-z]", true),
        ("123", "[^5-9]", true),
        ("foo bar", "[A-Za-z0-9]", true),
    ];

    for (test, pattern, expected) in tests.into_iter() {
        assert_eq!(
            bracket_match(test.as_bytes(), pattern.as_bytes()),
            expected,
            "\"{}\" {} match {}",
            test,
            if expected { "should" } else { "should not" },
            pattern
        );
    }
}

#[test]
fn wildcard_edge_cases() {
    assert!(wildcard_match(b"", b""));
    assert!(wildcard_match(b"", b"***"));
    assert!(!wildcard_match(b"", b"a"));
    assert!(!wildcard_match(b"a", b""));
    assert!(wildcard_match(b"a*b", b"a*b"));
    assert!(wildcard_match(b"abcabd", b"*abd"));
}
