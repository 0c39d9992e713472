use snailquote::{escape, unescape};

#[test]
fn test_escape() {
    let test_cases = vec![
        ("æ±æ–¹", "æ±æ–¹"),
        ("\"'", r#""\"'""#),
        ("\\", "\"\\\\\""),
        ("spaces only", "'spaces only'"),
        ("some\ttabs", "\"some\\ttabs\""),
        ("ðŸ’©", "ðŸ’©"),
        ("\u{202e}RTL", "\"\\u{202e}RTL\""),
        ("no\u{202b}space", "\"no\\u{202b}space\""),
        (
            "\u{07}\u{08}\u{0b}\u{0c}\u{0a}\u{0d}\u{09}\u{1b}\u{1b}\u{5c}\u{27}\u{22}",
            "\"\\a\\b\\v\\f\\n\\r\\t\\e\\e\\\\'\\\"\"",
        ),
    ];

    for (s, expected) in test_cases {
        assert_eq!(escape(s), expected);
    }
}

#[test]
fn test_unescape() {
    assert_eq!(
        unescape("\"\\u{6771}\\u{65b9}\""),
        Ok("\u{6771}\u{65b9}".to_string())
    );
    assert_eq!(unescape("æ±æ–¹"), Ok("æ±æ–¹".to_string()));
    assert_eq!(unescape("\"\\\\\"'\"\"'"), Ok("\\\"\"".to_string()));
    assert_eq!(unescape("'\"'"), Ok("\"".to_string()));
    assert_eq!(unescape("'\"'"), Ok("\"".to_string()));
    // Every escape between double quotes
    assert_eq!(
        unescape("\"\\a\\b\\v\\f\\n\\r\\t\\e\\E\\\\\\'\\\"\\u{09}\""),
        Ok(
            "\u{07}\u{08}\u{0b}\u{0c}\u{0a}\u{0d}\u{09}\u{1b}\u{1b}\u{5c}\u{27}\u{22}\u{09}"
                .to_string()
        )
    );
}

#[test]
fn test_round_trip() {
    let test_cases = vec![
        "æ±æ–¹",
        "foo bar baz",
        "\\",
        "\0",
        "\"'",
        "\"'''''\"()())}{{}{}{{{!////",
    ];

    for case in test_cases {
        assert_eq!(unescape(&escape(case)), Ok(case.to_owned()));
    }
}
