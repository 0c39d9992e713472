use snailquote::{classify, escape, unescape, QuoteStyle};
use unicode_categories::UnicodeCategories;

fn round_trips(s: String) -> bool {
    unescape(&escape(&s)) == Ok(s)
}

fn forces_quoting(c: char) -> bool {
    c == '\'' || c == '\\' || c == '"' || c.is_whitespace() || c.is_separator() || c.is_other()
}

#[test]
fn round_trip_of_random_strings() {
    quickcheck::quickcheck(round_trips as fn(String) -> bool);
}

#[test]
fn round_trip_of_every_character_alone() {
    for c in '\0'..=char::MAX {
        assert!(round_trips(c.to_string()), "{:?}", c);
    }
}

#[test]
fn round_trip_of_every_character_in_plain_text() {
    for c in '\0'..=char::MAX {
        assert!(round_trips(format!("a{}b", c)), "{:?}", c);
    }
}

#[test]
fn round_trip_of_every_character_after_a_space() {
    for c in '\0'..=char::MAX {
        assert!(round_trips(format!(" {}", c)), "{:?}", c);
    }
}

#[test]
fn round_trip_of_every_character_among_quotes_and_backslashes() {
    for c in '\0'..=char::MAX {
        assert!(round_trips(format!("'{}\"\\", c)), "{:?}", c);
    }
}

#[test]
fn round_trip_of_strings_that_look_like_encodings() {
    let cases = vec![
        "",
        "''",
        "\"\"",
        "'a'",
        "\"a\"",
        "\\u{41}",
        "\"\\u{41}\"",
        "\"\\",
        "\"\\q\"",
        "'unterminated",
        "\"unterminated",
        "\u{0}\u{1}\u{2}",
        "{}}{",
        "\\\\\\",
        "'\"'\"'\"",
        " ",
        "  ",
        "\t \n",
    ];
    for case in cases {
        assert_eq!(unescape(&escape(case)), Ok(case.to_owned()));
    }
}

#[test]
fn text_without_forcing_characters_is_its_own_encoding() {
    for c in '\0'..=char::MAX {
        if !forces_quoting(c) {
            let s = format!("x{}y", c);
            assert_eq!(escape(&s), s, "{:?}", c);
        }
    }
    assert_eq!(escape("plain-text_1234"), "plain-text_1234");
}

#[test]
fn text_that_only_spaces_force_is_put_between_single_quotes() {
    for c in '\0'..=char::MAX {
        if !forces_quoting(c) {
            let s = format!("x {} y", c);
            assert_eq!(escape(&s), format!("'{}'", s), "{:?}", c);
        }
    }
    assert_eq!(escape("two words"), "'two words'");
}

fn is_double_quoted(text: &str) -> bool {
    text.len() >= 2 && text.starts_with('"') && text.ends_with('"')
}

#[test]
fn text_with_an_apostrophe_is_put_between_double_quotes() {
    for c in '\0'..=char::MAX {
        let s = format!("a {}' b", c);
        assert!(is_double_quoted(&escape(&s)), "{:?}", s);
    }
    assert_eq!(classify("it's"), QuoteStyle::DoubleQuoted);
    assert_eq!(escape("it's"), "\"it's\"");
}

#[test]
fn text_with_a_backslash_is_put_between_double_quotes() {
    for c in '\0'..=char::MAX {
        let s = format!("\\{}", c);
        assert!(is_double_quoted(&escape(&s)), "{:?}", s);
    }
    assert_eq!(classify("a\\b"), QuoteStyle::DoubleQuoted);
    assert_eq!(escape("a\\b"), "\"a\\\\b\"");
}

#[test]
fn quotes_are_chosen_by_what_the_tables_say_of_each_character() {
    for c in '\0'..=char::MAX {
        let s = c.to_string();
        let unprintable = c.is_whitespace() || c.is_separator() || c.is_other();
        let expected = if c == '\'' || c == '\\' {
            QuoteStyle::DoubleQuoted
        } else if c == '"' || c == ' ' {
            QuoteStyle::SingleQuoted
        } else if unprintable {
            QuoteStyle::DoubleQuoted
        } else {
            QuoteStyle::Unquoted
        };
        assert_eq!(classify(&s), expected, "{:?}", c);
    }
}

#[test]
fn escapes_are_written_for_separators_and_other_characters_only() {
    for c in '\0'..=char::MAX {
        if c == '"' || c == '\\' || c == ' ' {
            continue;
        }
        let text = escape(&format!("'{}", c)).into_owned();
        let body = &text[2..text.len() - 1];
        if c.is_other() || c.is_separator() {
            assert!(body.starts_with('\\') && body.len() >= 2, "{:?}", c);
            assert!(body.is_ascii(), "{:?}", c);
        } else {
            assert_eq!(body, c.to_string(), "{:?}", c);
        }
    }
}

#[test]
fn the_plain_space_is_listed_as_a_separator() {
    assert!(' '.is_separator());
}
