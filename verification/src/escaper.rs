//! The escaper: from a string to its encoding.

use crate::category::{is_other, is_separator, unicode_other, unicode_separator};
use crate::classifier::{classify, quote_style, QuoteStyle};
use crate::codec::{push_hex, unicode_escape_text};
use crate::error::ParseErrorView;
use crate::round_trip::lemma_round_trip;
use crate::unescaper::unescaped;
use std::borrow::Cow;
use vstd::prelude::*;
use vstd::std_specs::iter::IteratorSpec;

verus! {

/// The letter of the short escape for `c`, for the eight characters that have one.
pub open spec fn mnemonic(c: char) -> Option<char> {
    if c == '\u{07}' {
        Some('a')
    } else if c == '\u{08}' {
        Some('b')
    } else if c == '\u{0B}' {
        Some('v')
    } else if c == '\u{0C}' {
        Some('f')
    } else if c == '\n' {
        Some('n')
    } else if c == '\r' {
        Some('r')
    } else if c == '\t' {
        Some('t')
    } else if c == '\u{1B}' {
        Some('e')
    } else {
        None
    }
}

/// The escape for a character that cannot stand for itself between double quotes:
/// a backslash and its letter where it has one, else `\u{HEX}`.
pub open spec fn escape_sequence(c: char) -> Seq<char> {
    match mnemonic(c) {
        Some(letter) => seq!['\\', letter],
        None => unicode_escape_text(c),
    }
}

/// What stands for `c` between double quotes. The double quote and the backslash get
/// a backslash in front; the plain space stands for itself, though it is a
/// separator; any other separator and any character of an "other" category is
/// written as its escape; every other character stands for itself.
pub open spec fn escaped_char(c: char) -> Seq<char> {
    if c == '"' {
        seq!['\\', '"']
    } else if c == '\\' {
        seq!['\\', '\\']
    } else if c == ' ' {
        seq![' ']
    } else if unicode_other(c) || unicode_separator(c) {
        escape_sequence(c)
    } else {
        seq![c]
    }
}

/// What stands for `s` between double quotes: the encodings of its characters, one
/// after the other.
pub open spec fn escaped_body(s: Seq<char>) -> Seq<char>
    decreases s.len(),
{
    if s.len() == 0 {
        Seq::empty()
    } else {
        escaped_char(s[0]) + escaped_body(s.skip(1))
    }
}

/// The encoding of `s`.
pub open spec fn escaped(s: Seq<char>) -> Seq<char> {
    match quote_style(s) {
        QuoteStyle::Unquoted => s,
        QuoteStyle::SingleQuoted => seq!['\''] + s + seq!['\''],
        QuoteStyle::DoubleQuoted => seq!['"'] + escaped_body(s) + seq!['"'],
    }
}

/// The letter of the short escape for `c`, if it has one.
fn mnemonic_letter(c: char) -> (letter: Option<char>)
    ensures
        letter == mnemonic(c),
{
    if c == '\u{07}' {
        Some('a')
    } else if c == '\u{08}' {
        Some('b')
    } else if c == '\u{0B}' {
        Some('v')
    } else if c == '\u{0C}' {
        Some('f')
    } else if c == '\n' {
        Some('n')
    } else if c == '\r' {
        Some('r')
    } else if c == '\t' {
        Some('t')
    } else if c == '\u{1B}' {
        Some('e')
    } else {
        None
    }
}

/// Writes the escape for a character that cannot stand for itself between double
/// quotes. It prefers the short escapes, which are easier to read, to `\u{HEX}`.
fn escape_character(c: char) -> (text: String)
    ensures
        text@ == escape_sequence(c),
{
    let mut text = String::new();
    text.push('\\');
    match mnemonic_letter(c) {
        Some(letter) => {
            text.push(letter);
        },
        None => {
            text.push('u');
            text.push('{');
            push_hex(&mut text, c as u32);
            text.push('}');
        },
    }
    text
}

/// Escapes `s` with shell-like quotes and escapes.
///
/// A string that needs no quotes is handed back as it is, borrowed. Where quotes are
/// needed, single quotes are preferred: between them nothing is escaped. Every other
/// string is put between double quotes, with escapes for what cannot stand there.
/// Whatever the shape, [`unescape`](crate::unescape) reads the result back as `s`.
pub fn escape(s: &str) -> (result: Cow<'_, str>)
    ensures
        result@ == escaped(s@),
        result is Borrowed <==> quote_style(s@) == QuoteStyle::Unquoted,
        unescaped(result@) == Ok::<Seq<char>, ParseErrorView>(s@),
{
    proof {
        lemma_round_trip(s@);
    }
    match classify(s) {
        QuoteStyle::Unquoted => {
            return Cow::Borrowed(s);
        },
        QuoteStyle::SingleQuoted => {
            let mut output = String::new();
            output.push('\'');
            output.append(s);
            output.push('\'');
            return Cow::Owned(output);
        },
        QuoteStyle::DoubleQuoted => {},
    }
    let mut output = String::new();
    output.push('"');
    let mut chars = s.chars();
    loop
        invariant
            seq!['"'] + escaped_body(s@) == output@ + escaped_body(chars.remaining()),
            chars.decrease() is Some,
        ensures
            seq!['"'] + escaped_body(s@) == output@,
        decreases chars.decrease()->0,
    {
        let c = match chars.next() {
            Some(c) => c,
            None => {
                break;
            },
        };
        if c == '"' {
            output.push('\\');
            output.push('"');
        } else if c == '\\' {
            output.push('\\');
            output.push('\\');
        } else if c == ' ' {
            output.push(c);
        } else if is_other(c) || is_separator(c) {
            let text = escape_character(c);
            output.append(text.as_str());
        } else {
            output.push(c);
        }
    }
    output.push('"');
    Cow::Owned(output)
}

} // verus!
