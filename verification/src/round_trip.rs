//! What holds of `escape` and `unescape` together, and of the choice of quotes.

use crate::category::{unicode_other, unicode_separator, unicode_whitespace};
use crate::classifier::{forces_quoting, is_unprintable, quote_style, QuoteStyle};
use crate::codec::{hex_digits, is_hex_digit, lemma_digit_run_closed, lemma_hex_round_trip};
use crate::error::ParseErrorView;
use crate::escaper::{escaped, escaped_body, escaped_char, mnemonic};
use crate::unescaper::{lemma_prefixed_twice, prefixed, unescape_from, unescaped, QuoteState};
use vstd::prelude::*;

verus! {

/// Outside quotes, text that holds no quote of either kind reads as itself, and
/// leaves the machine outside quotes.
pub proof fn lemma_bare_text(s: Seq<char>, rest: Seq<char>, position: nat)
    requires
        forall|i: int| 0 <= i < s.len() ==> s[i] != '\'' && s[i] != '"',
    ensures
        unescape_from(QuoteState::Bare, s + rest, position) == prefixed(
            s,
            unescape_from(QuoteState::Bare, rest, position + s.len()),
        ),
    decreases s.len(),
{
    if s.len() > 0 {
        let tail = s.skip(1);
        let then = unescape_from(QuoteState::Bare, rest, position + s.len());
        lemma_bare_text(tail, rest, position + 1);
        assert((s + rest).skip(1) =~= tail + rest);
        lemma_prefixed_twice(seq![s[0]], tail, then);
        assert(seq![s[0]] + tail =~= s);
    }
}

/// After an opening single quote, text that holds no single quote reads as itself up
/// to the closing quote, which leaves the machine outside quotes.
pub proof fn lemma_single_quoted_text(s: Seq<char>, rest: Seq<char>, position: nat)
    requires
        forall|i: int| 0 <= i < s.len() ==> s[i] != '\'',
    ensures
        unescape_from(QuoteState::InSingleQuote, s + seq!['\''] + rest, position) == prefixed(
            s,
            unescape_from(QuoteState::Bare, rest, position + s.len() + 1),
        ),
    decreases s.len(),
{
    let text = s + seq!['\''] + rest;
    let then = unescape_from(QuoteState::Bare, rest, position + s.len() + 1);
    if s.len() == 0 {
        assert(text.skip(1) =~= rest);
    } else {
        let tail = s.skip(1);
        lemma_single_quoted_text(tail, rest, position + 1);
        assert(text.skip(1) =~= tail + seq!['\''] + rest);
        lemma_prefixed_twice(seq![s[0]], tail, then);
        assert(seq![s[0]] + tail =~= s);
    }
}

/// After an opening double quote, what stands for a character reads as that
/// character, whatever follows.
pub proof fn lemma_escaped_char(c: char, rest: Seq<char>, position: nat)
    ensures
        unescape_from(QuoteState::InDoubleQuote, escaped_char(c) + rest, position) == prefixed(
            seq![c],
            unescape_from(QuoteState::InDoubleQuote, rest, position + escaped_char(c).len()),
        ),
{
    let text = escaped_char(c) + rest;
    let tail = text.skip(1);
    if c == '"' || c == '\\' {
        assert(tail.skip(1) =~= rest);
    } else if c == ' ' {
        assert(tail =~= rest);
    } else if unicode_other(c) || unicode_separator(c) {
        match mnemonic(c) {
            Some(letter) => {
                assert(tail.skip(1) =~= rest);
            },
            None => {
                let digits = hex_digits(c as nat);
                lemma_hex_round_trip(c as nat);
                assert forall|i: int| 0 <= i < digits.len() implies digits[i] != '}' by {
                    assert(is_hex_digit(digits[i]));
                }
                lemma_digit_run_closed(digits, rest);
                let braced = tail.skip(1);
                assert(braced.skip(1) =~= digits + seq!['}'] + rest);
                assert(tail.skip(digits.len() as int + 3) =~= rest);
            },
        }
    } else {
        assert(tail =~= rest);
    }
}

/// After an opening double quote, what stands for a string reads as that string up
/// to the closing quote, which leaves the machine outside quotes.
pub proof fn lemma_double_quoted_text(s: Seq<char>, rest: Seq<char>, position: nat)
    ensures
        unescape_from(QuoteState::InDoubleQuote, escaped_body(s) + seq!['"'] + rest, position)
            == prefixed(
            s,
            unescape_from(QuoteState::Bare, rest, position + escaped_body(s).len() + 1),
        ),
    decreases s.len(),
{
    let text = escaped_body(s) + seq!['"'] + rest;
    let then = unescape_from(QuoteState::Bare, rest, position + escaped_body(s).len() + 1);
    if s.len() == 0 {
        assert(text.skip(1) =~= rest);
    } else {
        let tail = s.skip(1);
        let first = escaped_char(s[0]);
        let after = escaped_body(tail) + seq!['"'] + rest;
        lemma_double_quoted_text(tail, rest, position + first.len());
        lemma_escaped_char(s[0], after, position);
        assert(text =~= first + after);
        lemma_prefixed_twice(seq![s[0]], tail, then);
        assert(seq![s[0]] + tail =~= s);
    }
}

/// An encoding followed by any text reads as the encoded string followed by what the
/// text reads as: the encoding leaves the machine outside quotes, as it found it.
pub proof fn lemma_encoding_then(s: Seq<char>, rest: Seq<char>, position: nat)
    ensures
        unescape_from(QuoteState::Bare, escaped(s) + rest, position) == prefixed(
            s,
            unescape_from(QuoteState::Bare, rest, position + escaped(s).len()),
        ),
{
    let text = escaped(s) + rest;
    match quote_style(s) {
        QuoteStyle::Unquoted => {
            lemma_bare_text(s, rest, position);
        },
        QuoteStyle::SingleQuoted => {
            lemma_single_quoted_text(s, rest, position + 1);
            assert(text.skip(1) =~= s + seq!['\''] + rest);
        },
        QuoteStyle::DoubleQuoted => {
            lemma_double_quoted_text(s, rest, position + 1);
            assert(text.skip(1) =~= escaped_body(s) + seq!['"'] + rest);
        },
    }
}

/// Unescaping undoes escaping: on every string `s`, the encoding of `s` parses, and
/// parses as `s`.
pub proof fn lemma_round_trip(s: Seq<char>)
    ensures
        unescaped(escaped(s)) == Ok::<Seq<char>, ParseErrorView>(s),
{
    lemma_encoding_then(s, Seq::empty(), 0);
}

/// Encodings can be written one after the other: the encoding of `first` followed by
/// the encoding of `second` parses as `first` followed by `second`, whatever the
/// quoting style of either.
pub proof fn lemma_encodings_concatenate(first: Seq<char>, second: Seq<char>)
    ensures
        unescaped(escaped(first) + escaped(second)) == Ok::<Seq<char>, ParseErrorView>(
            first + second,
        ),
{
    let position = escaped(first).len();
    lemma_encoding_then(first, escaped(second), 0);
    lemma_encoding_then(second, Seq::empty(), position);
}

/// A string that holds no quote of either kind, no backslash, no white space, no
/// separator and no character of an "other" category is its own encoding.
pub proof fn lemma_plain_text_is_unchanged(s: Seq<char>)
    requires
        forall|i: int|
            0 <= i < s.len() ==> {
                &&& s[i] != '\''
                &&& s[i] != '\\'
                &&& s[i] != '"'
                &&& !unicode_whitespace(#[trigger] s[i])
                &&& !unicode_separator(s[i])
                &&& !unicode_other(s[i])
            },
    ensures
        escaped(s) == s,
{
}

/// A string in which some character forces quoting, but none is a single quote, a
/// backslash, or one that is white space, a separator or of an "other" category
/// without being the plain space or the double quote, is encoded as itself between
/// single quotes.
pub proof fn lemma_single_quotes_are_preferred(s: Seq<char>)
    requires
        exists|i: int| 0 <= i < s.len() && forces_quoting(#[trigger] s[i]),
        forall|i: int|
            0 <= i < s.len() ==> {
                &&& s[i] != '\''
                &&& s[i] != '\\'
                &&& (is_unprintable(#[trigger] s[i]) ==> s[i] == ' ' || s[i] == '"')
            },
    ensures
        escaped(s) == seq!['\''] + s + seq!['\''],
{
}

/// A string that holds a single quote or a backslash is encoded between double
/// quotes, never between single quotes.
pub proof fn lemma_quote_or_backslash_takes_double_quotes(s: Seq<char>)
    requires
        exists|i: int| 0 <= i < s.len() && (#[trigger] s[i] == '\'' || s[i] == '\\'),
    ensures
        quote_style(s) == QuoteStyle::DoubleQuoted,
        escaped(s) == seq!['"'] + escaped_body(s) + seq!['"'],
        escaped(s).first() == '"',
        escaped(s).last() == '"',
{
}

} // verus!
