//! The unescaper: from an encoding back to the string. It is a state machine over
//! the characters of the text, which may change its quoting style any number of
//! times.

use crate::codec::{lemma_digit_run, parse_unicode, unicode_escape, unicode_escape_len};
use crate::error::{ParseError, ParseErrorView};
use vstd::prelude::*;
use vstd::std_specs::iter::IteratorSpec;
use vstd::utf8::encode_utf8;

verus! {

/// Where the state machine stands.
#[derive(Clone, Copy, Debug, PartialEq, Eq, Structural)]
pub enum QuoteState {
    /// Outside any quotes.
    Bare,
    /// After an opening single quote.
    InSingleQuote,
    /// After an opening double quote.
    InDoubleQuote,
}

/// The character that a backslash and `selector` stand for, for the escapes that are
/// two characters long.
pub open spec fn simple_escape(selector: char) -> Option<char> {
    if selector == 'a' {
        Some('\u{07}')
    } else if selector == 'b' {
        Some('\u{08}')
    } else if selector == 'v' {
        Some('\u{0B}')
    } else if selector == 'f' {
        Some('\u{0C}')
    } else if selector == 'n' {
        Some('\n')
    } else if selector == 'r' {
        Some('\r')
    } else if selector == 't' {
        Some('\t')
    } else if selector == 'e' || selector == 'E' {
        Some('\u{1B}')
    } else if selector == '\\' || selector == '\'' || selector == '"' || selector == ' ' {
        Some(selector)
    } else {
        None
    }
}

/// What the escape stands for whose backslash is at `position` and is followed by
/// `rest`: the character, and how many characters of `rest` the escape takes up.
pub open spec fn resolve_escape(rest: Seq<char>, position: nat) -> Result<
    (char, nat),
    ParseErrorView,
> {
    if rest.len() == 0 {
        Err(ParseErrorView::DanglingEscape { position })
    } else if rest[0] == 'u' {
        match unicode_escape(rest.skip(1)) {
            Ok(c) => Ok((c, 1 + unicode_escape_len(rest.skip(1)))),
            Err(reason) => Err(ParseErrorView::MalformedUnicode { position: position + 1, reason }),
        }
    } else {
        match simple_escape(rest[0]) {
            Some(c) => Ok((c, 1)),
            None => Err(
                ParseErrorView::UnrecognizedEscape { position: position + 1, character: rest[0] },
            ),
        }
    }
}

/// `then`, with `text` in front of what it yields.
pub open spec fn prefixed(text: Seq<char>, then: Result<Seq<char>, ParseErrorView>) -> Result<
    Seq<char>,
    ParseErrorView,
> {
    match then {
        Ok(more) => Ok(text + more),
        Err(error) => Err(error),
    }
}

/// What the machine yields from `state` on `rest`, whose first character is at
/// `position` of the input.
///
/// The end of the input is accepted in every state: a quote need not be closed.
pub open spec fn unescape_from(state: QuoteState, rest: Seq<char>, position: nat) -> Result<
    Seq<char>,
    ParseErrorView,
>
    decreases rest.len(),
{
    if rest.len() == 0 {
        Ok(Seq::empty())
    } else {
        let c = rest[0];
        let tail = rest.skip(1);
        match state {
            QuoteState::Bare => {
                if c == '\'' {
                    unescape_from(QuoteState::InSingleQuote, tail, position + 1)
                } else if c == '"' {
                    unescape_from(QuoteState::InDoubleQuote, tail, position + 1)
                } else {
                    prefixed(seq![c], unescape_from(QuoteState::Bare, tail, position + 1))
                }
            },
            QuoteState::InSingleQuote => {
                if c == '\'' {
                    unescape_from(QuoteState::Bare, tail, position + 1)
                } else {
                    prefixed(seq![c], unescape_from(QuoteState::InSingleQuote, tail, position + 1))
                }
            },
            QuoteState::InDoubleQuote => {
                if c == '"' {
                    unescape_from(QuoteState::Bare, tail, position + 1)
                } else if c == '\\' {
                    match resolve_escape(tail, position) {
                        Ok((decoded, taken)) => {
                            proof {
                                lemma_escape_fits(tail, position);
                            }
                            prefixed(
                                seq![decoded],
                                unescape_from(
                                    QuoteState::InDoubleQuote,
                                    tail.skip(taken as int),
                                    position + 1 + taken,
                                ),
                            )
                        },
                        Err(error) => Err(error),
                    }
                } else {
                    prefixed(seq![c], unescape_from(QuoteState::InDoubleQuote, tail, position + 1))
                }
            },
        }
    }
}

/// The string that `s` encodes, or why it encodes none.
pub open spec fn unescaped(s: Seq<char>) -> Result<Seq<char>, ParseErrorView> {
    unescape_from(QuoteState::Bare, s, 0)
}

/// An escape takes up at least one character after the backslash, and no more than
/// there are.
pub proof fn lemma_escape_fits(rest: Seq<char>, position: nat)
    ensures
        resolve_escape(rest, position) matches Ok((_, taken)) ==> 1 <= taken <= rest.len(),
{
    if rest.len() > 0 && rest[0] == 'u' {
        let after = rest.skip(1);
        if after.len() > 0 {
            lemma_digit_run(after.skip(1));
        }
    }
}

/// Text in front of text in front of an outcome is the two texts, joined, in front
/// of it.
pub proof fn lemma_prefixed_twice(
    first: Seq<char>,
    second: Seq<char>,
    then: Result<Seq<char>, ParseErrorView>,
)
    ensures
        prefixed(first, prefixed(second, then)) == prefixed(first + second, then),
{
    if let Ok(more) = then {
        assert(first + (second + more) =~= (first + second) + more);
    }
}

/// The UTF-8 encoding of a text has at least one byte for each character.
pub proof fn lemma_characters_fit_in_bytes(text: Seq<char>)
    ensures
        text.len() <= encode_utf8(text).len(),
    decreases text.len(),
{
    if text.len() > 0 {
        lemma_characters_fit_in_bytes(text.drop_first());
    }
}

/// The character that a backslash and `selector` stand for, for the escapes that are
/// two characters long.
fn decode_simple_escape(selector: char) -> (decoded: Option<char>)
    ensures
        decoded == simple_escape(selector),
{
    if selector == 'a' {
        Some('\u{07}')
    } else if selector == 'b' {
        Some('\u{08}')
    } else if selector == 'v' {
        Some('\u{0B}')
    } else if selector == 'f' {
        Some('\u{0C}')
    } else if selector == 'n' {
        Some('\n')
    } else if selector == 'r' {
        Some('\r')
    } else if selector == 't' {
        Some('\t')
    } else if selector == 'e' || selector == 'E' {
        Some('\u{1B}')
    } else if selector == '\\' || selector == '\'' || selector == '"' || selector == ' ' {
        Some(selector)
    } else {
        None
    }
}

/// Parses a shell-like quoted string, such as [`escape`](crate::escape) produces.
///
/// Outside quotes and between single quotes every character stands for itself.
/// Between double quotes a backslash starts an escape: `\a`, `\b`, `\v`, `\f`, `\n`,
/// `\r`, `\t`, `\e` or `\E`, a backslash before a backslash, a quote of either kind or
/// a space, and `\u{HEX}`. Quoted and unquoted stretches may follow one another
/// directly, and a quote that is never closed runs to the end of the input. The first
/// escape that cannot be read ends the parse with its error, and nothing of the text
/// read so far is returned.
pub fn unescape(s: &str) -> (result: Result<String, ParseError>)
    ensures
        match result {
            Ok(text) => unescaped(s@) matches Ok(expected) && text@ == expected,
            Err(error) => unescaped(s@) matches Err(expected) && error@ == expected,
        },
{
    // A string has no more characters than bytes, so no position overflows.
    let limit = s.as_bytes().len();
    proof {
        lemma_characters_fit_in_bytes(s@);
    }
    let mut chars = s.chars();
    let mut index: usize = 0;
    let mut state = QuoteState::Bare;
    let mut res = String::new();
    loop
        invariant
            index + chars.remaining().len() <= limit,
            unescaped(s@) == prefixed(
                res@,
                unescape_from(state, chars.remaining(), index as nat),
            ),
        ensures
            unescaped(s@) matches Ok(expected) && res@ == expected,
        decreases limit - index,
    {
        let ghost here = index as nat;
        let c = match chars.next() {
            Some(c) => c,
            None => {
                break;
            },
        };
        index = index + 1;
        let ghost tail = chars.remaining();
        let mut emitted = None;
        match state {
            QuoteState::Bare => {
                if c == '\'' {
                    state = QuoteState::InSingleQuote;
                } else if c == '"' {
                    state = QuoteState::InDoubleQuote;
                } else {
                    emitted = Some(c);
                }
            },
            QuoteState::InSingleQuote => {
                if c == '\'' {
                    state = QuoteState::Bare;
                } else {
                    emitted = Some(c);
                }
            },
            QuoteState::InDoubleQuote => {
                if c == '"' {
                    state = QuoteState::Bare;
                } else if c == '\\' {
                    let selector = match chars.next() {
                        Some(selector) => selector,
                        None => {
                            return Err(ParseError::DanglingEscape { position: index - 1 });
                        },
                    };
                    index = index + 1;
                    if selector == 'u' {
                        let position = index - 1;
                        match parse_unicode(&mut chars, &mut index) {
                            Ok(decoded) => {
                                emitted = Some(decoded);
                            },
                            Err(reason) => {
                                return Err(ParseError::MalformedUnicode { position, reason });
                            },
                        }
                    } else {
                        match decode_simple_escape(selector) {
                            Some(decoded) => {
                                emitted = Some(decoded);
                            },
                            None => {
                                return Err(
                                    ParseError::UnrecognizedEscape {
                                        position: index - 1,
                                        character: selector,
                                    },
                                );
                            },
                        }
                    }
                    proof {
                        lemma_escape_fits(tail, here);
                        let taken = resolve_escape(tail, here)->Ok_0.1;
                        assert(chars.remaining() =~= tail.skip(taken as int));
                    }
                } else {
                    emitted = Some(c);
                }
            },
        }
        if let Some(decoded) = emitted {
            let ghost read = res@;
            res.push(decoded);
            proof {
                lemma_prefixed_twice(
                    read,
                    seq![decoded],
                    unescape_from(state, chars.remaining(), index as nat),
                );
                assert(read + seq![decoded] =~= res@);
            }
        }
    }
    Ok(res)
}

} // verus!
