//! What `unescape` reports when its input is not validly quoted.

use vstd::prelude::*;

verus! {

/// The number `n` in decimal digits.
pub open spec fn decimal_digits(n: nat) -> Seq<char>
    decreases n,
{
    if n < 10 {
        seq![('0' as nat + n) as char]
    } else {
        decimal_digits(n / 10).push(('0' as nat + n % 10) as char)
    }
}

/// Appends the decimal digits of `n` to `out`.
fn push_decimal(out: &mut String, n: usize)
    ensures
        final(out)@ == old(out)@ + decimal_digits(n as nat),
    decreases n,
{
    if n >= 10 {
        push_decimal(out, n / 10);
    }
    out.push(('0' as u8 + (n % 10) as u8) as char);
}

/// Why a `\u{...}` escape could not be read.
#[derive(Debug, PartialEq, Eq)]
pub enum UnicodeEscapeError {
    /// `\u` is not followed by `{`.
    MissingBrace,
    /// Nothing stands between the braces, or something that is no hexadecimal digit.
    InvalidHex {
        /// What stands between the braces.
        digits: String,
    },
    /// The digits between the braces give a number that is no Unicode scalar value.
    InvalidScalar {
        /// What stands between the braces.
        digits: String,
    },
}

/// The mathematical model of a [`UnicodeEscapeError`]: the same cases, with the
/// digits as a sequence of characters.
pub enum UnicodeEscapeErrorView {
    /// `\u` is not followed by `{`.
    MissingBrace,
    /// Nothing stands between the braces, or something that is no hexadecimal digit.
    InvalidHex { digits: Seq<char> },
    /// The digits between the braces give a number that is no Unicode scalar value.
    InvalidScalar { digits: Seq<char> },
}

impl View for UnicodeEscapeError {
    type V = UnicodeEscapeErrorView;

    open spec fn view(&self) -> UnicodeEscapeErrorView {
        match self {
            UnicodeEscapeError::MissingBrace => UnicodeEscapeErrorView::MissingBrace,
            UnicodeEscapeError::InvalidHex { digits } => UnicodeEscapeErrorView::InvalidHex {
                digits: digits@,
            },
            UnicodeEscapeError::InvalidScalar { digits } => UnicodeEscapeErrorView::InvalidScalar {
                digits: digits@,
            },
        }
    }
}

impl UnicodeEscapeErrorView {
    /// The description of the failure, for a reader.
    pub open spec fn message(self) -> Seq<char> {
        match self {
            UnicodeEscapeErrorView::MissingBrace => "expected '{' character in unicode escape"@,
            UnicodeEscapeErrorView::InvalidHex { digits } => "could not parse '"@ + digits
                + "' as hexadecimal digits"@,
            UnicodeEscapeErrorView::InvalidScalar { digits } => "could not parse '"@ + digits
                + "' as a unicode char"@,
        }
    }
}

impl Clone for UnicodeEscapeError {
    fn clone(&self) -> (copy: Self)
        ensures
            copy@ == self@,
    {
        match self {
            UnicodeEscapeError::MissingBrace => UnicodeEscapeError::MissingBrace,
            UnicodeEscapeError::InvalidHex { digits } => UnicodeEscapeError::InvalidHex {
                digits: digits.clone(),
            },
            UnicodeEscapeError::InvalidScalar { digits } => UnicodeEscapeError::InvalidScalar {
                digits: digits.clone(),
            },
        }
    }
}

impl UnicodeEscapeError {
    /// Describes the failure for a reader, with what stands between the braces.
    pub fn message(&self) -> (text: String)
        ensures
            text@ == self@.message(),
    {
        match self {
            UnicodeEscapeError::MissingBrace => String::from_str(
                "expected '{' character in unicode escape",
            ),
            UnicodeEscapeError::InvalidHex { digits } => {
                let mut text = String::from_str("could not parse '");
                text.append(digits.as_str());
                text.append("' as hexadecimal digits");
                text
            },
            UnicodeEscapeError::InvalidScalar { digits } => {
                let mut text = String::from_str("could not parse '");
                text.append(digits.as_str());
                text.append("' as a unicode char");
                text
            },
        }
    }
}

/// Why a string could not be unescaped. Positions count characters, not bytes, from
/// zero.
#[derive(Debug, PartialEq, Eq)]
pub enum ParseError {
    /// Inside double quotes the input ends with a backslash.
    DanglingEscape {
        /// Where the backslash stands.
        position: usize,
    },
    /// Inside double quotes a backslash is followed by a character that names no
    /// escape.
    UnrecognizedEscape {
        /// Where the character after the backslash stands.
        position: usize,
        /// The character after the backslash.
        character: char,
    },
    /// Inside double quotes `\u` is not followed by the code of a character between
    /// braces.
    MalformedUnicode {
        /// Where the `u` stands.
        position: usize,
        /// What is wrong with the escape.
        reason: UnicodeEscapeError,
    },
}

/// The mathematical model of a [`ParseError`]: the same cases, with positions as
/// natural numbers.
pub enum ParseErrorView {
    /// Inside double quotes the input ends with a backslash, at `position`.
    DanglingEscape { position: nat },
    /// Inside double quotes a backslash is followed by `character`, at `position`,
    /// which names no escape.
    UnrecognizedEscape { position: nat, character: char },
    /// Inside double quotes `\u`, with the `u` at `position`, is not followed by the
    /// code of a character between braces.
    MalformedUnicode { position: nat, reason: UnicodeEscapeErrorView },
}

impl View for ParseError {
    type V = ParseErrorView;

    open spec fn view(&self) -> ParseErrorView {
        match self {
            ParseError::DanglingEscape { position } => ParseErrorView::DanglingEscape {
                position: *position as nat,
            },
            ParseError::UnrecognizedEscape { position, character } => {
                ParseErrorView::UnrecognizedEscape {
                    position: *position as nat,
                    character: *character,
                }
            },
            ParseError::MalformedUnicode { position, reason } => ParseErrorView::MalformedUnicode {
                position: *position as nat,
                reason: reason@,
            },
        }
    }
}

impl ParseErrorView {
    /// Where the offending escape stands.
    pub open spec fn position(self) -> nat {
        match self {
            ParseErrorView::DanglingEscape { position } => position,
            ParseErrorView::UnrecognizedEscape { position, .. } => position,
            ParseErrorView::MalformedUnicode { position, .. } => position,
        }
    }

    /// The description of the failure, for a reader.
    pub open spec fn message(self) -> Seq<char> {
        match self {
            ParseErrorView::DanglingEscape { position } => "invalid escape \\ at char "@
                + decimal_digits(position),
            ParseErrorView::UnrecognizedEscape { position, character } => "invalid escape \\"@
                + seq![character] + " at char "@ + decimal_digits(position),
            ParseErrorView::MalformedUnicode { position, reason } => "\\u could not be parsed at char "@
                + decimal_digits(position) + ": "@ + reason.message(),
        }
    }
}

impl Clone for ParseError {
    fn clone(&self) -> (copy: Self)
        ensures
            copy@ == self@,
    {
        match self {
            ParseError::DanglingEscape { position } => ParseError::DanglingEscape {
                position: *position,
            },
            ParseError::UnrecognizedEscape { position, character } => {
                ParseError::UnrecognizedEscape { position: *position, character: *character }
            },
            ParseError::MalformedUnicode { position, reason } => ParseError::MalformedUnicode {
                position: *position,
                reason: reason.clone(),
            },
        }
    }
}

impl ParseError {
    /// Where the offending escape stands: the backslash that ends the input, or the
    /// character after the backslash.
    pub fn position(&self) -> (position: usize)
        ensures
            position == self@.position(),
    {
        match self {
            ParseError::DanglingEscape { position } => *position,
            ParseError::UnrecognizedEscape { position, .. } => *position,
            ParseError::MalformedUnicode { position, .. } => *position,
        }
    }

    /// Describes the failure for a reader: what is wrong, with the offending text,
    /// and where.
    pub fn message(&self) -> (text: String)
        ensures
            text@ == self@.message(),
    {
        match self {
            ParseError::DanglingEscape { position } => {
                let mut text = String::from_str("invalid escape \\ at char ");
                push_decimal(&mut text, *position);
                text
            },
            ParseError::UnrecognizedEscape { position, character } => {
                let mut text = String::from_str("invalid escape \\");
                text.push(*character);
                text.append(" at char ");
                push_decimal(&mut text, *position);
                text
            },
            ParseError::MalformedUnicode { position, reason } => {
                let mut text = String::from_str("\\u could not be parsed at char ");
                push_decimal(&mut text, *position);
                text.append(": ");
                let why = reason.message();
                text.append(why.as_str());
                text
            },
        }
    }
}

} // verus!
