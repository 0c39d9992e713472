//! The quoting policy: which characters call for quotes, and for which quotes.

use crate::category::{
    is_other, is_separator, is_whitespace, unicode_other, unicode_separator, unicode_whitespace,
};
use vstd::prelude::*;
use vstd::std_specs::iter::IteratorSpec;

verus! {

/// The three shapes that an encoded string can have.
#[derive(Clone, Copy, Debug, PartialEq, Eq, Structural)]
pub enum QuoteStyle {
    /// The text stands as it is.
    Unquoted,
    /// The text stands between single quotes, with nothing inside changed.
    SingleQuoted,
    /// The text stands between double quotes, with backslash escapes inside.
    DoubleQuoted,
}

/// A character that is white space, a separator or of an "other" category.
pub open spec fn is_unprintable(c: char) -> bool {
    unicode_whitespace(c) || unicode_separator(c) || unicode_other(c)
}

/// A string that holds `c` cannot be left without quotes.
pub open spec fn forces_quoting(c: char) -> bool {
    c == '\'' || c == '\\' || c == '"' || c == ' ' || is_unprintable(c)
}

/// A string that holds `c` cannot stand between single quotes. The double quote and
/// the plain space can, whatever the tables say of them.
pub open spec fn precludes_single_quote(c: char) -> bool {
    c == '\'' || c == '\\' || (c != '"' && c != ' ' && is_unprintable(c))
}

/// Some character of `s` forces quoting.
pub open spec fn needs_quoting(s: Seq<char>) -> bool {
    exists|i: int| 0 <= i < s.len() && forces_quoting(#[trigger] s[i])
}

/// No character of `s` stands in the way of single quotes.
pub open spec fn single_quotable(s: Seq<char>) -> bool {
    forall|i: int| 0 <= i < s.len() ==> !precludes_single_quote(#[trigger] s[i])
}

/// The shape in which `s` is encoded: the simplest one that its characters allow.
pub open spec fn quote_style(s: Seq<char>) -> QuoteStyle {
    if !needs_quoting(s) {
        QuoteStyle::Unquoted
    } else if single_quotable(s) {
        QuoteStyle::SingleQuoted
    } else {
        QuoteStyle::DoubleQuoted
    }
}

/// Decides the shape in which `s` is encoded. The scan stops at the first character
/// that settles for double quotes.
pub fn classify(s: &str) -> (style: QuoteStyle)
    ensures
        style == quote_style(s@),
{
    let mut needs_quoting = false;
    let mut single_quotable = true;
    let ghost mut seen: Seq<char> = Seq::empty();
    let mut chars = s.chars();
    loop
        invariant
            s@ == seen + chars.remaining(),
            needs_quoting == self::needs_quoting(seen),
            single_quotable == self::single_quotable(seen),
            chars.decrease() is Some,
        ensures
            needs_quoting == self::needs_quoting(s@),
            single_quotable == self::single_quotable(s@),
        decreases chars.decrease()->0,
    {
        let c = match chars.next() {
            Some(c) => c,
            None => {
                break;
            },
        };
        let ghost before = seen;
        proof {
            seen = seen.push(c);
            assert(forall|i: int| 0 <= i < before.len() ==> before[i] == seen[i]);
            assert(seen[before.len() as int] == c);
        }
        if c == '\'' || c == '\\' {
            single_quotable = false;
            needs_quoting = true;
        } else if c == '"' || c == ' ' {
            needs_quoting = true;
        } else if is_whitespace(c) || is_separator(c) || is_other(c) {
            single_quotable = false;
            needs_quoting = true;
        }
        if needs_quoting && !single_quotable {
            proof {
                // The character that rules out single quotes forces quoting too, and
                // it is a character of the whole string.
                let i = choose|i: int|
                    0 <= i < seen.len() && precludes_single_quote(#[trigger] seen[i]);
                assert(s@[i] == seen[i]);
            }
            break;
        }
    }
    if !needs_quoting {
        QuoteStyle::Unquoted
    } else if single_quotable {
        QuoteStyle::SingleQuoted
    } else {
        QuoteStyle::DoubleQuoted
    }
}

} // verus!
