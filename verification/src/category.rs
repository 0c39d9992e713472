//! What the Unicode tables say of a character.
//!
//! The quoting policy asks three questions of a character that this crate does not
//! answer itself: whether it is white space, whether its general category is one of
//! the separator categories, and whether it is one of the "other" categories. The
//! answers come from tables, of the standard library for the first and of the crate
//! `unicode_categories` for the other two. Each answer is a fixed function of the
//! character, so each has a name here, and the three functions below are trusted to
//! return what the name stands for. Of what the tables hold this crate relies on one
//! entry only: the plain space is a separator.

use unicode_categories::UnicodeCategories;
use vstd::prelude::*;

verus! {

/// Whether `char::is_whitespace` holds of `c`: the Unicode property `White_Space`,
/// as the standard library's tables have it.
pub uninterp spec fn unicode_whitespace(c: char) -> bool;

/// Whether the tables of `unicode_categories` list `c` under one of the general
/// categories Zs, Zl and Zp.
pub uninterp spec fn separator_listed(c: char) -> bool;

/// Whether `UnicodeCategories::is_separator` holds of `c`. The plain space, U+0020,
/// is the first entry of the crate's table for Zs; of every other character the
/// tables decide.
pub open spec fn unicode_separator(c: char) -> bool {
    c == ' ' || separator_listed(c)
}

/// Whether `UnicodeCategories::is_other` holds of `c`: membership in one of the
/// general categories Cc, Cf and Co, as the tables of `unicode_categories` have it.
pub uninterp spec fn unicode_other(c: char) -> bool;

/// Calls `char::is_whitespace`. Trusted: the result is the table lookup that
/// [`unicode_whitespace`] names.
#[verifier::external_body]
pub(crate) fn is_whitespace(c: char) -> (result: bool)
    ensures
        result == unicode_whitespace(c),
{
    c.is_whitespace()
}

/// Calls `UnicodeCategories::is_separator`, which searches the crate's three
/// separator tables for `c`. Trusted: the result is `true` for the plain space and
/// what [`separator_listed`] names for every other character.
#[verifier::external_body]
pub(crate) fn is_separator(c: char) -> (result: bool)
    ensures
        result == (c == ' ' || separator_listed(c)),
{
    c.is_separator()
}

/// Calls `UnicodeCategories::is_other`, which searches the crate's control and format
/// tables and its private-use ranges for `c`. Trusted: the result is what
/// [`unicode_other`] names.
#[verifier::external_body]
pub(crate) fn is_other(c: char) -> (result: bool)
    ensures
        result == unicode_other(c),
{
    c.is_other()
}

} // verus!
