//! The Unicode-escape codec: a character written as `\u{HEX}`, where `HEX` is its
//! code in hexadecimal.
//!
//! The encoder writes lowercase digits without leading zeros. The decoder reads what
//! follows `\u`: an opening brace, then the digits up to the next closing brace or,
//! where there is none, up to the end of the input. It accepts digits in either case
//! and any number of leading zeros.

use crate::error::{UnicodeEscapeError, UnicodeEscapeErrorView};
use std::str::Chars;
use vstd::prelude::*;
use vstd::std_specs::iter::IteratorSpec;

verus! {

/// The lowercase hexadecimal digit that stands for `d`, a number below 16.
pub open spec fn hex_digit(d: nat) -> char
    recommends
        d < 16,
{
    if d < 10 {
        ('0' as nat + d) as char
    } else {
        ('a' as nat + d - 10) as char
    }
}

/// The code `n` in lowercase hexadecimal, without leading zeros; zero is `0`.
pub open spec fn hex_digits(n: nat) -> Seq<char>
    decreases n,
{
    if n < 16 {
        seq![hex_digit(n)]
    } else {
        hex_digits(n / 16).push(hex_digit(n % 16))
    }
}

/// `c` is a hexadecimal digit, in either case.
pub open spec fn is_hex_digit(c: char) -> bool {
    ('0' <= c <= '9') || ('a' <= c <= 'f') || ('A' <= c <= 'F')
}

/// The number that the hexadecimal digit `c` stands for.
pub open spec fn hex_digit_value(c: char) -> nat
    recommends
        is_hex_digit(c),
{
    if '0' <= c <= '9' {
        (c as nat - '0' as nat) as nat
    } else if 'a' <= c <= 'f' {
        (c as nat - 'a' as nat + 10) as nat
    } else {
        (c as nat - 'A' as nat + 10) as nat
    }
}

/// Every character of `digits` is a hexadecimal digit.
pub open spec fn all_hex(digits: Seq<char>) -> bool {
    forall|i: int| 0 <= i < digits.len() ==> is_hex_digit(#[trigger] digits[i])
}

/// The number that `digits` stands for in base 16, most significant digit first.
pub open spec fn hex_value(digits: Seq<char>) -> nat
    recommends
        all_hex(digits),
    decreases digits.len(),
{
    if digits.len() == 0 {
        0
    } else {
        16 * hex_value(digits.drop_last()) + hex_digit_value(digits.last())
    }
}

/// `n` is the code of a character: a code point that is no surrogate.
pub open spec fn is_scalar_value(n: nat) -> bool {
    n <= 0xD7FF || 0xE000 <= n <= 0x10FFFF
}

/// The characters of `rest` before its first closing brace; all of `rest` where it
/// holds none.
pub open spec fn digit_run(rest: Seq<char>) -> Seq<char>
    decreases rest.len(),
{
    if rest.len() == 0 || rest[0] == '}' {
        Seq::empty()
    } else {
        seq![rest[0]] + digit_run(rest.skip(1))
    }
}

/// What the decoder makes of `rest`, the input that follows `\u`.
pub open spec fn unicode_escape(rest: Seq<char>) -> Result<char, UnicodeEscapeErrorView> {
    if rest.len() == 0 || rest[0] != '{' {
        Err(UnicodeEscapeErrorView::MissingBrace)
    } else {
        let digits = digit_run(rest.skip(1));
        if digits.len() == 0 || !all_hex(digits) {
            Err(UnicodeEscapeErrorView::InvalidHex { digits })
        } else if !is_scalar_value(hex_value(digits)) {
            Err(UnicodeEscapeErrorView::InvalidScalar { digits })
        } else {
            Ok(hex_value(digits) as char)
        }
    }
}

/// How many characters of `rest`, the input that follows `\u`, a well-formed escape
/// takes up: the opening brace, the digits, and the closing brace where there is
/// one.
pub open spec fn unicode_escape_len(rest: Seq<char>) -> nat {
    if rest.len() == 0 {
        0
    } else {
        let digits = digit_run(rest.skip(1));
        if digits.len() + 1 < rest.len() {
            digits.len() + 2
        } else {
            digits.len() + 1
        }
    }
}

/// The escape that the encoder writes for `c`.
pub open spec fn unicode_escape_text(c: char) -> Seq<char> {
    seq!['\\', 'u', '{'] + hex_digits(c as nat) + seq!['}']
}

/// The digit run is no longer than the text it is taken from.
pub proof fn lemma_digit_run(rest: Seq<char>)
    ensures
        digit_run(rest).len() <= rest.len(),
    decreases rest.len(),
{
    if rest.len() > 0 && rest[0] != '}' {
        lemma_digit_run(rest.skip(1));
    }
}

/// A text without closing brace, followed by one, is the digit run of the whole.
pub proof fn lemma_digit_run_closed(digits: Seq<char>, rest: Seq<char>)
    requires
        forall|i: int| 0 <= i < digits.len() ==> digits[i] != '}',
    ensures
        digit_run(digits + seq!['}'] + rest) == digits,
    decreases digits.len(),
{
    if digits.len() > 0 {
        let whole = digits + seq!['}'] + rest;
        lemma_digit_run_closed(digits.skip(1), rest);
        assert(whole.skip(1) =~= digits.skip(1) + seq!['}'] + rest);
    }
}

/// A text without closing brace is its own digit run.
pub proof fn lemma_digit_run_open(digits: Seq<char>)
    requires
        forall|i: int| 0 <= i < digits.len() ==> digits[i] != '}',
    ensures
        digit_run(digits) == digits,
    decreases digits.len(),
{
    if digits.len() > 0 {
        lemma_digit_run_open(digits.skip(1));
    }
}

/// Reading the digits of a code gives the code back.
pub proof fn lemma_hex_round_trip(n: nat)
    ensures
        hex_digits(n).len() > 0,
        all_hex(hex_digits(n)),
        hex_value(hex_digits(n)) == n,
    decreases n,
{
    if n < 16 {
        assert(hex_value(hex_digits(n).drop_last()) == 0);
    } else {
        lemma_hex_round_trip(n / 16);
        assert(hex_digits(n).drop_last() =~= hex_digits(n / 16));
    }
}

/// One more digit multiplies the value by 16 and adds the digit's own.
pub proof fn lemma_hex_value_push(digits: Seq<char>, c: char)
    ensures
        hex_value(digits.push(c)) == 16 * hex_value(digits) + hex_digit_value(c),
        all_hex(digits.push(c)) <==> all_hex(digits) && is_hex_digit(c),
{
    let longer = digits.push(c);
    assert(longer.drop_last() =~= digits);
    if all_hex(longer) {
        assert(is_hex_digit(longer[digits.len() as int]));
        assert forall|i: int| 0 <= i < digits.len() implies is_hex_digit(
            #[trigger] digits[i],
        ) by {
            assert(digits[i] == longer[i]);
        }
    }
}

/// The lowercase hexadecimal digit for a number below 16.
fn hex_digit_char(d: u32) -> (c: char)
    requires
        d < 16,
    ensures
        c == hex_digit(d as nat),
{
    if d < 10 {
        ('0' as u8 + d as u8) as char
    } else {
        ('a' as u8 + (d - 10) as u8) as char
    }
}

/// The number that a hexadecimal digit stands for; `None` for any other character.
fn hex_digit_number(c: char) -> (d: Option<u32>)
    ensures
        match d {
            Some(d) => is_hex_digit(c) && d == hex_digit_value(c),
            None => !is_hex_digit(c),
        },
{
    if c >= '0' && c <= '9' {
        Some(c as u32 - '0' as u32)
    } else if c >= 'a' && c <= 'f' {
        Some(c as u32 - 'a' as u32 + 10)
    } else if c >= 'A' && c <= 'F' {
        Some(c as u32 - 'A' as u32 + 10)
    } else {
        None
    }
}

/// Appends the hexadecimal digits of `n` to `out`.
pub(crate) fn push_hex(out: &mut String, n: u32)
    ensures
        final(out)@ == old(out)@ + hex_digits(n as nat),
    decreases n,
{
    if n >= 16 {
        push_hex(out, n / 16);
    }
    out.push(hex_digit_char(n % 16));
}

/// Reads what follows `\u`: an opening brace, the digits up to the next closing
/// brace or the end of the input, and the closing brace. `index` counts the
/// characters that have been taken from `chars`.
pub(crate) fn parse_unicode(chars: &mut Chars<'_>, index: &mut usize) -> (result: Result<
    char,
    UnicodeEscapeError,
>)
    requires
        *old(index) + (*old(chars)).remaining().len() <= usize::MAX,
    ensures
        *final(index) + (*final(chars)).remaining().len() == *old(index) + (*old(
            chars,
        )).remaining().len(),
        match result {
            Ok(c) => {
                &&& unicode_escape((*old(chars)).remaining()) matches Ok(expected) && c
                    == expected
                &&& (*final(chars)).remaining() == (*old(chars)).remaining().skip(
                    unicode_escape_len((*old(chars)).remaining()) as int,
                )
            },
            Err(error) => unicode_escape((*old(chars)).remaining()) matches Err(expected)
                && error@ == expected,
        },
{
    let ghost start = (*chars).remaining();
    let ghost total = *index + start.len();
    match chars.next() {
        None => {
            return Err(UnicodeEscapeError::MissingBrace);
        },
        Some(c) => {
            *index = *index + 1;
            if c != '{' {
                return Err(UnicodeEscapeError::MissingBrace);
            }
        },
    }
    let ghost body = (*chars).remaining();
    let mut digits = String::new();
    let mut valid = true;
    let mut value: u32 = 0;
    let mut closed = false;
    loop
        invariant_except_break
            !closed,
            body == digits@ + (*chars).remaining(),
        invariant
            start.len() > 0,
            body == start.skip(1),
            *index + (*chars).remaining().len() == total,
            total <= usize::MAX,
            forall|i: int| 0 <= i < digits@.len() ==> digits@[i] != '}',
            valid == all_hex(digits@),
            valid && hex_value(digits@) < 0x110000 ==> value == hex_value(digits@),
            valid && hex_value(digits@) >= 0x110000 ==> value >= 0x110000,
        ensures
            closed ==> body == digits@ + seq!['}'] + (*chars).remaining(),
            !closed ==> body == digits@ && (*chars).remaining().len() == 0,
        decreases usize::MAX - *index,
    {
        let c = match chars.next() {
            Some(c) => c,
            None => {
                break;
            },
        };
        *index = *index + 1;
        if c == '}' {
            closed = true;
            break;
        }
        proof {
            lemma_hex_value_push(digits@, c);
        }
        digits.push(c);
        match hex_digit_number(c) {
            Some(d) => {
                // Beyond the largest code the number is no longer followed: it can
                // only grow, and it is too large as it is.
                if value < 0x110000 {
                    value = value * 16 + d;
                }
            },
            None => {
                valid = false;
            },
        }
    }
    proof {
        let rest = (*chars).remaining();
        let run = digits@.len() as int;
        if closed {
            lemma_digit_run_closed(digits@, rest);
            assert forall|i: int| 0 <= i < rest.len() implies start.skip(run + 2)[i]
                == rest[i] by {
                assert(start.skip(run + 2)[i] == body[i + run + 1]);
            }
        } else {
            lemma_digit_run_open(digits@);
        }
    }
    if !valid || digits.as_str().is_empty() {
        return Err(UnicodeEscapeError::InvalidHex { digits });
    }
    match char::from_u32(value) {
        Some(c) => Ok(c),
        None => Err(UnicodeEscapeError::InvalidScalar { digits }),
    }
}

} // verus!
