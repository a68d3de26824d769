//! Text conversions of the standard library that the codecs lean on.
use std::string::FromUtf8Error;
use vstd::prelude::*;
use vstd::string::StringExecFns;
use vstd::utf8::{decode_utf8, is_scalar, valid_utf8};

verus! {

/// The error of `String::from_utf8`, carried through unopened.
#[verifier::external_type_specification]
#[verifier::external_body]
pub struct ExFromUtf8Error(FromUtf8Error);

/// The error that `String::from_utf8` reports for bytes that are not UTF-8.
pub uninterp spec fn utf8_error(bytes: Seq<u8>) -> FromUtf8Error;

/// `String::from_utf8`: succeeds exactly on UTF-8, and the string then
/// holds the characters that the bytes spell. Otherwise the error is the one
/// that belongs to those bytes.
#[verifier::external_body]
pub(crate) fn string_from_utf8(bytes: Vec<u8>) -> (r: Result<String, FromUtf8Error>)
    ensures
        match r {
            Ok(s) => valid_utf8(bytes@) && s@ == decode_utf8(bytes@),
            Err(e) => !valid_utf8(bytes@) && e == utf8_error(bytes@),
        },
{
    String::from_utf8(bytes)
}

/// `char::from_u32`: the character with that code, for a Unicode scalar
/// value, and nothing for any other number.
#[verifier::external_body]
pub(crate) fn char_from_u32(code: u32) -> (r: Option<char>)
    ensures
        match r {
            Some(c) => is_scalar(code) && c as u32 == code,
            None => !is_scalar(code),
        },
{
    char::from_u32(code)
}

/// What the standard library's `Debug` formatting of a character yields:
/// the character between single quotes, escaped where need be.
pub uninterp spec fn debug_char(c: char) -> Seq<char>;

/// What the standard library's `Debug` formatting of a string yields: the
/// string between double quotes, escaped where need be.
pub uninterp spec fn debug_str(s: Seq<char>) -> Seq<char>;

/// `<char as Debug>::fmt`, through `format!`: the result is named, not
/// described.
#[verifier::external_body]
pub(crate) fn char_debug(c: char) -> (r: String)
    ensures
        r@ == debug_char(c),
{
    format!("{c:?}")
}

/// `<str as Debug>::fmt`, through `format!`: the result is named, not
/// described.
#[verifier::external_body]
pub(crate) fn str_debug(s: &str) -> (r: String)
    ensures
        r@ == debug_str(s@),
{
    format!("{s:?}")
}

/// The character for a digit below sixteen, capitals for ten and above.
pub open spec fn spec_digit(d: nat) -> char {
    if d == 0 {
        '0'
    } else if d == 1 {
        '1'
    } else if d == 2 {
        '2'
    } else if d == 3 {
        '3'
    } else if d == 4 {
        '4'
    } else if d == 5 {
        '5'
    } else if d == 6 {
        '6'
    } else if d == 7 {
        '7'
    } else if d == 8 {
        '8'
    } else if d == 9 {
        '9'
    } else if d == 10 {
        'A'
    } else if d == 11 {
        'B'
    } else if d == 12 {
        'C'
    } else if d == 13 {
        'D'
    } else if d == 14 {
        'E'
    } else {
        'F'
    }
}

/// A number in decimal, without leading zeros.
pub open spec fn spec_decimal(n: nat) -> Seq<char>
    decreases n,
{
    if n < 10 {
        seq![spec_digit(n)]
    } else {
        spec_decimal(n / 10).push(spec_digit(n % 10))
    }
}

/// A byte in hexadecimal with capitals, without leading zeros, behind `0x`.
pub open spec fn spec_hex(n: u8) -> Seq<char> {
    if n < 16 {
        seq!['0', 'x', spec_digit(n as nat)]
    } else {
        seq!['0', 'x', spec_digit((n / 16) as nat), spec_digit((n % 16) as nat)]
    }
}

/// The text of a digit below sixteen.
pub fn digit_str(d: u8) -> (r: &'static str)
    requires
        d < 16,
    ensures
        r@ == seq![spec_digit(d as nat)],
{
    proof {
        reveal_strlit("0");
        reveal_strlit("1");
        reveal_strlit("2");
        reveal_strlit("3");
        reveal_strlit("4");
        reveal_strlit("5");
        reveal_strlit("6");
        reveal_strlit("7");
        reveal_strlit("8");
        reveal_strlit("9");
        reveal_strlit("A");
        reveal_strlit("B");
        reveal_strlit("C");
        reveal_strlit("D");
        reveal_strlit("E");
        reveal_strlit("F");
    }
    let r = match d {
        0 => "0",
        1 => "1",
        2 => "2",
        3 => "3",
        4 => "4",
        5 => "5",
        6 => "6",
        7 => "7",
        8 => "8",
        9 => "9",
        10 => "A",
        11 => "B",
        12 => "C",
        13 => "D",
        14 => "E",
        _ => "F",
    };
    assert(r@ =~= seq![spec_digit(d as nat)]);
    r
}

/// Appends `n` in decimal.
pub fn push_decimal(out: &mut String, n: u128)
    ensures
        final(out)@ == old(out)@ + spec_decimal(n as nat),
    decreases n,
{
    if n >= 10 {
        push_decimal(out, n / 10);
    }
    out.append(digit_str((n % 10) as u8));
    proof {
        assert(out@ =~= old(out)@ + spec_decimal(n as nat));
    }
}

/// `n` in decimal.
pub fn decimal_string(n: u128) -> (r: String)
    ensures
        r@ == spec_decimal(n as nat),
{
    let mut out = String::new();
    push_decimal(&mut out, n);
    assert(out@ =~= spec_decimal(n as nat));
    out
}

/// Appends a byte in hexadecimal with capitals, behind `0x`.
pub fn push_hex(out: &mut String, n: u8)
    ensures
        final(out)@ == old(out)@ + spec_hex(n),
{
    proof {
        reveal_strlit("0x");
    }
    out.append("0x");
    if n >= 16 {
        out.append(digit_str(n / 16));
    }
    out.append(digit_str(n % 16));
    proof {
        assert(out@ =~= old(out)@ + spec_hex(n));
    }
}

} // verus!
