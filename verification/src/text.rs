//! Small text utilities shared by the library: decimal and hexadecimal
//! rendering of integers and appending characters to a `String`.
use vstd::prelude::*;

verus! {

/// The decimal rendering of `n` (no sign, no leading zeros; `0` is `"0"`).
pub open spec fn decimal_chars(n: nat) -> Seq<char>
    decreases n,
{
    if n < 10 {
        seq![digit_char(n)]
    } else {
        decimal_chars(n / 10).push(digit_char(n % 10))
    }
}

/// The ASCII character of a decimal digit.
pub open spec fn digit_char(d: nat) -> char {
    ((d + 48) as u32) as char
}

/// `String::push`: claims, as the standard library documents, that `c` is
/// appended to the end of `s`.
#[verifier::external_body]
pub(crate) fn string_push(s: &mut String, c: char)
    ensures
        final(s)@ == old(s)@.push(c),
{
    s.push(c);
}

/// Appends the decimal rendering of `n` to `s`.
pub fn push_decimal(s: &mut String, n: u64)
    ensures
        final(s)@ == old(s)@ + decimal_chars(n as nat),
    decreases n,
{
    if n >= 10 {
        push_decimal(s, n / 10);
    }
    let d = n % 10;
    let c = char_from_digit(d);
    string_push(s, c);
}

fn char_from_digit(d: u64) -> (c: char)
    requires
        d < 10,
    ensures
        c == digit_char(d as nat),
{
    let b: u8 = (d as u8) + 48;
    b as char
}

/// The uppercase hexadecimal rendering of `n` (no leading zeros; `0` is
/// `"0"`).
pub open spec fn hex_upper_chars(n: nat) -> Seq<char>
    decreases n,
{
    if n < 16 {
        seq![hex_upper_digit(n)]
    } else {
        hex_upper_chars(n / 16).push(hex_upper_digit(n % 16))
    }
}

/// The uppercase ASCII character of a hexadecimal digit.
pub open spec fn hex_upper_digit(d: nat) -> char {
    if d < 10 {
        ((d + 48) as u32) as char
    } else {
        ((d + 55) as u32) as char
    }
}

/// Appends the uppercase hexadecimal rendering of `n` to `s`.
pub fn push_hex_upper(s: &mut String, n: u32)
    ensures
        final(s)@ == old(s)@ + hex_upper_chars(n as nat),
    decreases n,
{
    if n >= 16 {
        push_hex_upper(s, n / 16);
    }
    let d = n % 16;
    let b: u8 = if d < 10 {
        (d as u8) + 48
    } else {
        (d as u8) + 55
    };
    string_push(s, b as char);
}

/// Appends `t` to `s`.
pub fn push_str(s: &mut String, t: &str)
    ensures
        final(s)@ == old(s)@ + t@,
{
    s.append(t);
}

} // verus!
