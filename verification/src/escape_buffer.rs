//! Accumulates the four hexadecimal digits of a `\uXXXX` escape and decodes
//! them into a `char`.
//!
//! Feeding a non-hexadecimal character is an error; once four digits have
//! been accumulated they are decoded, the buffer resets, and the decoded value
//! is returned when it is a Unicode scalar value (an error otherwise).
use vstd::prelude::*;
use crate::text::string_push;

verus! {

/// True when `c` is an ASCII hexadecimal digit (`0-9`, `a-f`, `A-F`).
pub open spec fn is_hex_digit(c: char) -> bool {
    ('0' <= c <= '9') || ('a' <= c <= 'f') || ('A' <= c <= 'F')
}

/// The value (0..16) of an ASCII hexadecimal digit.
pub open spec fn hex_digit_value(c: char) -> nat
    recommends
        is_hex_digit(c),
{
    if '0' <= c <= '9' {
        (c as u32 - '0' as u32) as nat
    } else if 'a' <= c <= 'f' {
        (c as u32 - 'a' as u32 + 10) as nat
    } else {
        (c as u32 - 'A' as u32 + 10) as nat
    }
}

/// The number denoted by a sequence of hexadecimal digits, most significant
/// digit first.
pub open spec fn hex_value(digits: Seq<char>) -> nat
    decreases digits.len(),
{
    if digits.len() == 0 {
        0
    } else {
        hex_value(digits.drop_last()) * 16 + hex_digit_value(digits.last())
    }
}

/// True when `v` is a Unicode scalar value (a code point outside the
/// surrogate range).
pub open spec fn is_unicode_scalar(v: nat) -> bool {
    v <= 0x10FFFF && !(0xD800 <= v <= 0xDFFF)
}

/// Message of the error returned for a non-hexadecimal character.
pub open spec fn invalid_char_message(c: char) -> Seq<char> {
    "Invalid unicode escape character: "@.push(c)
}

/// Buffer for accumulating up to four hexadecimal digits (`0-9`, `A-F`,
/// `a-f`) and decoding them into a Unicode character.
pub struct UnicodeEscapeBuffer {
    value: u32,
    len: u8,
    digits: Ghost<Seq<char>>,
}

impl UnicodeEscapeBuffer {
    /// The hexadecimal digits accumulated since the last reset or decode.
    pub closed spec fn digits(&self) -> Seq<char> {
        self.digits@
    }

    /// Internal consistency: fewer than four digits, all hexadecimal, and the
    /// running value equals their hexadecimal value.
    pub closed spec fn wf(&self) -> bool {
        &&& self.len < 4
        &&& self.digits@.len() == self.len
        &&& all_hex_digits(self.digits@)
        &&& self.value == hex_value(self.digits@)
    }

    /// Creates a new, empty `UnicodeEscapeBuffer`.
    pub fn new() -> (b: Self)
        ensures
            b.wf(),
            b.digits() == Seq::<char>::empty(),
    {
        UnicodeEscapeBuffer { value: 0, len: 0, digits: Ghost(Seq::empty()) }
    }

    /// Clears any accumulated digits.
    pub fn reset(&mut self)
        ensures
            final(self).wf(),
            final(self).digits() == Seq::<char>::empty(),
    {
        self.value = 0;
        self.len = 0;
        self.digits = Ghost(Seq::empty());
    }

    /// The value that the escape would denote if `c` were fed as its fourth
    /// digit; `None` when `c` would not complete the escape.
    pub fn completing_code(&self, c: char) -> (r: Option<u32>)
        requires
            self.wf(),
        ensures
            is_hex_digit(c) && self.digits().len() == 3 ==> r == Some(
                hex_value(self.digits().push(c)) as u32,
            ) && hex_value(self.digits().push(c)) < 0x10000,
            !(is_hex_digit(c) && self.digits().len() == 3) ==> r is None,
    {
        if self.len != 3 {
            return None;
        }
        match hex_digit(c) {
            Some(d) => {
                let ghost new_digits = self.digits@.push(c);
                assert(new_digits.drop_last() =~= self.digits@);
                proof {
                    lemma_hex_value_bound(self.digits@);
                    reveal_with_fuel(pow16, 4);
                }
                Some(self.value * 16 + d)
            },
            None => None,
        }
    }

    /// Feeds one character of a `\u` escape.
    ///
    /// - A non-hexadecimal character is rejected and leaves the buffer as it
    ///   was.
    /// - Otherwise the digit is appended; after the fourth digit the buffer
    ///   resets and the four digits are decoded to `Ok(Some(ch))`.
    /// - Before the fourth digit the result is `Ok(None)`.
    ///
    /// A fourth digit that would complete a code point that is not a Unicode
    /// scalar value (a surrogate) must not be fed: check it with
    /// [`UnicodeEscapeBuffer::completing_code`] first.
    pub fn feed(&mut self, c: char) -> (r: Result<Option<char>, String>)
        requires
            old(self).wf(),
            is_hex_digit(c) && old(self).digits().len() == 3 ==> is_unicode_scalar(
                hex_value(old(self).digits().push(c)),
            ),
        ensures
            final(self).wf(),
            !is_hex_digit(c) ==> {
                &&& r matches Err(msg) && msg@ == invalid_char_message(c)
                &&& final(self).digits() == old(self).digits()
            },
            is_hex_digit(c) && old(self).digits().len() < 3 ==> {
                &&& r == Ok::<Option<char>, String>(None)
                &&& final(self).digits() == old(self).digits().push(c)
            },
            is_hex_digit(c) && old(self).digits().len() == 3 ==> {
                let code = hex_value(old(self).digits().push(c));
                &&& final(self).digits() == Seq::<char>::empty()
                &&& r == Ok::<Option<char>, String>(Some((code as u32) as char))
            },
    {
        let d = match hex_digit(c) {
            Some(d) => d,
            None => {
                let mut msg = String::from_str("Invalid unicode escape character: ");
                proof {
                    reveal_strlit("Invalid unicode escape character: ");
                }
                string_push(&mut msg, c);
                return Err(msg);
            },
        };
        if self.len >= 4 {
            return Err(String::from_str("Unicode escape buffer overflow"));
        }
        let ghost old_digits = self.digits@;
        let ghost new_digits = old_digits.push(c);
        assert(new_digits.drop_last() == old_digits);
        proof {
            lemma_hex_value_bound(old_digits);
            lemma_pow16_small(old_digits.len());
        }
        let code: u32 = self.value * 16 + d;
        assert(code == hex_value(new_digits));
        if self.len == 3 {
            self.reset();
            Ok(Some(char_from_u32_checked(code)))
        } else {
            self.value = code;
            self.len = self.len + 1;
            self.digits = Ghost(new_digits);
            assert forall|i: int| 0 <= i < new_digits.len() implies is_hex_digit(
                #[trigger] new_digits[i],
            ) by {
                if i < old_digits.len() {
                    assert(new_digits[i] == old_digits[i]);
                }
            }
            Ok(None)
        }
    }
}

proof fn lemma_pow16_small(n: nat)
    requires
        n < 4,
    ensures
        pow16(n) <= 0x1000,
{
    reveal_with_fuel(pow16, 4);
}

/// True when every character of `digits` is a hexadecimal digit.
pub open spec fn all_hex_digits(digits: Seq<char>) -> bool {
    forall|i: int| 0 <= i < digits.len() ==> is_hex_digit(#[trigger] digits[i])
}

proof fn lemma_hex_value_bound(digits: Seq<char>)
    requires
        all_hex_digits(digits),
    ensures
        hex_value(digits) < pow16(digits.len()),
    decreases digits.len(),
{
    if digits.len() > 0 {
        let init = digits.drop_last();
        assert forall|i: int| 0 <= i < init.len() implies is_hex_digit(#[trigger] init[i]) by {
            assert(init[i] == digits[i]);
        }
        lemma_hex_value_bound(init);
        assert(is_hex_digit(digits[digits.len() - 1]));
    }
}

/// `16` raised to `n`.
pub open spec fn pow16(n: nat) -> nat
    decreases n,
{
    if n == 0 {
        1
    } else {
        16 * pow16((n - 1) as nat)
    }
}

/// The value of `c` as a hexadecimal digit, if it is one.
pub fn hex_digit(c: char) -> (r: Option<u32>)
    ensures
        r matches Some(d) ==> is_hex_digit(c) && d == hex_digit_value(c),
        r is None ==> !is_hex_digit(c),
{
    if '0' <= c && c <= '9' {
        Some((c as u32) - ('0' as u32))
    } else if 'a' <= c && c <= 'f' {
        Some((c as u32) - ('a' as u32) + 10)
    } else if 'A' <= c && c <= 'F' {
        Some((c as u32) - ('A' as u32) + 10)
    } else {
        None
    }
}

/// The `char` whose scalar value is `v`, if `v` is a Unicode scalar value.
pub fn char_from_scalar(v: u32) -> (r: Option<char>)
    ensures
        r matches Some(ch) ==> is_unicode_scalar(v as nat) && ch == v as char && ch as u32 == v,
        r is None ==> !is_unicode_scalar(v as nat),
{
    if v <= 0x10FFFF && !(0xD800 <= v && v <= 0xDFFF) {
        Some(char_from_u32_checked(v))
    } else {
        None
    }
}

/// `char::from_u32(v).unwrap()` on a value known to be a Unicode scalar
/// value: claims, as the standard library documents, that the result is the
/// character whose code point is `v` (so the call does not panic).
#[verifier::external_body]
fn char_from_u32_checked(v: u32) -> (ch: char)
    requires
        v <= 0x10FFFF && !(0xD800 <= v <= 0xDFFF),
    ensures
        ch == v as char,
        ch as u32 == v,
{
    core::char::from_u32(v).unwrap()
}

} // verus!
