//! Numbers as RFC 8259 writes them, and the agreement of the byte scanner's
//! number skipping with that grammar.
use vstd::prelude::*;
use crate::string_ranges::{ScanError, byte_at_is, digits_end, is_digit_byte, number_scan};

verus! {

/// Whether every byte of `s` is a decimal digit.
pub open spec fn all_digit_bytes(s: Seq<u8>) -> bool {
    forall|k: int| 0 <= k < s.len() ==> is_digit_byte(#[trigger] s[k])
}

/// The sign of a JSON number: nothing or `-`.
pub open spec fn json_minus(s: Seq<u8>) -> bool {
    s.len() == 0 || s == seq![0x2Du8]
}

/// The integer part of a JSON number: `0`, or a digit `1`..`9` followed by
/// digits.
pub open spec fn json_int(s: Seq<u8>) -> bool {
    s == seq![0x30u8] || (s.len() >= 1 && 0x31 <= s[0] <= 0x39 && all_digit_bytes(s))
}

/// The fraction of a JSON number: nothing, or `.` followed by one digit or
/// more.
pub open spec fn json_frac(s: Seq<u8>) -> bool {
    s.len() == 0 || (s.len() >= 2 && s[0] == 0x2E && all_digit_bytes(s.drop_first()))
}

/// The exponent of a JSON number: nothing, or `e` or `E`, an optional `+`
/// or `-`, and one digit or more.
pub open spec fn json_exp(s: Seq<u8>) -> bool {
    ||| s.len() == 0
    ||| s.len() >= 2 && (s[0] == 0x65 || s[0] == 0x45) && all_digit_bytes(s.drop_first())
    ||| s.len() >= 3 && (s[0] == 0x65 || s[0] == 0x45) && (s[1] == 0x2B || s[1] == 0x2D)
        && all_digit_bytes(s.subrange(2, s.len() as int))
}

/// `s` splits at `a`, `c` and `d` into the parts of a JSON number.
pub open spec fn json_number_parts(s: Seq<u8>, a: int, c: int, d: int) -> bool {
    &&& 0 <= a <= c <= d <= s.len()
    &&& json_minus(s.subrange(0, a))
    &&& json_int(s.subrange(a, c))
    &&& json_frac(s.subrange(c, d))
    &&& json_exp(s.subrange(d, s.len() as int))
}

/// Whether `s` is a number as RFC 8259 writes it:
/// `-? (0 | [1-9][0-9]*) (. [0-9]+)? ([eE] [+-]? [0-9]+)?`.
pub open spec fn is_json_number(s: Seq<u8>) -> bool {
    exists|a: int, c: int, d: int| #[trigger] json_number_parts(s, a, c, d)
}

/// Whether position `e` cannot continue a number: the end of the bytes,
/// or a byte other than a digit, `.`, `e` and `E`.
pub open spec fn number_stops_at(b: Seq<u8>, e: int) -> bool {
    e >= b.len() || !(is_digit_byte(b[e]) || b[e] == 0x2E || b[e] == 0x65 || b[e] == 0x45)
}

/// A run of digits from `j` up to a position that holds no digit ends
/// there.
proof fn lemma_digits_end_at(b: Seq<u8>, j: int, e: int)
    requires
        0 <= j <= e <= b.len(),
        forall|k: int| j <= k < e ==> is_digit_byte(#[trigger] b[k]),
        e < b.len() ==> !is_digit_byte(b[e]),
    ensures
        digits_end(b, j) == e,
    decreases e - j,
{
    if j < e {
        lemma_digits_end_at(b, j + 1, e);
    }
}

/// A number written as RFC 8259 writes it is skipped to its end: when the
/// bytes from `i` to `e` are a JSON number and nothing at `e` could
/// continue it, the scan of the number at `i` ends at `e`.
pub proof fn lemma_json_number_scanned(b: Seq<u8>, i: int, e: int)
    requires
        0 <= i <= e <= b.len(),
        is_json_number(b.subrange(i, e)),
        number_stops_at(b, e),
    ensures
        number_scan(b, i) == Ok::<int, ScanError>(e),
{
    let s = b.subrange(i, e);
    let (a, c, d) = choose|a: int, c: int, d: int| #[trigger] json_number_parts(s, a, c, d);
    let ia = i + a;
    let ic = i + c;
    let id = i + d;
    let sm = s.subrange(0, a);
    let si = s.subrange(a, c);
    let sf = s.subrange(c, d);
    let se = s.subrange(d, s.len() as int);
    // The minus sign.
    assert(sm.len() == a);
    assert(seq![0x2Du8].len() == 1);
    if a == 1 {
        assert(sm[0] == b[i]);
        assert(b[i] == 0x2D);
    } else {
        assert(a == 0);
    }
    assert(si.len() >= 1);
    assert(si[0] == b[ia]);
    assert(is_digit_byte(b[ia]));
    if a == 0 {
        assert(b[i] == b[ia]);
    }
    // What follows the integer part: the fraction, the exponent, or the end.
    if sf.len() > 0 {
        assert(sf[0] == b[ic]);
    } else if se.len() > 0 {
        assert(ic == id);
        assert(se[0] == b[id]);
    } else {
        assert(ic == e);
    }
    assert(ic < b.len() ==> !is_digit_byte(b[ic]));
    // The integer part ends at `ic`.
    if si == seq![0x30u8] {
        assert(b[ia] == 0x30);
        assert(ic == ia + 1);
    } else {
        assert(b[ia] != 0x30);
        assert forall|k: int| ia + 1 <= k < ic implies is_digit_byte(#[trigger] b[k]) by {
            assert(si[k - ia] == b[k]);
        }
        lemma_digits_end_at(b, ia + 1, ic);
    }
    // What follows the fraction: the exponent or the end.
    if se.len() > 0 {
        assert(se[0] == b[id]);
    } else {
        assert(id == e);
    }
    assert(id < b.len() ==> !is_digit_byte(b[id]));
    if sf.len() > 0 {
        assert(b[ic] == 0x2E);
        assert forall|k: int| ic + 1 <= k < id implies is_digit_byte(#[trigger] b[k]) by {
            assert(sf.drop_first()[k - ic - 1] == b[k]);
        }
        lemma_digits_end_at(b, ic + 1, id);
    } else {
        assert(ic == id);
        assert(!byte_at_is(b, ic, 0x2E));
    }
    assert((if byte_at_is(b, i, 0x2D) { i + 1 } else { i }) == ia);
    assert((if b[ia] == 0x30 { ia + 1 } else { digits_end(b, ia + 1) }) == ic);
    if sf.len() > 0 {
        assert(byte_at_is(b, ic, 0x2E));
        assert(digits_end(b, ic + 1) == id && id != ic + 1);
    }
    let frac: Result<int, ScanError> = if byte_at_is(b, ic, 0x2E) {
        let dd = digits_end(b, ic + 1);
        if dd == ic + 1 {
            Err(ScanError::FractionWithoutDigits)
        } else {
            Ok(dd)
        }
    } else {
        Ok(ic)
    };
    assert(frac == Ok::<int, ScanError>(id));
    if se.len() > 0 {
        assert(b[id] == 0x65 || b[id] == 0x45);
        if se.len() >= 2 && (se[1] == 0x2B || se[1] == 0x2D) && all_digit_bytes(
            se.subrange(2, se.len() as int),
        ) {
            assert(se[1] == b[id + 1]);
            assert(!all_digit_bytes(se.drop_first())) by {
                assert(se.drop_first()[0] == se[1]);
            }
            assert(se.len() >= 3);
            assert forall|k: int| id + 2 <= k < e implies is_digit_byte(#[trigger] b[k]) by {
                assert(se.subrange(2, se.len() as int)[k - id - 2] == b[k]);
            }
            lemma_digits_end_at(b, id + 2, e);
            assert(byte_at_is(b, id + 1, 0x2B) || byte_at_is(b, id + 1, 0x2D));
            assert(e != id + 2);
        } else {
            assert(all_digit_bytes(se.drop_first()));
            assert(se.drop_first()[0] == b[id + 1]);
            assert(is_digit_byte(b[id + 1]));
            assert forall|k: int| id + 1 <= k < e implies is_digit_byte(#[trigger] b[k]) by {
                assert(se.drop_first()[k - id - 1] == b[k]);
            }
            lemma_digits_end_at(b, id + 1, e);
            assert(!(byte_at_is(b, id + 1, 0x2B) || byte_at_is(b, id + 1, 0x2D)));
            assert(e != id + 1);
        }
    } else {
        assert(id == e);
        assert(!byte_at_is(b, id, 0x65) && !byte_at_is(b, id, 0x45));
    }
}

/// A result that ends every number written as RFC 8259 writes it at `index`
/// at the number's end: for each `e` such that the bytes from `index` to
/// `e` are a JSON number and nothing at `e` could continue it, the result is
/// `Ok(e)`.
#[verifier::opaque]
pub open spec fn skips_json_numbers(b: Seq<u8>, index: int, r: Result<usize, ScanError>) -> bool {
    forall|e: int|
        index <= e <= b.len() && #[trigger] is_json_number(b.subrange(index, e))
            && number_stops_at(b, e) ==> r == Ok::<usize, ScanError>(e as usize)
}

/// A result that agrees with the scan of the number at `index` skips every
/// JSON number there to its end.
pub proof fn lemma_scan_skips_json_numbers(b: Seq<u8>, index: int, r: Result<usize, ScanError>)
    requires
        0 <= index,
        match number_scan(b, index) {
            Ok(e) => r == Ok::<usize, ScanError>(e as usize),
            Err(e) => r == Err::<usize, ScanError>(e),
        },
    ensures
        skips_json_numbers(b, index, r),
{
    reveal(skips_json_numbers);
    assert forall|e: int|
        index <= e <= b.len() && #[trigger] is_json_number(b.subrange(index, e))
            && number_stops_at(b, e) implies r == Ok::<usize, ScanError>(e as usize) by {
        lemma_json_number_scanned(b, index, e);
    }
}

} // verus!
