//! UTF-8 helpers: decoding the first scalar of a byte sequence (through
//! `bstr`) and encoding scalars back into bytes.
use vstd::prelude::*;
use vstd::utf8::*;

verus! {

/// What `bstr::decode_utf8` returns for `bytes`: the decoded scalar (if the
/// bytes begin with a well-formed encoding) and the number of bytes it
/// consumed.
pub uninterp spec fn bstr_decode_utf8(bytes: Seq<u8>) -> (Option<char>, usize);

/// Whether `b` is a UTF-8 continuation byte.
pub open spec fn is_cont(b: u8) -> bool {
    0x80 <= b <= 0xBF
}

/// Whether `p` (one to four bytes) begins some well-formed UTF-8 encoding of
/// a scalar: the lead byte fixes the length and the range of the second
/// byte, as in the table of well-formed byte sequences of the Unicode
/// standard; the other bytes are continuation bytes.
pub open spec fn begins_well_formed(p: Seq<u8>) -> bool {
    let n = p.len();
    let b0 = p[0];
    let second_in = |lo: u8, hi: u8| n < 2 || (lo <= p[1] <= hi);
    let rest_cont = n < 3 || (is_cont(p[2]) && (n < 4 || is_cont(p[3])));
    &&& 1 <= n <= 4
    &&& {
        ||| b0 <= 0x7F && n == 1
        ||| 0xC2 <= b0 <= 0xDF && n <= 2 && second_in(0x80, 0xBF)
        ||| b0 == 0xE0 && n <= 3 && second_in(0xA0, 0xBF) && rest_cont
        ||| (0xE1 <= b0 <= 0xEC || 0xEE <= b0 <= 0xEF) && n <= 3 && second_in(0x80, 0xBF)
            && rest_cont
        ||| b0 == 0xED && n <= 3 && second_in(0x80, 0x9F) && rest_cont
        ||| b0 == 0xF0 && second_in(0x90, 0xBF) && rest_cont
        ||| 0xF1 <= b0 <= 0xF3 && second_in(0x80, 0xBF) && rest_cont
        ||| b0 == 0xF4 && second_in(0x80, 0x8F) && rest_cont
    }
}

/// The length of the longest prefix of `bytes` (at most three bytes) that
/// begins a well-formed encoding; `0` when no byte does.
pub open spec fn maximal_prefix_len(bytes: Seq<u8>) -> nat {
    if bytes.len() >= 3 && begins_well_formed(bytes.take(3)) {
        3
    } else if bytes.len() >= 2 && begins_well_formed(bytes.take(2)) {
        2
    } else if bytes.len() >= 1 && begins_well_formed(bytes.take(1)) {
        1
    } else {
        0
    }
}

/// `bstr::decode_utf8` on `bytes`.
///
/// Claims, as the crate documents and its DFA implements: an empty slice gives
/// `(None, 0)`; a slice that begins with a well-formed UTF-8 encoding of a
/// scalar gives that scalar and its encoded length; otherwise `None` with the
/// length of the maximal prefix of a valid code unit sequence, or 1 when no
/// such prefix begins the slice.
#[verifier::external_body]
pub(crate) fn decode_utf8_prefix(bytes: &[u8]) -> (r: (Option<char>, usize))
    ensures
        r == bstr_decode_utf8(bytes@),
        r.1 <= bytes@.len(),
        r.1 == 0 <==> bytes@.len() == 0,
        r.0 is Some <==> valid_first_scalar(bytes@),
        valid_first_scalar(bytes@) ==> r.0 == Some(decode_first_scalar(bytes@) as char) && r.1
            == length_of_first_scalar(bytes@),
        r.0 is None ==> r.1 <= 3,
        r.0 is None && bytes@.len() > 0 ==> r.1 == if maximal_prefix_len(bytes@) == 0 {
            1
        } else {
            maximal_prefix_len(bytes@)
        },
{
    bstr::decode_utf8(bytes)
}

/// Appends the UTF-8 encoding of `ch` to `buf`.
pub fn push_char_utf8(buf: &mut Vec<u8>, ch: char)
    ensures
        final(buf)@ == old(buf)@ + encode_scalar(ch as u32),
{
    let code = ch as u32;
    proof {
        char_is_scalar(ch);
    }
    if code <= 0x7F {
        buf.push((code & 0x7F) as u8);
    } else if code <= 0x7FF {
        buf.push(0xC0 | ((code >> 6) & 0x1F) as u8);
        buf.push(0x80 | (code & 0x3F) as u8);
    } else if code <= 0xFFFF {
        buf.push(0xE0 | ((code >> 12) & 0x0F) as u8);
        buf.push(0x80 | ((code >> 6) & 0x3F) as u8);
        buf.push(0x80 | (code & 0x3F) as u8);
    } else {
        buf.push(0xF0 | ((code >> 18) & 0x7) as u8);
        buf.push(0x80 | ((code >> 12) & 0x3F) as u8);
        buf.push(0x80 | ((code >> 6) & 0x3F) as u8);
        buf.push(0x80 | (code & 0x3F) as u8);
    }
}

/// Encoding a sequence with one more character appends that character's
/// encoding.
pub proof fn lemma_encode_utf8_push(chars: Seq<char>, c: char)
    ensures
        encode_utf8(chars.push(c)) == encode_utf8(chars) + encode_scalar(c as u32),
    decreases chars.len(),
{
    if chars.len() == 0 {
        assert(chars.push(c).drop_first() =~= Seq::<char>::empty());
        assert(encode_utf8(Seq::<char>::empty()) =~= Seq::<u8>::empty());
        assert(encode_utf8(chars.push(c)) =~= encode_scalar(c as u32));
        assert(encode_utf8(chars) =~= Seq::<u8>::empty());
    } else {
        lemma_encode_utf8_push(chars.drop_first(), c);
        assert(chars.push(c).drop_first() =~= chars.drop_first().push(c));
        assert(chars.push(c)[0] == chars[0]);
    }
}

/// Encoding a concatenation concatenates the encodings.
pub proof fn lemma_encode_utf8_concat(a: Seq<char>, b: Seq<char>)
    ensures
        encode_utf8(a + b) == encode_utf8(a) + encode_utf8(b),
    decreases a.len(),
{
    if a.len() == 0 {
        assert(a + b =~= b);
        assert(encode_utf8(a) =~= Seq::<u8>::empty());
        assert(encode_utf8(a) + encode_utf8(b) =~= encode_utf8(b));
    } else {
        lemma_encode_utf8_concat(a.drop_first(), b);
        assert((a + b).drop_first() =~= a.drop_first() + b);
        assert((a + b)[0] == a[0]);
        assert(encode_utf8(a + b) =~= encode_scalar(a[0] as u32) + encode_utf8(a.drop_first() + b));
    }
}

} // verus!
