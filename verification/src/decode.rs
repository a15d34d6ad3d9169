//! Decoding of raw string bytes into text, for the immutable-value
//! backend: surrogate code points encoded as three bytes are replaced by
//! U+FFFD before lossy UTF-8 decoding.
use vstd::prelude::*;
use vstd::utf8::*;

verus! {

/// Modes controlling how raw string fragments are decoded.
#[derive(Debug, Clone, Copy, PartialEq, Eq, Structural)]
pub enum RustDecodeMode {
    /// Decode as UTF-8, each invalid sequence becoming U+FFFD.
    StrictUnicode,
    /// First replace encoded surrogates (`ED A0..BF xx`) by U+FFFD.
    ReplaceInvalid,
}

/// What `String::from_utf8_lossy` returns for `bytes`.
pub uninterp spec fn utf8_lossy(bytes: Seq<u8>) -> Seq<char>;

/// `String::from_utf8_lossy(bytes).into_owned()`.
///
/// Claims that the result is named by `utf8_lossy` of the bytes, and, as
/// the standard library documents, that well-formed UTF-8 is decoded
/// unchanged. How invalid sequences are replaced is left to the name.
#[verifier::external_body]
pub(crate) fn decode_utf8_lossy(bytes: &[u8]) -> (r: String)
    ensures
        r@ == utf8_lossy(bytes@),
        valid_utf8(bytes@) ==> r@ == decode_utf8(bytes@),
{
    String::from_utf8_lossy(bytes).into_owned()
}

/// Whether `b` begins with the three-byte encoding of a surrogate code
/// point: `ED`, a byte in `A0..=BF`, a continuation byte.
pub open spec fn starts_with_surrogate(b: Seq<u8>) -> bool {
    &&& b.len() >= 3
    &&& b[0] == 0xED
    &&& 0xA0 <= b[1] <= 0xBF
    &&& 0x80 <= b[2] <= 0xBF
}

/// `b` with every three-byte surrogate encoding (read left to right)
/// replaced by the encoding of U+FFFD, `EF BF BD`.
pub open spec fn replace_surrogates(b: Seq<u8>) -> Seq<u8>
    decreases b.len(),
{
    if b.len() == 0 {
        Seq::empty()
    } else if starts_with_surrogate(b) {
        seq![0xEFu8, 0xBFu8, 0xBDu8] + replace_surrogates(b.skip(3))
    } else {
        seq![b[0]] + replace_surrogates(b.skip(1))
    }
}

/// A three-byte surrogate encoding decodes to a surrogate code point.
proof fn lemma_surrogate_bytes(b0: u8, b1: u8, b2: u8)
    requires
        b0 == 0xED,
        0xA0 <= b1 <= 0xBF,
        0x80 <= b2 <= 0xBF,
    ensures
        !not_surrogate(codepoint_width_3(b0, b1, b2)),
{
    assert(0xD800 <= (((b0 & 0x0F) as u32) << 12) | (((b1 & 0x3f) as u32) << 6) | ((b2
        & 0x3f) as u32) <= 0xDFFF) by (bit_vector)
        requires
            b0 == 0xED,
            0xA0 <= b1 <= 0xBF,
            0x80 <= b2 <= 0xBF,
    ;
}

/// With no surrogate encoding starting in the first `k` positions, the
/// replacement keeps those `k` bytes.
proof fn lemma_replace_keeps_prefix(b: Seq<u8>, k: int)
    requires
        0 <= k <= b.len(),
        forall|j: int| 0 <= j < k ==> !starts_with_surrogate(#[trigger] b.skip(j)),
    ensures
        replace_surrogates(b) == b.take(k) + replace_surrogates(b.skip(k)),
    decreases k,
{
    if k == 0 {
        assert(b.skip(0) =~= b);
        assert(b.take(0) + replace_surrogates(b) =~= replace_surrogates(b));
    } else {
        lemma_replace_keeps_prefix(b, k - 1);
        let t = b.skip(k - 1);
        assert(!starts_with_surrogate(t));
        assert(t.skip(1) =~= b.skip(k));
        assert(t[0] == b[k - 1]);
        assert(b.take(k - 1) + seq![b[k - 1]] =~= b.take(k));
    }
}

/// Well-formed UTF-8 holds no surrogate encoding, so the replacement leaves
/// it unchanged.
pub proof fn lemma_replace_surrogates_valid(b: Seq<u8>)
    requires
        valid_utf8(b),
    ensures
        replace_surrogates(b) == b,
    decreases b.len(),
{
    if b.len() == 0 {
        assert(replace_surrogates(b) =~= b);
    } else {
        let n = length_of_first_scalar(b);
        let rest = pop_first_scalar(b);
        assert(rest.len() < b.len());
        lemma_replace_surrogates_valid(rest);
        assert forall|j: int| 0 <= j < n implies !starts_with_surrogate(#[trigger] b.skip(j)) by {
            if j == 0 {
                assert(b.skip(0) =~= b);
                if starts_with_surrogate(b) {
                    lemma_surrogate_bytes(b[0], b[1], b[2]);
                }
            } else {
                assert(b.skip(j)[0] == b[j]);
                assert(is_continuation_byte(b[j]));
            }
        }
        lemma_replace_keeps_prefix(b, n);
        assert(b.skip(n) =~= rest);
        assert(b.take(n) + rest =~= b);
    }
}

/// The three bytes that UTF-8's encoding scheme gives a code point in
/// `0x800..=0xFFFF`: `1110xxxx 10xxxxxx 10xxxxxx`.
pub open spec fn three_byte_encoding(c: u32) -> Seq<u8> {
    seq![(0xE0u32 | (c >> 12u32)) as u8, (0x80u32 | ((c >> 6u32) & 0x3Fu32)) as u8, (0x80u32 | (c
        & 0x3Fu32)) as u8]
}

/// The encoding of U+FFFD.
pub open spec fn replacement_bytes() -> Seq<u8> {
    seq![0xEFu8, 0xBFu8, 0xBDu8]
}

/// Each encoded surrogate code point (`U+D800..=U+DFFF`) becomes exactly
/// one U+FFFD, and the bytes after it are treated as if it were not there.
pub proof fn lemma_encoded_surrogate_replaced(c: u32, rest: Seq<u8>)
    requires
        0xD800 <= c <= 0xDFFF,
    ensures
        replace_surrogates(three_byte_encoding(c) + rest) == replacement_bytes()
            + replace_surrogates(rest),
        replace_surrogates(three_byte_encoding(c)) == replacement_bytes(),
{
    let b0 = (0xE0u32 | (c >> 12u32)) as u8;
    let b1 = (0x80u32 | ((c >> 6u32) & 0x3Fu32)) as u8;
    let b2 = (0x80u32 | (c & 0x3Fu32)) as u8;
    assert(b0 == 0xED && 0xA0 <= b1 <= 0xBF && 0x80 <= b2 <= 0xBF) by (bit_vector)
        requires
            0xD800 <= c <= 0xDFFF,
            b0 == (0xE0u32 | (c >> 12u32)) as u8,
            b1 == (0x80u32 | ((c >> 6u32) & 0x3Fu32)) as u8,
            b2 == (0x80u32 | (c & 0x3Fu32)) as u8,
    ;
    let e = three_byte_encoding(c);
    let b = e + rest;
    assert(starts_with_surrogate(b));
    assert(b.skip(3) =~= rest);
    assert(starts_with_surrogate(e));
    assert(e.skip(3) =~= Seq::<u8>::empty());
    assert(replace_surrogates(Seq::<u8>::empty()) =~= Seq::<u8>::empty());
    assert(replacement_bytes() + Seq::<u8>::empty() =~= replacement_bytes());
}

/// Replaces every three-byte surrogate encoding by `EF BF BD`.
pub fn normalize_surrogates(bytes: &[u8]) -> (r: Vec<u8>)
    ensures
        r@ == replace_surrogates(bytes@),
{
    let mut norm: Vec<u8> = Vec::new();
    let mut i: usize = 0;
    let n = bytes.len();
    assert(bytes@.skip(0) =~= bytes@);
    assert(norm@ + replace_surrogates(bytes@) =~= replace_surrogates(bytes@));
    while i < n
        invariant
            n == bytes@.len(),
            i <= n,
            norm@ + replace_surrogates(bytes@.skip(i as int)) == replace_surrogates(bytes@),
        decreases n - i,
    {
        let ghost rest = bytes@.skip(i as int);
        if n - i > 2 && bytes[i] == 0xED && bytes[i + 1] >= 0xA0 && bytes[i + 1] <= 0xBF
            && bytes[i + 2] >= 0x80 && bytes[i + 2] <= 0xBF {
            assert(starts_with_surrogate(rest));
            assert(rest.skip(3) =~= bytes@.skip(i + 3));
            norm.push(0xEF);
            norm.push(0xBF);
            norm.push(0xBD);
            i = i + 3;
            assert(norm@ + replace_surrogates(bytes@.skip(i as int)) =~= replace_surrogates(
                bytes@,
            ));
        } else {
            assert(!starts_with_surrogate(rest));
            assert(rest.skip(1) =~= bytes@.skip(i + 1));
            assert(rest[0] == bytes@[i as int]);
            norm.push(bytes[i]);
            i = i + 1;
            assert(norm@ + replace_surrogates(bytes@.skip(i as int)) =~= replace_surrogates(
                bytes@,
            ));
        }
    }
    assert(bytes@.skip(n as int) =~= Seq::<u8>::empty());
    assert(norm@ + Seq::<u8>::empty() =~= norm@);
    norm
}

/// Backend that decodes raw string fragments according to a
/// [`RustDecodeMode`].
#[derive(Debug, PartialEq, Clone)]
pub struct ImBackend {
    decode_mode: RustDecodeMode,
}

/// The text a raw fragment decodes to under a mode.
pub open spec fn decoded_text(mode: RustDecodeMode, bytes: Seq<u8>) -> Seq<char> {
    match mode {
        RustDecodeMode::StrictUnicode => utf8_lossy(bytes),
        RustDecodeMode::ReplaceInvalid => utf8_lossy(replace_surrogates(bytes)),
    }
}

impl ImBackend {
    /// The decode mode.
    pub closed spec fn mode(&self) -> RustDecodeMode {
        self.decode_mode
    }

    /// A backend that replaces invalid sequences when decoding.
    pub fn new() -> (r: Self)
        ensures
            r.mode() == RustDecodeMode::ReplaceInvalid,
    {
        ImBackend { decode_mode: RustDecodeMode::ReplaceInvalid }
    }

    /// The backend with its decode mode replaced.
    pub fn with_decode_mode(self, decode_mode: RustDecodeMode) -> (r: Self)
        ensures
            r.mode() == decode_mode,
    {
        let mut b = self;
        b.decode_mode = decode_mode;
        b
    }

    /// The active decode mode.
    pub fn decode_mode(&self) -> (r: RustDecodeMode)
        ensures
            r == self.mode(),
    {
        self.decode_mode
    }

    /// Decodes a raw string fragment. In `StrictUnicode` mode the bytes are
    /// decoded as UTF-8 (well-formed input unchanged, invalid sequences
    /// replaced); in `ReplaceInvalid` mode encoded surrogates are first
    /// replaced by U+FFFD.
    pub fn new_str_raw_owned(&self, bytes: Vec<u8>) -> (r: String)
        ensures
            r@ == decoded_text(self.mode(), bytes@),
            valid_utf8(bytes@) ==> r@ == decode_utf8(bytes@),
            self.mode() == RustDecodeMode::ReplaceInvalid && valid_utf8(replace_surrogates(bytes@))
                ==> r@ == decode_utf8(replace_surrogates(bytes@)),
    {
        proof {
            if valid_utf8(bytes@) {
                lemma_replace_surrogates_valid(bytes@);
            }
        }
        match self.decode_mode {
            RustDecodeMode::StrictUnicode => decode_utf8_lossy(bytes.as_slice()),
            RustDecodeMode::ReplaceInvalid => {
                let norm = normalize_surrogates(bytes.as_slice());
                decode_utf8_lossy(norm.as_slice())
            },
        }
    }
}

impl Default for ImBackend {
    fn default() -> (r: Self)
        ensures
            r.mode() == RustDecodeMode::ReplaceInvalid,
    {
        Self::new()
    }
}

} // verus!
