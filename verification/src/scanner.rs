//! Scanner: per-feed owner for unread input and token state.
//!
//! The scanner reads from the unread input ring (UTF-8 bytes left over from
//! earlier feeds) and then from the current batch (`&'src str`), maintaining
//! `pos/line/col`. The first token-affecting action anchors the start of a
//! token; as long as the token is read from the batch and nothing forces a
//! copy, its content can be returned as a borrowed slice of the batch.
//! Transforms (pushing decoded characters, switching to raw bytes) switch
//! the token to owned accumulation, copying the already-read batch prefix
//! exactly once. Gaps (skipping a character inside a token) switch it to
//! owned accumulation without that copy: the caller captures selectively
//! what joins the token from then on.
//!
//! The content of the current token ([`Scanner::token_bytes`]) is the same
//! whether it is borrowable or owned: switching modes with a copy never
//! changes it, consuming a character appends its UTF-8 encoding, and
//! emitting returns exactly it.
//!
//! `finish` writes the state back for the next feed: the unread batch tail is
//! appended to the ring and an un-emitted borrowable prefix is copied into the
//! scratch.
use vstd::prelude::*;
use vstd::utf8::*;
use vstd::string::*;
use std::collections::VecDeque;
use crate::utf8::{bstr_decode_utf8, decode_utf8_prefix, push_char_utf8, lemma_encode_utf8_push, lemma_encode_utf8_concat};
use crate::text::string_push;

verus! {

broadcast use vstd::utf8::encode_utf8_valid_utf8;

/// Where the next character comes from.
#[derive(Debug, Clone, Copy, PartialEq, Eq, Structural)]
pub enum Source {
    Ring,
    Batch,
}

/// A token payload: borrowed from the batch, owned text, or raw bytes.
#[derive(Debug, Clone, PartialEq, Eq)]
pub enum Capture<'src> {
    Borrowed(&'src str),
    Owned(String),
    /// Raw bytes for a token fragment (e.g., surrogate-preserving output).
    Raw(Vec<u8>),
}

impl<'src> Capture<'src> {
    /// The UTF-8 bytes (or raw bytes) carried by the capture.
    pub open spec fn bytes(&self) -> Seq<u8> {
        match self {
            Capture::Borrowed(s) => s.spec_bytes(),
            Capture::Owned(s) => encode_utf8(s@),
            Capture::Raw(b) => b@,
        }
    }
}

/// The buffer used to build the current capture: UTF-8 text or raw bytes.
#[derive(Debug, Clone, PartialEq, Eq)]
pub enum CaptureBuf {
    Text(String),
    Raw(Vec<u8>),
}

impl CaptureBuf {
    /// The bytes held by the buffer (text is taken by its UTF-8 encoding).
    pub open spec fn bytes(&self) -> Seq<u8> {
        match self {
            CaptureBuf::Text(s) => encode_utf8(s@),
            CaptureBuf::Raw(b) => b@,
        }
    }

    /// True when the buffer accumulates raw bytes.
    pub open spec fn is_raw(&self) -> bool {
        self is Raw
    }

    /// An empty text buffer.
    pub fn new() -> (r: Self)
        ensures
            r matches CaptureBuf::Text(t) && t@ == Seq::<char>::empty(),
            !r.is_raw() && r.bytes() == Seq::<u8>::empty(),
    {
        let r = CaptureBuf::Text(String::new());
        proof {
            lemma_encode_empty();
        }
        r
    }

    /// True when the buffer holds nothing.
    pub fn is_empty(&self) -> (r: bool)
        ensures
            r == (self.bytes().len() == 0),
    {
        match self {
            CaptureBuf::Text(s) => {
                proof {
                    lemma_encode_len_zero(s@);
                }
                s.as_str().is_empty()
            },
            CaptureBuf::Raw(b) => b.len() == 0,
        }
    }

    /// Empties the buffer, keeping its mode.
    pub fn clear(&mut self)
        ensures
            final(self).is_raw() == old(self).is_raw(),
            final(self).bytes() == Seq::<u8>::empty(),
            !final(self).is_raw() ==> (*final(self) matches CaptureBuf::Text(t) && t@ == Seq::<char>::empty()),
    {
        proof {
            lemma_encode_empty();
        }
        match self {
            CaptureBuf::Text(s) => {
                *s = String::new();
            },
            CaptureBuf::Raw(b) => {
                b.clear();
            },
        }
    }

    /// Appends one character (its UTF-8 encoding in raw mode).
    pub fn push_char(&mut self, ch: char)
        ensures
            final(self).is_raw() == old(self).is_raw(),
            final(self).bytes() == old(self).bytes() + encode_scalar(ch as u32),
            *old(self) matches CaptureBuf::Text(s) ==> (*final(self) matches CaptureBuf::Text(t)
                && t@ == s@.push(ch)),
    {
        match self {
            CaptureBuf::Text(s) => {
                proof {
                    lemma_encode_utf8_push(s@, ch);
                }
                string_push(s, ch);
            },
            CaptureBuf::Raw(b) => {
                push_char_utf8(b, ch);
            },
        }
    }

    /// Appends UTF-8 text (its bytes in raw mode).
    pub fn push_str(&mut self, text: &str)
        ensures
            final(self).is_raw() == old(self).is_raw(),
            final(self).bytes() == old(self).bytes() + text.spec_bytes(),
    {
        match self {
            CaptureBuf::Text(s) => {
                proof {
                    lemma_encode_utf8_concat(s@, text@);
                }
                s.append(text);
            },
            CaptureBuf::Raw(b) => {
                b.extend_from_slice(text.as_bytes());
            },
        }
    }

    /// Appends bytes that are known to be valid UTF-8 (as text in text mode).
    fn push_utf8_slice(&mut self, batch: &str, start: usize, end: usize)
        requires
            start <= end <= batch.spec_bytes().len(),
            is_char_boundary(batch.spec_bytes(), start as int),
            is_char_boundary(batch.spec_bytes(), end as int),
        ensures
            final(self).is_raw() == old(self).is_raw(),
            final(self).bytes() == old(self).bytes() + batch.spec_bytes().subrange(
                start as int,
                end as int,
            ),
    {
        let piece = str_slice(batch, start, end);
        self.push_str(piece);
    }

    /// Returns the text buffer for appending.
    pub fn as_text_mut(&mut self) -> (r: &mut String)
        requires
            !old(self).is_raw(),
        ensures
            *old(self) == CaptureBuf::Text(*r),
            *final(self) == CaptureBuf::Text(*final(r)),
    {
        match self {
            CaptureBuf::Text(s) => s,
            CaptureBuf::Raw(_) => {
                vstd::pervasive::unreached()
            },
        }
    }

    /// Switches the buffer to raw bytes (keeping its content) and returns it.
    pub fn as_raw_mut(&mut self) -> (r: &mut Vec<u8>)
        ensures
            r@ == old(self).bytes(),
            *final(self) == CaptureBuf::Raw(*final(r)),
    {
        if let CaptureBuf::Text(s) = self {
            let mut out: Vec<u8> = Vec::new();
            out.extend_from_slice(s.as_str().as_bytes());
            *self = CaptureBuf::Raw(out);
        }
        match self {
            CaptureBuf::Raw(b) => b,
            CaptureBuf::Text(_) => {
                vstd::pervasive::unreached()
            },
        }
    }
}

/// Line after reading `ch` on line `line`.
pub open spec fn next_line(line: int, ch: char) -> int {
    if ch == '\n' {
        line + 1
    } else {
        line
    }
}

/// Column after reading `ch` at column `col`.
pub open spec fn next_col(col: int, ch: char) -> int {
    if ch == '\n' {
        1
    } else {
        col + 1
    }
}

/// The state that describes how the current capture can be returned.
///
/// As long as `owned == false` (which implies `source == Source::Batch` and
/// `raw == false`), the scanner can return a borrowed slice of the batch
/// starting at `start_byte_in_batch`.
#[derive(Debug, Clone, Copy, PartialEq, Eq, Structural)]
pub struct CaptureState {
    pub source: Source,
    pub start_char: usize,
    pub start_byte_in_batch: Option<usize>,
    pub owned: bool,
    pub raw: bool,
}

/// State persisted across feeds: the unread UTF-8 ring, the global position
/// counters and the token scratch.
#[derive(Debug)]
pub struct ScannerState {
    pending: VecDeque<u8>,
    char_idx: usize,
    line: usize,
    col: usize,
    scratch: CaptureBuf,
}

impl ScannerState {
    /// Unread bytes carried over from earlier feeds.
    pub closed spec fn ring(&self) -> Seq<u8> {
        self.pending@
    }

    /// Number of characters read so far.
    pub closed spec fn char_idx(&self) -> usize {
        self.char_idx
    }

    /// Current line (1-based).
    pub closed spec fn line(&self) -> usize {
        self.line
    }

    /// Current column (1-based).
    pub closed spec fn col(&self) -> usize {
        self.col
    }

    /// The token scratch carried over.
    pub closed spec fn scratch(&self) -> CaptureBuf {
        self.scratch
    }

    /// Position counters are consistent and every unread byte can still be
    /// counted without overflowing a `usize`.
    pub open spec fn wf(&self) -> bool {
        &&& self.line() <= self.char_idx() + 1
        &&& self.col() <= self.char_idx() + 1
        &&& self.char_idx() + self.ring().len() < usize::MAX
    }

    /// Appends bytes to the unread ring.
    pub fn push_ring_bytes(&mut self, bytes: &[u8])
        requires
            old(self).char_idx() + old(self).ring().len() + bytes@.len() < usize::MAX,
        ensures
            final(self).ring() == old(self).ring() + bytes@,
            final(self).char_idx() == old(self).char_idx(),
            final(self).line() == old(self).line(),
            final(self).col() == old(self).col(),
            final(self).scratch() == old(self).scratch(),
    {
        let ghost start = self.pending@;
        let mut i: usize = 0;
        while i < bytes.len()
            invariant
                i <= bytes@.len(),
                self.pending@ == start + bytes@.subrange(0, i as int),
                self.char_idx == old(self).char_idx,
                self.line == old(self).line,
                self.col == old(self).col,
                self.scratch == old(self).scratch,
            decreases bytes@.len() - i,
        {
            self.pending.push_back(bytes[i]);
            i = i + 1;
            assert(bytes@.subrange(0, i as int) =~= bytes@.subrange(0, (i - 1) as int).push(bytes@[i - 1]));
        }
        assert(bytes@.subrange(0, i as int) =~= bytes@);
    }

    /// Appends UTF-8 text to the token scratch (text or raw bytes).
    pub fn append_scratch_text(&mut self, s: &str)
        ensures
            final(self).scratch().bytes() == old(self).scratch().bytes() + s.spec_bytes(),
            final(self).scratch().is_raw() == old(self).scratch().is_raw(),
            final(self).ring() == old(self).ring(),
            final(self).char_idx() == old(self).char_idx(),
            final(self).line() == old(self).line(),
            final(self).col() == old(self).col(),
    {
        self.scratch.push_str(s);
    }

    /// Updates position counters.
    pub fn set_positions(&mut self, pos_char: usize, line: usize, col: usize)
        ensures
            final(self).char_idx() == pos_char,
            final(self).line() == line,
            final(self).col() == col,
            final(self).ring() == old(self).ring(),
            final(self).scratch() == old(self).scratch(),
    {
        self.char_idx = pos_char;
        self.line = line;
        self.col = col;
    }

    /// The unread ring bytes.
    pub fn debug_ring_bytes(&self) -> (r: Vec<u8>)
        ensures
            r@ == self.ring(),
    {
        let mut out: Vec<u8> = Vec::new();
        let mut i: usize = 0;
        while i < self.pending.len()
            invariant
                i <= self.pending@.len(),
                out@ == self.pending@.subrange(0, i as int),
            decreases self.pending@.len() - i,
        {
            out.push(self.pending[i]);
            i = i + 1;
            assert(out@ =~= self.pending@.subrange(0, i as int));
        }
        assert(out@ =~= self.pending@);
        out
    }

    /// The scratch bytes (text taken by its UTF-8 encoding).
    pub fn debug_scratch_bytes(&self) -> (r: Vec<u8>)
        ensures
            r@ == self.scratch().bytes(),
    {
        match &self.scratch {
            CaptureBuf::Text(s) => {
                let mut out: Vec<u8> = Vec::new();
                out.extend_from_slice(s.as_str().as_bytes());
                out
            },
            CaptureBuf::Raw(b) => {
                let mut out: Vec<u8> = Vec::new();
                out.extend_from_slice(b.as_slice());
                out
            },
        }
    }

    /// The unread ring bytes.
    pub fn test_ring_bytes(&self) -> (r: Vec<u8>)
        ensures
            r@ == self.ring(),
    {
        self.debug_ring_bytes()
    }

    /// The scratch text, when the scratch is in text mode.
    pub fn test_scratch_text(&self) -> (r: Option<&str>)
        ensures
            match self.scratch() {
                CaptureBuf::Text(s) => r matches Some(t) && t@ == s@,
                CaptureBuf::Raw(_) => r is None,
            },
    {
        match &self.scratch {
            CaptureBuf::Text(s) => Some(s.as_str()),
            CaptureBuf::Raw(_) => None,
        }
    }

    /// The scratch bytes, when the scratch is in raw mode.
    pub fn test_scratch_raw(&self) -> (r: Option<&[u8]>)
        ensures
            match self.scratch() {
                CaptureBuf::Raw(b) => r matches Some(t) && t@ == b@,
                CaptureBuf::Text(_) => r is None,
            },
    {
        match &self.scratch {
            CaptureBuf::Raw(b) => Some(b.as_slice()),
            CaptureBuf::Text(_) => None,
        }
    }

    /// `(char index, line, column)`.
    pub fn test_positions(&self) -> (r: (usize, usize, usize))
        ensures
            r == (self.char_idx(), self.line(), self.col()),
    {
        (self.char_idx, self.line, self.col)
    }
}

impl Default for ScannerState {
    /// An empty ring at the start of the input (character 0, line 1,
    /// column 1) with an empty text scratch.
    fn default() -> (r: Self)
        ensures
            r.ring() == Seq::<u8>::empty(),
            r.char_idx() == 0,
            r.line() == 1,
            r.col() == 1,
            r.scratch() matches CaptureBuf::Text(t) && t@ == Seq::<char>::empty(),
            r.wf(),
    {
        ScannerState {
            pending: VecDeque::new(),
            char_idx: 0,
            line: 1,
            col: 1,
            scratch: CaptureBuf::new(),
        }
    }
}

/// One decoded UTF-8 scalar, its byte length, and the source it came from.
#[derive(Debug, Clone, Copy, PartialEq, Eq, Structural)]
pub struct CharInfo {
    pub ch: char,
    /// Number of input bytes the character was decoded from (1-4).
    pub ch_len: u8,
    pub source: Source,
}

/// The first (at most) four bytes of `bytes`: enough to decode one scalar.
pub open spec fn window(bytes: Seq<u8>) -> Seq<u8> {
    if bytes.len() <= 4 {
        bytes
    } else {
        bytes.subrange(0, 4)
    }
}

/// The character at the front of `bytes` as the scanner decodes it: the
/// scalar `bstr` decodes, or U+FFFD over an invalid sequence; `None` when
/// `bytes` is empty.
pub open spec fn decode_unit(bytes: Seq<u8>, source: Source) -> Option<CharInfo> {
    let r = bstr_decode_utf8(window(bytes));
    if r.1 == 0 {
        None
    } else {
        Some(
            CharInfo {
                ch: match r.0 {
                    Some(c) => c,
                    None => '\u{FFFD}',
                },
                ch_len: r.1 as u8,
                source,
            },
        )
    }
}

/// The anchor a token gets when it starts in state `s`: it starts at the
/// current position and can stay borrowable only when it starts in the batch
/// with nothing carried in the scratch.
pub open spec fn fresh_anchor(s: Scanner) -> CaptureState {
    CaptureState {
        source: s.source_spec(),
        start_char: s.char_idx(),
        start_byte_in_batch: if s.ring().len() == 0 {
            Some(s.byte_idx())
        } else {
            None
        },
        owned: s.ring().len() != 0 || s.scratch().bytes().len() != 0 || s.scratch().is_raw(),
        raw: s.scratch().is_raw(),
    }
}

/// `after` reads the same input as `before` from the same place.
pub open spec fn same_input(before: Scanner, after: Scanner) -> bool {
    &&& after.ring() == before.ring()
    &&& after.batch() == before.batch()
    &&& after.byte_idx() == before.byte_idx()
    &&& after.char_idx() == before.char_idx()
    &&& after.line() == before.line()
    &&& after.col() == before.col()
}

/// `after` is `before` advanced over the character `u` at its front: the
/// character's bytes leave the ring or the batch, and the position counters
/// move past it.
pub open spec fn advanced_over(before: Scanner, after: Scanner, u: CharInfo) -> bool {
    &&& before.next_unit() == Some(u)
    &&& after.batch() == before.batch()
    &&& u.source == Source::Ring ==> {
        &&& after.ring() == before.ring().subrange(u.ch_len as int, before.ring().len() as int)
        &&& after.byte_idx() == before.byte_idx()
    }
    &&& u.source == Source::Batch ==> {
        &&& after.ring() == before.ring()
        &&& after.byte_idx() == before.byte_idx() + u.ch_len
    }
    &&& after.char_idx() == before.char_idx() + 1
    &&& after.line() == next_line(before.line() as int, u.ch)
    &&& after.col() == next_col(before.col() as int, u.ch)
}

/// `after` is `before` with its input advanced over `r` (if any).
pub open spec fn stepped(before: Scanner, after: Scanner, r: Option<CharInfo>) -> bool {
    &&& r == before.next_unit()
    &&& match r {
        None => same_input(before, after),
        Some(u) => advanced_over(before, after, u),
    }
}

/// The token anchor after an action that starts a token if none is active.
pub open spec fn anchor_after_start(before: Scanner, after: Scanner) -> bool {
    match before.anchor() {
        Some(a) => after.anchor() == Some(a),
        None => after.anchor() == Some(fresh_anchor(before)),
    }
}

/// The anchor after a switch to owned accumulation.
pub open spec fn owned_anchor(a: Option<CaptureState>) -> Option<CaptureState> {
    match a {
        Some(c) => Some(CaptureState { owned: true, ..c }),
        None => None,
    }
}

/// The anchor after a switch to raw accumulation.
pub open spec fn raw_anchor(a: Option<CaptureState>) -> Option<CaptureState> {
    match a {
        Some(c) => Some(CaptureState { owned: true, raw: true, ..c }),
        None => None,
    }
}

/// Whether the token of `s` is borrowable once it has been started.
pub open spec fn borrowable_once_started(s: Scanner) -> bool {
    match s.anchor() {
        Some(a) => !a.owned,
        None => !fresh_anchor(s).owned,
    }
}

/// The bytes of a consumed character as it enters the token.
pub open spec fn unit_bytes(r: Option<CharInfo>) -> Seq<u8> {
    match r {
        Some(u) => encode_scalar(u.ch as u32),
        None => Seq::empty(),
    }
}

/// The effect of consuming the next character: a token is started if none
/// is active, the input advances over the character, and the character's
/// UTF-8 encoding is appended to the token.
pub open spec fn consume_post(before: Scanner, after: Scanner, r: Option<CharInfo>) -> bool {
    &&& after.wf()
    &&& stepped(before, after, r)
    &&& anchor_after_start(before, after)
    &&& after.token_bytes() == before.token_bytes() + unit_bytes(r)
    &&& after.scratch().is_raw() == before.scratch().is_raw()
}

/// The effect of skipping the next character: an active token switches to
/// owned accumulation without copying the batch prefix already read (its
/// content becomes what the scratch holds: selective capture), the skipped
/// character is left out, and the input advances over the character.
pub open spec fn skip_post(before: Scanner, after: Scanner, r: Option<CharInfo>) -> bool {
    &&& after.wf()
    &&& stepped(before, after, r)
    &&& after.anchor() == owned_anchor(before.anchor())
    &&& after.scratch() == before.scratch()
    &&& after.token_bytes() == before.scratch().bytes()
}

/// Line and column after reading `chars` from `(line, col)`.
pub open spec fn positions_after(line: int, col: int, chars: Seq<char>) -> (int, int)
    decreases chars.len(),
{
    if chars.len() == 0 {
        (line, col)
    } else {
        let p = positions_after(line, col, chars.drop_last());
        (next_line(p.0, chars.last()), next_col(p.1, chars.last()))
    }
}

/// The characters denoted by a run of ASCII bytes.
pub open spec fn ascii_chars(bytes: Seq<u8>) -> Seq<char> {
    bytes.map_values(|b: u8| (b as u32) as char)
}

/// `cs` are the characters read one after another from the front of
/// `bytes` (each decoded as the scanner decodes it), and `rest` is what is
/// left of `bytes` after them.
pub open spec fn reads_units(bytes: Seq<u8>, cs: Seq<char>, rest: Seq<u8>) -> bool
    decreases cs.len(),
{
    if cs.len() == 0 {
        rest == bytes
    } else {
        match decode_unit(bytes, Source::Ring) {
            None => false,
            Some(u) => {
                &&& u.ch == cs[0]
                &&& u.ch_len <= bytes.len()
                &&& reads_units(bytes.subrange(u.ch_len as int, bytes.len() as int), cs.drop_first(), rest)
            },
        }
    }
}

/// Reading one more character from what is left extends the reading.
pub proof fn lemma_reads_units_push(bytes: Seq<u8>, cs: Seq<char>, rest: Seq<u8>, u: CharInfo)
    requires
        reads_units(bytes, cs, rest),
        decode_unit(rest, Source::Ring) == Some(u),
        u.ch_len <= rest.len(),
    ensures
        reads_units(bytes, cs.push(u.ch), rest.subrange(u.ch_len as int, rest.len() as int)),
    decreases cs.len(),
{
    let ncs = cs.push(u.ch);
    if cs.len() == 0 {
        assert(ncs.drop_first() =~= Seq::<char>::empty());
        assert(ncs[0] == u.ch);
        assert(rest == bytes);
        let tail = bytes.subrange(u.ch_len as int, bytes.len() as int);
        assert(reads_units(tail, ncs.drop_first(), tail));
    } else {
        let v = decode_unit(bytes, Source::Ring).unwrap();
        let b2 = bytes.subrange(v.ch_len as int, bytes.len() as int);
        lemma_reads_units_push(b2, cs.drop_first(), rest, u);
        assert(ncs.drop_first() =~= cs.drop_first().push(u.ch));
        assert(ncs[0] == cs[0]);
    }
}

/// A chunked, UTF-8 aware scanner with zero-copy capture when possible.
pub struct Scanner<'src> {
    // Unread input
    pending: VecDeque<u8>,
    // Current batch
    batch: &'src str,
    byte_idx: usize,
    // Positions
    char_idx: usize,
    line: usize,
    col: usize,
    // Token-local state
    scratch: CaptureBuf,
    anchor: Option<CaptureState>,
}

impl<'src> Scanner<'src> {
    /// Unread bytes carried over from earlier feeds (read before the batch).
    pub closed spec fn ring(&self) -> Seq<u8> {
        self.pending@
    }

    /// The current batch.
    pub closed spec fn batch(&self) -> &'src str {
        self.batch
    }

    /// Byte offset of the next unread batch byte.
    pub closed spec fn byte_idx(&self) -> usize {
        self.byte_idx
    }

    /// Number of characters read so far.
    pub closed spec fn char_idx(&self) -> usize {
        self.char_idx
    }

    /// Current line (1-based).
    pub closed spec fn line(&self) -> usize {
        self.line
    }

    /// Current column (1-based).
    pub closed spec fn col(&self) -> usize {
        self.col
    }

    /// The token scratch.
    pub closed spec fn scratch(&self) -> CaptureBuf {
        self.scratch
    }

    /// The start of the current token, if one is active.
    pub closed spec fn anchor(&self) -> Option<CaptureState> {
        self.anchor
    }

    /// The UTF-8 bytes of the batch.
    pub open spec fn batch_bytes(&self) -> Seq<u8> {
        self.batch().spec_bytes()
    }

    /// The unread part of the batch.
    pub open spec fn rest_of_batch(&self) -> Seq<u8> {
        self.batch_bytes().subrange(self.byte_idx() as int, self.batch_bytes().len() as int)
    }

    /// Where the next character comes from.
    pub open spec fn source_spec(&self) -> Source {
        if self.ring().len() == 0 {
            Source::Batch
        } else {
            Source::Ring
        }
    }

    /// The next character: from the ring while it is not empty, then from
    /// the batch.
    pub open spec fn next_unit(&self) -> Option<CharInfo> {
        if self.ring().len() > 0 {
            decode_unit(self.ring(), Source::Ring)
        } else {
            decode_unit(self.rest_of_batch(), Source::Batch)
        }
    }

    /// True when the current token can still be returned as a borrowed slice
    /// of the batch.
    pub open spec fn is_borrowable(&self) -> bool {
        self.anchor() matches Some(a) && !a.owned
    }

    /// Where the borrowable token starts in the batch.
    pub open spec fn borrow_start(&self) -> int {
        self.anchor().unwrap().start_byte_in_batch.unwrap() as int
    }

    /// The content of the current token: the borrowable batch slice, or the
    /// scratch.
    pub open spec fn token_bytes(&self) -> Seq<u8> {
        if self.is_borrowable() {
            self.batch_bytes().subrange(self.borrow_start(), self.byte_idx() as int)
        } else {
            self.scratch().bytes()
        }
    }

    /// Internal consistency of the scanner.
    pub closed spec fn wf(&self) -> bool {
        let b = self.batch.spec_bytes();
        &&& self.byte_idx <= b.len()
        &&& is_char_boundary(b, self.byte_idx as int)
        &&& self.line <= self.char_idx + 1
        &&& self.col <= self.char_idx + 1
        &&& self.char_idx + self.pending@.len() + (b.len() - self.byte_idx) < usize::MAX
        &&& match self.anchor {
            None => true,
            Some(a) => {
                &&& a.source == Source::Batch ==> (a.start_byte_in_batch matches Some(st) && st
                    <= self.byte_idx && is_char_boundary(b, st as int) && self.pending@.len() == 0)
                &&& a.source == Source::Ring ==> a.owned
                &&& !a.owned ==> {
                    &&& a.source == Source::Batch
                    &&& !a.raw
                    &&& !self.scratch.is_raw()
                    &&& self.scratch.bytes().len() == 0
                }
            },
        }
    }

    /// Constructs a new session from prior carryover state and the current
    /// batch: the ring is read first, then the batch.
    pub fn from_state(carry: ScannerState, batch: &'src str) -> (s: Self)
        requires
            carry.wf(),
            carry.char_idx() + carry.ring().len() + batch.spec_bytes().len() < usize::MAX,
        ensures
            s.wf(),
            s.ring() == carry.ring(),
            s.batch() == batch,
            s.byte_idx() == 0,
            s.char_idx() == carry.char_idx(),
            s.line() == carry.line(),
            s.col() == carry.col(),
            s.scratch() == carry.scratch(),
            s.anchor() is None,
    {
        proof {
            is_char_boundary_start_end_of_seq(batch.spec_bytes());
        }
        Scanner {
            pending: carry.pending,
            batch,
            byte_idx: 0,
            char_idx: carry.char_idx,
            line: carry.line,
            col: carry.col,
            scratch: carry.scratch,
            anchor: None,
        }
    }

    /// `(char index, line, column)`.
    pub fn debug_positions(&self) -> (r: (usize, usize, usize))
        ensures
            r == (self.char_idx(), self.line(), self.col()),
    {
        (self.char_idx, self.line, self.col)
    }

    /// Where the next character comes from.
    pub fn debug_cur_source(&self) -> (r: Source)
        ensures
            r == self.source_spec(),
    {
        self.cur_source()
    }

    /// Returns the current source (`Ring` if non-empty, else `Batch`).
    pub fn cur_source(&self) -> (r: Source)
        ensures
            r == self.source_spec(),
    {
        if self.pending.len() == 0 {
            Source::Batch
        } else {
            Source::Ring
        }
    }

    /// Decodes but does not consume the next character from ring or batch.
    pub fn peek(&self) -> (r: Option<CharInfo>)
        requires
            self.wf(),
        ensures
            r == self.next_unit(),
            r is None <==> self.ring().len() == 0 && self.rest_of_batch().len() == 0,
            self.ring().len() > 0 && valid_first_scalar(window(self.ring())) ==> r == Some(
                CharInfo {
                    ch: decode_first_scalar(window(self.ring())) as char,
                    ch_len: length_of_first_scalar(window(self.ring())) as u8,
                    source: Source::Ring,
                },
            ),
            self.ring().len() == 0 && self.rest_of_batch().len() > 0 ==> {
                &&& valid_first_scalar(window(self.rest_of_batch()))
                &&& r == Some(
                    CharInfo {
                        ch: decode_first_scalar(self.rest_of_batch()) as char,
                        ch_len: length_of_first_scalar(self.rest_of_batch()) as u8,
                        source: Source::Batch,
                    },
                )
            },
    {
        if self.pending.len() > 0 {
            return self.peek_ring();
        }
        self.peek_batch()
    }

    fn peek_ring(&self) -> (r: Option<CharInfo>)
        requires
            self.ring().len() > 0,
        ensures
            r == decode_unit(self.ring(), Source::Ring),
            r is Some,
            valid_first_scalar(window(self.ring())) ==> r == Some(
                CharInfo {
                    ch: decode_first_scalar(window(self.ring())) as char,
                    ch_len: length_of_first_scalar(window(self.ring())) as u8,
                    source: Source::Ring,
                },
            ),
    {
        let (ch, len) = Self::decode_from_ring(&self.pending);
        if len == 0 {
            return None;
        }
        Some(CharInfo { ch, ch_len: len as u8, source: Source::Ring })
    }

    fn peek_batch(&self) -> (r: Option<CharInfo>)
        requires
            self.wf(),
        ensures
            r == decode_unit(self.rest_of_batch(), Source::Batch),
            r is None <==> self.rest_of_batch().len() == 0,
            self.rest_of_batch().len() > 0 ==> {
                &&& valid_first_scalar(window(self.rest_of_batch()))
                &&& r == Some(
                    CharInfo {
                        ch: decode_first_scalar(self.rest_of_batch()) as char,
                        ch_len: length_of_first_scalar(self.rest_of_batch()) as u8,
                        source: Source::Batch,
                    },
                )
            },
    {
        let ghost b = self.batch.spec_bytes();
        proof {
            let i = self.byte_idx as int;
            assert(valid_utf8(encode_utf8(self.batch@)));
            assert(valid_utf8(b));
            if i < b.len() {
                lemma_char_boundary_advance(b, i);
                let rest = b.subrange(i, b.len() as int);
                let w = window(rest);
                assert(w.len() >= 1);
                assert(forall|k: int| 0 <= k < w.len() ==> w[k] == rest[k]);
                if rest.len() >= 4 {
                    assert(w.len() == 4);
                } else {
                    assert(w == rest);
                }
                assert(valid_first_scalar(w) && decode_first_scalar(w) == decode_first_scalar(rest)
                    && length_of_first_scalar(w) == length_of_first_scalar(rest));
            }
        }
        let (ch, len) = Self::decode_from(self.batch, self.byte_idx);
        if len == 0 {
            return None;
        }
        Some(CharInfo { ch, ch_len: len as u8, source: Source::Batch })
    }

    // Decodes the first UTF-8 scalar of the ring (U+FFFD over invalid bytes).
    fn decode_from_ring(r: &VecDeque<u8>) -> (res: (char, usize))
        ensures
            ({
                let d = bstr_decode_utf8(window(r@));
                &&& res.1 == d.1
                &&& res.0 == match d.0 {
                    Some(c) => c,
                    None => '\u{FFFD}',
                }
                &&& res.1 <= 4
                &&& res.1 <= r@.len()
                &&& (res.1 == 0 <==> r@.len() == 0)
                &&& valid_first_scalar(window(r@)) ==> res.0 == decode_first_scalar(window(r@))
                    as char && res.1 == length_of_first_scalar(window(r@))
            }),
    {
        let n: usize = if r.len() < 4 {
            r.len()
        } else {
            4
        };
        let mut w: Vec<u8> = Vec::new();
        let mut i: usize = 0;
        while i < n
            invariant
                i <= n,
                n <= r@.len(),
                n == if r@.len() < 4 { r@.len() } else { 4 },
                w@ == r@.subrange(0, i as int),
            decreases n - i,
        {
            w.push(r[i]);
            i = i + 1;
            assert(w@ =~= r@.subrange(0, i as int));
        }
        assert(w@ =~= window(r@));
        let (ch, len) = decode_utf8_prefix(w.as_slice());
        match ch {
            Some(c) => (c, len),
            None => ('\u{FFFD}', len),
        }
    }

    // Decodes the first UTF-8 scalar of the batch at `offset`.
    fn decode_from(s: &str, offset: usize) -> (res: (char, usize))
        requires
            offset <= s.spec_bytes().len(),
        ensures
            ({
                let d = bstr_decode_utf8(
                    window(s.spec_bytes().subrange(offset as int, s.spec_bytes().len() as int)),
                );
                &&& res.1 == d.1
                &&& res.0 == match d.0 {
                    Some(c) => c,
                    None => '\u{FFFD}',
                }
                &&& res.1 <= 4
                &&& res.1 <= s.spec_bytes().len() - offset
                &&& (res.1 == 0 <==> s.spec_bytes().len() == offset)
            }),
            s.spec_bytes().len() <= usize::MAX,
            ({
                let w = window(s.spec_bytes().subrange(offset as int, s.spec_bytes().len() as int));
                valid_first_scalar(w) ==> res.0 == decode_first_scalar(w) as char && res.1
                    == length_of_first_scalar(w)
            }),
    {
        let bytes = s.as_bytes();
        assert(bytes@.len() == bytes.len());
        let ghost rest = bytes@.subrange(offset as int, bytes@.len() as int);
        let end: usize = if bytes.len() - offset < 4 {
            bytes.len()
        } else {
            offset + 4
        };
        let w = &bytes[offset..end];
        assert(w@ =~= window(rest));
        let (ch, len) = decode_utf8_prefix(w);
        match ch {
            Some(c) => (c, len),
            None => ('\u{FFFD}', len),
        }
    }

    #[inline]
    fn bump_pos(&mut self, ch: char)
        requires
            old(self).char_idx + 1 < usize::MAX,
            old(self).line <= old(self).char_idx + 1,
            old(self).col <= old(self).char_idx + 1,
        ensures
            final(self).char_idx == old(self).char_idx + 1,
            final(self).line == next_line(old(self).line as int, ch),
            final(self).col == next_col(old(self).col as int, ch),
            final(self).pending == old(self).pending,
            final(self).batch == old(self).batch,
            final(self).byte_idx == old(self).byte_idx,
            final(self).scratch == old(self).scratch,
            final(self).anchor == old(self).anchor,
    {
        if ch == '\n' {
            self.line = self.line + 1;
            self.col = 1;
        } else {
            self.col = self.col + 1;
        }
        self.char_idx = self.char_idx + 1;
    }

    /// Internal: advance input by one character (no scratch effects).
    fn step_input(&mut self) -> (r: Option<CharInfo>)
        requires
            old(self).wf(),
        ensures
            final(self).wf(),
            stepped(*old(self), *final(self), r),
            final(self).scratch() == old(self).scratch(),
            final(self).anchor() == old(self).anchor(),
            r matches Some(u) ==> (u.source == Source::Batch ==> old(self).batch_bytes().subrange(
                old(self).byte_idx() as int,
                final(self).byte_idx() as int,
            ) == encode_scalar(u.ch as u32)),
            r matches Some(u) ==> 1 <= u.ch_len <= 4,
            r matches Some(u) ==> (u.source == Source::Ring ==> u.ch_len <= old(self).ring().len()),
    {
        let ghost b = self.batch.spec_bytes();
        if self.pending.len() == 0 {
            let (ch, len) = Self::decode_from(self.batch, self.byte_idx);
            if len == 0 {
                return None;
            }
            proof {
                let i = self.byte_idx as int;
                assert(valid_utf8(encode_utf8(self.batch@)));
                assert(valid_utf8(b));
                assert(i < b.len());
                lemma_char_boundary_advance(b, i);
                let rest = b.subrange(i, b.len() as int);
                let w = window(rest);
                assert(valid_first_scalar(w) && decode_first_scalar(w) == decode_first_scalar(rest)
                    && length_of_first_scalar(w) == length_of_first_scalar(rest)) by {
                    assert(w.len() >= 1);
                    assert(forall|k: int| 0 <= k < w.len() ==> w[k] == rest[k]);
                    if rest.len() >= 4 {
                        assert(w.len() == 4);
                    } else {
                        assert(w == rest);
                    }
                }
                decode_utf8_first_scalar(rest);
                assert(b.subrange(i, i + len) =~= take_first_scalar(rest));
            }
            self.byte_idx = self.byte_idx + len;
            self.bump_pos(ch);
            Some(CharInfo { ch, ch_len: len as u8, source: Source::Batch })
        } else {
            let (ch, len) = Self::decode_from_ring(&self.pending);
            if len == 0 {
                return None;
            }
            let ghost before = self.pending@;
            let mut k: usize = 0;
            while k < len
                invariant
                    k <= len,
                    len <= before.len(),
                    self.pending@ == before.subrange(k as int, before.len() as int),
                    self.batch == old(self).batch,
                    self.byte_idx == old(self).byte_idx,
                    self.char_idx == old(self).char_idx,
                    self.line == old(self).line,
                    self.col == old(self).col,
                    self.scratch == old(self).scratch,
                    self.anchor == old(self).anchor,
                decreases len - k,
            {
                self.pending.pop_front();
                k = k + 1;
                assert(self.pending@ =~= before.subrange(k as int, before.len() as int));
            }
            self.bump_pos(ch);
            Some(CharInfo { ch, ch_len: len as u8, source: Source::Ring })
        }
    }
}

impl<'src> Scanner<'src> {
    /// Starts a token at the current position if none is active. The token
    /// stays borrowable only when it starts in the batch with nothing carried
    /// in the scratch.
    pub fn ensure_anchor_started(&mut self)
        requires
            old(self).wf(),
        ensures
            final(self).wf(),
            same_input(*old(self), *final(self)),
            anchor_after_start(*old(self), *final(self)),
            final(self).token_bytes() == old(self).token_bytes(),
            final(self).scratch().is_raw() == old(self).scratch().is_raw(),
    {
        if self.anchor.is_some() {
            return;
        }
        let source = self.cur_source();
        let start_char = self.char_idx;
        let start_byte_in_batch = match source {
            Source::Batch => Some(self.byte_idx),
            Source::Ring => None,
        };
        let has_carry = !self.scratch.is_empty();
        if !has_carry {
            self.scratch.clear();
        }
        let raw = match self.scratch {
            CaptureBuf::Raw(_) => true,
            CaptureBuf::Text(_) => false,
        };
        // If the token starts in the ring, or the scratch already holds a
        // carried prefix or raw bytes, it must be owned.
        let owned = match source {
            Source::Ring => true,
            Source::Batch => false,
        } || has_carry || raw;
        self.anchor = Some(CaptureState { source, start_char, start_byte_in_batch, owned, raw });
    }

    /// Acknowledges that a partial borrowed fragment has been emitted up to
    /// the current position by advancing the anchor start, so it is not
    /// emitted again.
    pub fn acknowledge_partial_borrow(&mut self)
        requires
            old(self).wf(),
        ensures
            final(self).wf(),
            same_input(*old(self), *final(self)),
            final(self).scratch() == old(self).scratch(),
            old(self).is_borrowable() ==> {
                &&& final(self).is_borrowable()
                &&& final(self).anchor() == Some(
                    CaptureState {
                        start_char: old(self).char_idx(),
                        start_byte_in_batch: Some(old(self).byte_idx()),
                        ..old(self).anchor().unwrap()
                    },
                )
                &&& final(self).token_bytes() == Seq::<u8>::empty()
            },
            !old(self).is_borrowable() ==> final(self).anchor() == old(self).anchor(),
    {
        let char_idx = self.char_idx;
        let byte_idx = self.byte_idx;
        if let Some(a) = &mut self.anchor {
            if a.source == Source::Batch && !a.owned {
                a.start_char = char_idx;
                a.start_byte_in_batch = Some(byte_idx);
            }
        }
        assert(self.batch_bytes().subrange(byte_idx as int, byte_idx as int) =~= Seq::<u8>::empty());
    }

    /// Copies the already-consumed batch prefix of a borrowable token into
    /// the scratch and marks the token owned (idempotent). The token's content
    /// does not change.
    pub fn switch_to_owned_prefix_if_needed(&mut self)
        requires
            old(self).wf(),
        ensures
            final(self).wf(),
            same_input(*old(self), *final(self)),
            final(self).anchor() == owned_anchor(old(self).anchor()),
            final(self).token_bytes() == old(self).token_bytes(),
            final(self).scratch().is_raw() == old(self).scratch().is_raw(),
            old(self).anchor() is None ==> final(self).scratch() == old(self).scratch(),
    {
        let a = match self.anchor {
            Some(a) => a,
            None => return,
        };
        if a.owned {
            return;
        }
        if a.source == Source::Batch {
            // A scratch that already holds data is kept as is.
            if !self.scratch.is_empty() {
                self.anchor = Some(CaptureState { owned: true, ..a });
                return;
            }
            let start = match a.start_byte_in_batch {
                Some(st) => st,
                None => self.byte_idx,
            };
            let end = self.byte_idx;
            proof {
                assert(valid_utf8(encode_utf8(self.batch@)));
            }
            if end > start {
                self.scratch.push_utf8_slice(self.batch, start, end);
            } else {
                assert(self.batch_bytes().subrange(start as int, end as int) =~= Seq::<u8>::empty());
            }
            self.anchor = Some(CaptureState { owned: true, ..a });
        } else {
            self.anchor = Some(CaptureState { owned: true, ..a });
        }
    }

    /// Consumes one character and records it into the token: a token is
    /// started if none is active; the character's encoding is appended to
    /// the scratch in owned mode (a borrowable token simply extends).
    pub fn consume(&mut self) -> (r: Option<CharInfo>)
        requires
            old(self).wf(),
        ensures
            consume_post(*old(self), *final(self), r),
    {
        self.ensure_anchor_started();
        let ghost mid = *self;
        let adv = self.step_input();
        match adv {
            Some(u) => {
                let owned = match self.anchor {
                    Some(a) => a.owned,
                    None => true,
                };
                if owned {
                    self.scratch.push_char(u.ch);
                } else {
                    proof {
                        let st = mid.borrow_start();
                        let b = mid.batch_bytes();
                        assert(b.subrange(st, self.byte_idx as int) =~= b.subrange(
                            st,
                            mid.byte_idx as int,
                        ) + b.subrange(mid.byte_idx as int, self.byte_idx as int));
                    }
                }
                Some(u)
            },
            None => None,
        }
    }

    /// Marks the current token owned without copying the batch prefix
    /// already read: later captures select what joins the token.
    fn ensure_owned_without_prefix_copy(&mut self)
        requires
            old(self).wf(),
        ensures
            final(self).wf(),
            same_input(*old(self), *final(self)),
            final(self).anchor() == owned_anchor(old(self).anchor()),
            final(self).scratch() == old(self).scratch(),
            final(self).token_bytes() == old(self).scratch().bytes(),
    {
        match self.anchor {
            Some(a) => {
                self.anchor = Some(CaptureState { owned: true, ..a });
            },
            None => {},
        }
    }

    /// Skips one character without recording it: an active token switches to
    /// owned accumulation without copying the batch prefix already read
    /// (selective capture), and the skipped character is left out of it.
    pub fn skip(&mut self) -> (r: Option<CharInfo>)
        requires
            old(self).wf(),
        ensures
            skip_post(*old(self), *final(self), r),
    {
        self.ensure_owned_without_prefix_copy();
        self.step_input()
    }

    /// Switches the token to raw accumulation (its content is kept) and
    /// returns the raw buffer. Idempotent.
    pub fn ensure_raw(&mut self) -> (r: &mut Vec<u8>)
        requires
            old(self).wf(),
        ensures
            r@ == old(self).token_bytes(),
            final(self).scratch() == CaptureBuf::Raw(*final(r)),
            final(self).anchor() == raw_anchor(old(self).anchor()),
            same_input(*old(self), *final(self)),
            final(self).wf(),
    {
        self.switch_to_owned_prefix_if_needed();
        if let Some(a) = &mut self.anchor {
            a.raw = true;
        }
        self.scratch.as_raw_mut()
    }

    /// Appends UTF-8 text to the token, switching it to owned mode.
    pub fn push_text(&mut self, s: &str)
        requires
            old(self).wf(),
        ensures
            final(self).wf(),
            same_input(*old(self), *final(self)),
            final(self).anchor() == owned_anchor(old(self).anchor()),
            final(self).token_bytes() == old(self).token_bytes() + s.spec_bytes(),
            final(self).scratch().is_raw() == old(self).scratch().is_raw(),
    {
        self.switch_to_owned_prefix_if_needed();
        self.scratch.push_str(s);
    }

    /// Appends a character to the token, switching it to owned mode.
    pub fn push_char(&mut self, ch: char)
        requires
            old(self).wf(),
        ensures
            final(self).wf(),
            same_input(*old(self), *final(self)),
            final(self).anchor() == owned_anchor(old(self).anchor()),
            final(self).token_bytes() == old(self).token_bytes() + encode_scalar(ch as u32),
            final(self).scratch().is_raw() == old(self).scratch().is_raw(),
    {
        self.switch_to_owned_prefix_if_needed();
        self.scratch.push_char(ch);
    }

    /// Appends raw bytes to the token, switching it to raw mode.
    pub fn push_raw_bytes(&mut self, bytes: &[u8])
        requires
            old(self).wf(),
        ensures
            final(self).wf(),
            same_input(*old(self), *final(self)),
            final(self).anchor() == raw_anchor(old(self).anchor()),
            final(self).token_bytes() == old(self).token_bytes() + bytes@,
            final(self).scratch().is_raw(),
    {
        let buf = self.ensure_raw();
        buf.extend_from_slice(bytes);
    }

    /// Appends UTF-8 text to the token, switching it to owned mode.
    pub fn append_text(&mut self, s: &str)
        requires
            old(self).wf(),
        ensures
            final(self).wf(),
            same_input(*old(self), *final(self)),
            final(self).anchor() == owned_anchor(old(self).anchor()),
            final(self).token_bytes() == old(self).token_bytes() + s.spec_bytes(),
            final(self).scratch().is_raw() == old(self).scratch().is_raw(),
    {
        self.switch_to_owned_prefix_if_needed();
        self.scratch.push_str(s);
        if let Some(a) = &mut self.anchor {
            a.owned = true;
        }
    }

    /// Appends raw bytes to the token, switching it to raw mode.
    pub fn append_raw_bytes(&mut self, bytes: &[u8])
        requires
            old(self).wf(),
        ensures
            final(self).wf(),
            same_input(*old(self), *final(self)),
            final(self).anchor() == raw_anchor(old(self).anchor()),
            final(self).token_bytes() == old(self).token_bytes() + bytes@,
            final(self).scratch().is_raw(),
    {
        let buf = self.ensure_raw();
        buf.extend_from_slice(bytes);
        if let Some(a) = &mut self.anchor {
            a.owned = true;
        }
    }

    /// Returns the token as a borrowed batch slice if it is still
    /// borrowable.
    pub fn try_borrow_slice(&self) -> (r: Option<&'src str>)
        requires
            self.wf(),
        ensures
            r is Some <==> self.is_borrowable(),
            r matches Some(t) ==> t.spec_bytes() == self.token_bytes(),
    {
        let a = match &self.anchor {
            Some(a) => a,
            None => return None,
        };
        if a.source != Source::Batch || a.owned || a.raw {
            return None;
        }
        let start = match a.start_byte_in_batch {
            Some(st) => st,
            None => return None,
        };
        let end = self.byte_idx;
        if end < start {
            return None;
        }
        proof {
            assert(valid_utf8(encode_utf8(self.batch@)));
        }
        Some(str_slice(self.batch, start, end))
    }

    /// Emits a token fragment: the borrowed slice when `is_final` and the
    /// token is borrowable; otherwise the scratch content (text or raw), which
    /// is reset to empty text.
    pub fn emit_fragment(&mut self, is_final: bool) -> (r: Capture<'src>)
        requires
            old(self).wf(),
        ensures
            final(self).wf(),
            same_input(*old(self), *final(self)),
            final(self).anchor() == old(self).anchor(),
            (r is Borrowed) == (is_final && old(self).is_borrowable()),
            r is Borrowed ==> r.bytes() == old(self).token_bytes() && final(self).scratch()
                == old(self).scratch(),
            !(r is Borrowed) ==> {
                &&& r.bytes() == old(self).scratch().bytes()
                &&& (r is Raw) == old(self).scratch().is_raw()
                &&& final(self).scratch() matches CaptureBuf::Text(t) && t@ == Seq::<char>::empty()
            },
    {
        if is_final {
            if let Some(s) = self.try_borrow_slice() {
                return Capture::Borrowed(s);
            }
        }
        let mut taken = CaptureBuf::new();
        core::mem::swap(&mut taken, &mut self.scratch);
        match taken {
            CaptureBuf::Text(s) => Capture::Owned(s),
            CaptureBuf::Raw(b) => Capture::Raw(b),
        }
    }

    /// Emits the final fragment of the current token (starting one if none
    /// is active) and ends the token: the result carries exactly the token's
    /// content, borrowed when the token is borrowable.
    pub fn emit(&mut self) -> (r: Capture<'src>)
        requires
            old(self).wf(),
        ensures
            final(self).wf(),
            same_input(*old(self), *final(self)),
            final(self).anchor() is None,
            r.bytes() == old(self).token_bytes(),
            (r is Borrowed) == borrowable_once_started(*old(self)),
            !(r is Borrowed) ==> ((r is Raw) == old(self).scratch().is_raw()),
            final(self).scratch() matches CaptureBuf::Text(t) && t@ == Seq::<char>::empty(),
            final(self).token_bytes() == Seq::<u8>::empty(),
    {
        self.ensure_anchor_started();
        let buf = self.emit_fragment(true);
        self.anchor = None;
        proof {
            lemma_encode_empty();
        }
        buf
    }

    /// Emits a non-empty partial fragment if the token holds anything: a
    /// borrowable token yields its slice (which is then acknowledged);
    /// otherwise the token is switched to owned and its scratch is emitted and
    /// reset. `None` when the token is empty.
    pub fn emit_partial(&mut self) -> (r: Option<Capture<'src>>)
        requires
            old(self).wf(),
        ensures
            final(self).wf(),
            same_input(*old(self), *final(self)),
            r is None <==> old(self).token_bytes().len() == 0,
            r matches Some(c) ==> {
                &&& c.bytes() == old(self).token_bytes()
                &&& (c is Borrowed) == old(self).is_borrowable()
                &&& !(c is Borrowed) ==> (c is Raw) == old(self).scratch().is_raw()
                &&& final(self).token_bytes() == Seq::<u8>::empty()
            },
            r is None ==> final(self).token_bytes() == old(self).token_bytes(),
            old(self).is_borrowable() && r is Some ==> {
                &&& final(self).is_borrowable()
                &&& final(self).anchor() == Some(
                    CaptureState {
                        start_char: old(self).char_idx(),
                        start_byte_in_batch: Some(old(self).byte_idx()),
                        ..old(self).anchor().unwrap()
                    },
                )
            },
            old(self).is_borrowable() && r is None ==> *final(self) == *old(self),
            r matches Some(c) ==> (!(c is Borrowed) ==> (final(self).scratch() matches CaptureBuf::Text(
                t,
            ) && t@ == Seq::<char>::empty())),
            !old(self).is_borrowable() ==> final(self).anchor() == owned_anchor(old(self).anchor()),
    {
        if let Some(s) = self.try_borrow_slice() {
            if s.len() != 0 {
                self.acknowledge_partial_borrow();
                return Some(Capture::Borrowed(s));
            }
            return None;
        }
        self.switch_to_owned_prefix_if_needed();
        if self.scratch.is_empty() {
            return None;
        }
        let c = self.emit_fragment(false);
        proof {
            lemma_encode_empty();
        }
        Some(c)
    }

    /// Finalizes the session and returns carryover state for the next feed:
    /// the unread batch tail is appended to the ring, and the current token's
    /// content (an un-emitted borrowable prefix included) is kept in the
    /// scratch.
    pub fn finish(self) -> (r: ScannerState)
        requires
            self.wf(),
        ensures
            r.wf(),
            r.ring() == self.ring() + self.rest_of_batch(),
            r.char_idx() == self.char_idx(),
            r.line() == self.line(),
            r.col() == self.col(),
            r.scratch().bytes() == self.token_bytes(),
            r.scratch().is_raw() == self.scratch().is_raw(),
    {
        let mut this = self;
        this.switch_to_owned_prefix_if_needed();
        let ghost mid = this;
        // Push the unread tail of the batch into the ring.
        let bytes = this.batch.as_bytes();
        let mut i = this.byte_idx;
        while i < bytes.len()
            invariant
                mid.byte_idx <= i <= bytes@.len(),
                bytes@ == mid.batch_bytes(),
                this.pending@ == mid.ring() + bytes@.subrange(mid.byte_idx as int, i as int),
                this.char_idx == mid.char_idx,
                this.line == mid.line,
                this.col == mid.col,
                this.scratch == mid.scratch,
            decreases bytes@.len() - i,
        {
            this.pending.push_back(bytes[i]);
            i = i + 1;
            assert(bytes@.subrange(mid.byte_idx as int, i as int) =~= bytes@.subrange(
                mid.byte_idx as int,
                (i - 1) as int,
            ).push(bytes@[i - 1]));
        }
        ScannerState {
            pending: this.pending,
            char_idx: this.char_idx,
            line: this.line,
            col: this.col,
            scratch: this.scratch,
        }
    }
}

impl<'src> Scanner<'src> {
    /// Batch-only ASCII fast path: consumes consecutive ASCII bytes
    /// satisfying `pred` (starting a token if none is active), advancing the
    /// positions; the bytes join the token. Does nothing while the ring still
    /// holds unread bytes.
    pub fn consume_while_ascii(&mut self, pred: impl Fn(u8) -> bool) -> (r: usize)
        requires
            old(self).wf(),
            forall|b: u8| pred.requires((b,)),
        ensures
            final(self).wf(),
            final(self).byte_idx() <= final(self).batch_bytes().len(),
            old(self).ring().len() != 0 ==> r == 0 && *final(self) == *old(self),
            old(self).ring().len() == 0 ==> {
                let b = old(self).batch_bytes();
                let run = b.subrange(old(self).byte_idx() as int, final(self).byte_idx() as int);
                &&& anchor_after_start(*old(self), *final(self))
                &&& final(self).ring() == old(self).ring()
                &&& final(self).batch() == old(self).batch()
                &&& final(self).byte_idx() == old(self).byte_idx() + r
                &&& forall|k: int|
                    old(self).byte_idx() <= k < final(self).byte_idx() ==> b[k] < 0x80
                        && pred.ensures((b[k],), true)
                &&& final(self).byte_idx() < b.len() ==> (b[final(self).byte_idx() as int] >= 0x80
                    || pred.ensures((b[final(self).byte_idx() as int],), false))
                &&& final(self).char_idx() == old(self).char_idx() + r
                &&& (final(self).line() as int, final(self).col() as int) == positions_after(
                    old(self).line() as int,
                    old(self).col() as int,
                    ascii_chars(run),
                )
                &&& final(self).token_bytes() == old(self).token_bytes() + run
                &&& final(self).scratch().is_raw() == old(self).scratch().is_raw()
            },
    {
        if self.pending.len() != 0 {
            return 0;
        }
        self.ensure_anchor_started();
        let ghost mid = *self;
        let bytes = self.batch.as_bytes();
        let end = bytes.len();
        let mut copied: usize = 0;
        proof {
            assert(valid_utf8(encode_utf8(self.batch@)));
            assert(mid.batch_bytes().subrange(mid.byte_idx as int, mid.byte_idx as int)
                =~= Seq::<u8>::empty());
            assert(ascii_chars(Seq::<u8>::empty()) =~= Seq::<char>::empty());
        }
        loop
            invariant_except_break
                self.wf(),
                self.pending@.len() == 0,
                bytes@ == mid.batch_bytes(),
                end == bytes@.len(),
                self.batch == mid.batch,
                self.anchor == mid.anchor,
                self.scratch.is_raw() == mid.scratch.is_raw(),
                mid.byte_idx <= self.byte_idx <= end,
                self.byte_idx == mid.byte_idx + copied,
                self.char_idx == mid.char_idx + copied,
                forall|k: int| mid.byte_idx <= k < self.byte_idx ==> bytes@[k] < 0x80 && pred.ensures((bytes@[k],), true),
                (self.line as int, self.col as int) == positions_after(
                    mid.line as int,
                    mid.col as int,
                    ascii_chars(bytes@.subrange(mid.byte_idx as int, self.byte_idx as int)),
                ),
                self.token_bytes() == mid.token_bytes() + bytes@.subrange(
                    mid.byte_idx as int,
                    self.byte_idx as int,
                ),
                forall|b: u8| pred.requires((b,)),
            ensures
                self.wf(),
                self.pending@.len() == 0,
                self.batch == mid.batch,
                self.anchor == mid.anchor,
                self.scratch.is_raw() == mid.scratch.is_raw(),
                mid.byte_idx <= self.byte_idx <= end,
                self.byte_idx == mid.byte_idx + copied,
                self.char_idx == mid.char_idx + copied,
                forall|k: int| mid.byte_idx <= k < self.byte_idx ==> bytes@[k] < 0x80 && pred.ensures((bytes@[k],), true),
                self.byte_idx < end ==> (bytes@[self.byte_idx as int] >= 0x80 || pred.ensures(
                    (bytes@[self.byte_idx as int],),
                    false,
                )),
                (self.line as int, self.col as int) == positions_after(
                    mid.line as int,
                    mid.col as int,
                    ascii_chars(bytes@.subrange(mid.byte_idx as int, self.byte_idx as int)),
                ),
                self.token_bytes() == mid.token_bytes() + bytes@.subrange(
                    mid.byte_idx as int,
                    self.byte_idx as int,
                ),
            decreases end - self.byte_idx,
        {
            if self.byte_idx >= end {
                break;
            }
            let i = self.byte_idx;
            let b = bytes[i];
            if b >= 0x80 {
                break;
            }
            let keep = pred(b);
            if !keep {
                break;
            }
            let ghost before = *self;
            proof {
                let bb = bytes@;
                lemma_char_boundary_advance(bb, i as int);
                assert(bb.subrange(i as int, bb.len() as int)[0] == b);
                lemma_ascii_encode(b);
            }
            self.byte_idx = self.byte_idx + 1;
            self.bump_pos(b as char);
            let owned = match self.anchor {
                Some(a) => a.owned,
                None => true,
            };
            if owned {
                self.scratch.push_char(b as char);
            }
            copied = copied + 1;
            proof {
                let bb = bytes@;
                let run0 = bb.subrange(mid.byte_idx as int, i as int);
                let run1 = bb.subrange(mid.byte_idx as int, (i + 1) as int);
                assert(run1 =~= run0.push(b));
                assert(ascii_chars(run1) =~= ascii_chars(run0).push(b as char));
                assert(ascii_chars(run1).drop_last() =~= ascii_chars(run0));
                assert(bb.subrange(i as int, (i + 1) as int) =~= seq![b]);
                if !owned {
                    let st = before.borrow_start();
                    assert(bb.subrange(st, (i + 1) as int) =~= bb.subrange(st, i as int).push(b));
                }
            }
        }
        copied
    }

    /// Source-stable character loop: consumes characters while `pred` holds
    /// and the source (ring or batch) does not change, starting a token if
    /// none is active; the characters join the token.
    pub fn consume_while_char(&mut self, pred: impl Fn(char) -> bool) -> (r: usize)
        requires
            old(self).wf(),
            forall|c: char| pred.requires((c,)),
        ensures
            final(self).wf(),
            anchor_after_start(*old(self), *final(self)),
            final(self).batch() == old(self).batch(),
            final(self).scratch().is_raw() == old(self).scratch().is_raw(),
            final(self).char_idx() == old(self).char_idx() + r,
            old(self).ring().len() != 0 ==> {
                &&& final(self).byte_idx() == old(self).byte_idx()
                &&& final(self).ring().len() <= old(self).ring().len()
                &&& final(self).ring() == old(self).ring().subrange(
                    old(self).ring().len() - final(self).ring().len(),
                    old(self).ring().len() as int,
                )
            },
            old(self).ring().len() == 0 ==> final(self).ring() == old(self).ring()
                && final(self).byte_idx() >= old(self).byte_idx(),
            old(self).ring().len() == 0 ==> final(self).token_bytes() == old(self).token_bytes()
                + old(self).batch_bytes().subrange(
                old(self).byte_idx() as int,
                final(self).byte_idx() as int,
            ),
            exists|cs: Seq<char>|
                {
                    &&& #[trigger] cs.len() == r
                    &&& forall|i: int| 0 <= i < cs.len() ==> pred.ensures((cs[i],), true)
                    &&& final(self).token_bytes() == old(self).token_bytes() + encode_utf8(cs)
                    &&& old(self).ring().len() != 0 ==> reads_units(old(self).ring(), cs, final(self).ring())
                    &&& old(self).ring().len() == 0 ==> encode_utf8(cs) == old(self).batch_bytes().subrange(
                        old(self).byte_idx() as int,
                        final(self).byte_idx() as int,
                    )
                    &&& (final(self).line() as int, final(self).col() as int) == positions_after(
                        old(self).line() as int,
                        old(self).col() as int,
                        cs,
                    )
                },
            match final(self).next_unit() {
                None => true,
                Some(u) => u.source != old(self).source_spec() || pred.ensures((u.ch,), false),
            },
    {
        self.ensure_anchor_started();
        let ghost mid = *self;
        let mut copied: usize = 0;
        let start_source = self.cur_source();
        let ghost mut cs: Seq<char> = Seq::empty();
        proof {
            lemma_encode_empty();
            assert(mid.token_bytes() + encode_utf8(cs) =~= mid.token_bytes());
            assert(mid.batch.spec_bytes().subrange(mid.byte_idx as int, mid.byte_idx as int)
                =~= Seq::<u8>::empty());
        }
        loop
            invariant_except_break
                self.wf(),
                start_source == mid.source_spec(),
                self.batch == mid.batch,
                self.anchor == mid.anchor,
                self.scratch.is_raw() == mid.scratch.is_raw(),
                self.char_idx == mid.char_idx + copied,
                cs.len() == copied,
                forall|i: int| 0 <= i < cs.len() ==> pred.ensures((cs[i],), true),
                self.token_bytes() == mid.token_bytes() + encode_utf8(cs),
                (self.line as int, self.col as int) == positions_after(
                    mid.line as int,
                    mid.col as int,
                    cs,
                ),
                start_source == Source::Ring ==> {
                    &&& self.byte_idx == mid.byte_idx
                    &&& self.pending@.len() <= mid.pending@.len()
                    &&& self.pending@ == mid.pending@.subrange(
                        mid.pending@.len() - self.pending@.len(),
                        mid.pending@.len() as int,
                    )
                },
                start_source == Source::Batch ==> self.pending@ == mid.pending@ && self.byte_idx
                    >= mid.byte_idx,
                start_source == Source::Ring ==> reads_units(mid.pending@, cs, self.pending@),
                start_source == Source::Batch ==> encode_utf8(cs) == mid.batch.spec_bytes().subrange(
                    mid.byte_idx as int,
                    self.byte_idx as int,
                ),
                forall|c: char| pred.requires((c,)),
            ensures
                self.wf(),
                self.batch == mid.batch,
                self.anchor == mid.anchor,
                self.scratch.is_raw() == mid.scratch.is_raw(),
                self.char_idx == mid.char_idx + copied,
                cs.len() == copied,
                forall|i: int| 0 <= i < cs.len() ==> pred.ensures((cs[i],), true),
                self.token_bytes() == mid.token_bytes() + encode_utf8(cs),
                (self.line as int, self.col as int) == positions_after(
                    mid.line as int,
                    mid.col as int,
                    cs,
                ),
                start_source == Source::Ring ==> {
                    &&& self.byte_idx == mid.byte_idx
                    &&& self.pending@.len() <= mid.pending@.len()
                    &&& self.pending@ == mid.pending@.subrange(
                        mid.pending@.len() - self.pending@.len(),
                        mid.pending@.len() as int,
                    )
                },
                start_source == Source::Batch ==> self.pending@ == mid.pending@ && self.byte_idx
                    >= mid.byte_idx,
                start_source == Source::Ring ==> reads_units(mid.pending@, cs, self.pending@),
                start_source == Source::Batch ==> encode_utf8(cs) == mid.batch.spec_bytes().subrange(
                    mid.byte_idx as int,
                    self.byte_idx as int,
                ),
                match self.next_unit() {
                    None => true,
                    Some(u) => u.source != start_source || pred.ensures((u.ch,), false),
                },
            decreases self.pending@.len() + (self.batch.spec_bytes().len() - self.byte_idx),
        {
            let u = match self.peek() {
                Some(u) => u,
                None => break,
            };
            if u.source != start_source {
                break;
            }
            let keep = pred(u.ch);
            if !keep {
                break;
            }
            let ghost before = *self;
            let _ = self.step_input();
            let owned = match self.anchor {
                Some(a) => a.owned,
                None => true,
            };
            if owned {
                self.scratch.push_char(u.ch);
            } else {
                proof {
                    let st = before.borrow_start();
                    let bb = before.batch_bytes();
                    assert(bb.subrange(st, self.byte_idx as int) =~= bb.subrange(
                        st,
                        before.byte_idx as int,
                    ) + bb.subrange(before.byte_idx as int, self.byte_idx as int));
                }
            }
            proof {
                let ncs = cs.push(u.ch);
                lemma_encode_utf8_push(cs, u.ch);
                assert(ncs.drop_last() =~= cs);
                assert(forall|i: int| 0 <= i < cs.len() ==> ncs[i] == cs[i]);
                if start_source == Source::Ring {
                    let m = mid.pending@.len() as int;
                    let bl = before.pending@.len() as int;
                    let l = u.ch_len as int;
                    assert(bl > 0);
                    assert(self.pending@ == before.pending@.subrange(l, bl));
                    assert(self.pending@ =~= mid.pending@.subrange(m - bl + l, m));
                    lemma_reads_units_push(mid.pending@, cs, before.pending@, u);
                } else {
                    let bb = mid.batch.spec_bytes();
                    assert(bb.subrange(mid.byte_idx as int, self.byte_idx as int) =~= bb.subrange(
                        mid.byte_idx as int,
                        before.byte_idx as int,
                    ) + bb.subrange(before.byte_idx as int, self.byte_idx as int));
                }
                cs = ncs;
            }
            copied = copied + 1;
        }
        proof {
            assert(cs.len() == copied);
        }
        copied
    }

    /// Returns a guard over the next character if present; consuming or
    /// skipping the guard advances the scanner exactly once.
    pub fn peek_guard(&mut self) -> (r: Option<Peeked<'_, 'src>>)
        requires
            old(self).wf(),
        ensures
            r is Some <==> old(self).next_unit() is Some,
            r matches Some(g) ==> {
                &&& Some(g.unit) == old(self).next_unit()
                &&& *g.scanner == *old(self)
                &&& *final(self) == *final(g.scanner)
            },
            r is None ==> *final(self) == *old(self),
    {
        match self.peek() {
            Some(u) => Some(Peeked { scanner: self, unit: u }),
            None => None,
        }
    }
}

/// Guard tying a peeked character to the scanner borrow. Consuming the guard
/// advances the scanner exactly once and returns the same character.
pub struct Peeked<'a, 'src> {
    pub scanner: &'a mut Scanner<'src>,
    pub unit: CharInfo,
}

impl<'a, 'src> Peeked<'a, 'src> {
    /// The guarded character.
    #[inline]
    pub fn ch(&self) -> (r: char)
        ensures
            r == self.unit.ch,
    {
        self.unit.ch
    }

    /// The guarded character with its length and source.
    #[inline]
    pub fn unit(&self) -> (r: CharInfo)
        ensures
            r == self.unit,
    {
        self.unit
    }

    /// Consumes the guarded character (see [`Scanner::consume`]).
    #[inline]
    pub fn consume(self) -> (r: CharInfo)
        requires
            old(self.scanner).wf(),
            old(self.scanner).next_unit() == Some(self.unit),
        ensures
            r == self.unit,
            consume_post(*old(self.scanner), *final(self.scanner), Some(r)),
    {
        match self.scanner.consume() {
            Some(u) => u,
            None => vstd::pervasive::unreached(),
        }
    }

    /// Skips the guarded character (see [`Scanner::skip`]).
    #[inline]
    pub fn skip(self) -> (r: CharInfo)
        requires
            old(self.scanner).wf(),
            old(self.scanner).next_unit() == Some(self.unit),
        ensures
            r == self.unit,
            skip_post(*old(self.scanner), *final(self.scanner), Some(r)),
    {
        match self.scanner.skip() {
            Some(u) => u,
            None => vstd::pervasive::unreached(),
        }
    }

    /// Captures the guarded character as text into the token (switching it
    /// to owned accumulation), then advances.
    #[inline]
    pub fn capture_text(self) -> (r: CharInfo)
        requires
            old(self.scanner).wf(),
            old(self.scanner).next_unit() == Some(self.unit),
        ensures
            r == self.unit,
            final(self.scanner).wf(),
            stepped(*old(self.scanner), *final(self.scanner), Some(r)),
            final(self.scanner).anchor() == owned_anchor(old(self.scanner).anchor()),
            final(self.scanner).token_bytes() == old(self.scanner).scratch().bytes()
                + encode_scalar(r.ch as u32),
            final(self.scanner).scratch().is_raw() == old(self.scanner).scratch().is_raw(),
    {
        self.scanner.ensure_owned_without_prefix_copy();
        self.scanner.scratch.push_char(self.unit.ch);
        match self.scanner.step_input() {
            Some(u) => u,
            None => vstd::pervasive::unreached(),
        }
    }

    /// Captures the guarded character as raw bytes into the token (switching
    /// it to raw accumulation), then advances.
    #[inline]
    pub fn capture_raw(self) -> (r: CharInfo)
        requires
            old(self.scanner).wf(),
            old(self.scanner).next_unit() == Some(self.unit),
        ensures
            r == self.unit,
            final(self.scanner).wf(),
            stepped(*old(self.scanner), *final(self.scanner), Some(r)),
            final(self.scanner).anchor() == raw_anchor(old(self.scanner).anchor()),
            final(self.scanner).token_bytes() == old(self.scanner).token_bytes() + encode_scalar(
                r.ch as u32,
            ),
            final(self.scanner).scratch().is_raw(),
    {
        let buf = self.scanner.ensure_raw();
        push_char_utf8(buf, self.unit.ch);
        match self.scanner.step_input() {
            Some(u) => u,
            None => vstd::pervasive::unreached(),
        }
    }
}

/// An ASCII byte is its own UTF-8 encoding.
pub proof fn lemma_ascii_encode(b: u8)
    requires
        b < 0x80,
    ensures
        encode_scalar((b as char) as u32) == seq![b],
        (b as char) as u32 == b as u32,
        valid_first_scalar(seq![b]),
{
    let x = b as u32;
    assert((x & 0x7F) == x) by (bit_vector)
        requires
            x < 0x80u32,
    ;
    assert(((x & 0x7F) as u8) == b);
}

/// The empty sequence encodes to no bytes.
pub proof fn lemma_encode_empty()
    ensures
        encode_utf8(Seq::<char>::empty()) == Seq::<u8>::empty(),
{
    assert(encode_utf8(Seq::<char>::empty()) =~= Seq::<u8>::empty());
}

/// A character sequence encodes to no bytes exactly when it is empty.
pub proof fn lemma_encode_len_zero(chars: Seq<char>)
    ensures
        (encode_utf8(chars).len() == 0) == (chars.len() == 0),
{
    if chars.len() == 0 {
        lemma_encode_empty();
        assert(chars =~= Seq::<char>::empty());
    } else {
        char_is_scalar(chars[0]);
        assert(encode_scalar(chars[0] as u32).len() > 0);
    }
}

/// `&text[start..end]` on byte offsets that are character boundaries.
pub fn str_slice<'a>(text: &'a str, start: usize, end: usize) -> (r: &'a str)
    requires
        start <= end <= text.spec_bytes().len(),
        is_char_boundary(text.spec_bytes(), start as int),
        is_char_boundary(text.spec_bytes(), end as int),
    ensures
        r.spec_bytes() == text.spec_bytes().subrange(start as int, end as int),
{
    let ghost bytes = text.spec_bytes();
    proof {
        lemma_char_boundary_suffix(bytes, start as int, end as int);
    }
    let (_, tail) = text.split_at(start);
    let (mid, _) = tail.split_at(end - start);
    assert(mid.spec_bytes() =~= bytes.subrange(start as int, end as int));
    mid
}

/// A character boundary of a valid sequence at or after `s` is a character
/// boundary of the suffix starting at `s` (a boundary itself).
pub proof fn lemma_char_boundary_suffix(bytes: Seq<u8>, s: int, e: int)
    requires
        valid_utf8(bytes),
        is_char_boundary(bytes, s),
        is_char_boundary(bytes, e),
        s <= e,
    ensures
        valid_utf8(bytes.subrange(s, bytes.len() as int)),
        is_char_boundary(bytes.subrange(s, bytes.len() as int), e - s),
    decreases bytes.len(),
{
    if s == 0 {
        assert(bytes.subrange(0, bytes.len() as int) =~= bytes);
    } else {
        let l0 = length_of_first_scalar(bytes);
        let tail = pop_first_scalar(bytes);
        assert(is_char_boundary(tail, s - l0));
        assert(is_char_boundary(tail, e - l0));
        if s - l0 < 0 {
            assert(false);
        }
        lemma_char_boundary_suffix(tail, s - l0, e - l0);
        assert(tail.subrange(s - l0, tail.len() as int) =~= bytes.subrange(s, bytes.len() as int));
    }
}

/// Advancing from a character boundary of a valid sequence over the first
/// scalar that follows lands on a character boundary.
pub proof fn lemma_char_boundary_advance(bytes: Seq<u8>, i: int)
    requires
        valid_utf8(bytes),
        is_char_boundary(bytes, i),
        0 <= i < bytes.len(),
    ensures
        valid_utf8(bytes.subrange(i, bytes.len() as int)),
        valid_first_scalar(bytes.subrange(i, bytes.len() as int)),
        is_char_boundary(bytes, i + length_of_first_scalar(bytes.subrange(i, bytes.len() as int))),
    decreases bytes.len(),
{
    if i == 0 {
        assert(bytes.subrange(0, bytes.len() as int) =~= bytes);
        let l0 = length_of_first_scalar(bytes);
        assert(is_char_boundary(pop_first_scalar(bytes), 0));
    } else {
        let l0 = length_of_first_scalar(bytes);
        let tail = pop_first_scalar(bytes);
        assert(is_char_boundary(tail, i - l0));
        if i - l0 < 0 {
            assert(false);
        }
        lemma_char_boundary_advance(tail, i - l0);
        assert(tail.subrange(i - l0, tail.len() as int) =~= bytes.subrange(i, bytes.len() as int));
    }
}

} // verus!
