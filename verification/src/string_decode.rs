//! The meaning of the body of a JSON string literal (the text between its
//! quotes): plain characters stand for themselves, backslash escapes for
//! the characters they name, and `\u` escapes for code points, a high and
//! a low surrogate escape together standing for one supplementary
//! character.
use vstd::prelude::*;
use crate::escape_buffer::{hex_value, is_hex_digit, is_unicode_scalar};

verus! {

/// Where the reader of a string body stands.
pub enum EscapeState {
    /// Outside any escape.
    Body,
    /// After a backslash.
    Escape,
    /// Inside a `\u` escape, after the given hexadecimal digits.
    Unicode(Seq<char>),
}

/// The reader's state: the text decoded so far, where it stands, and a high
/// surrogate escape awaiting its low half.
pub struct DecodeState {
    pub decoded: Seq<char>,
    pub escape: EscapeState,
    pub pending: Option<nat>,
}

/// The character that a one-letter escape names.
pub open spec fn simple_escape(c: char) -> Option<char> {
    if c == '"' || c == '\\' || c == '/' {
        Some(c)
    } else if c == 'b' {
        Some('\u{8}')
    } else if c == 'f' {
        Some('\u{C}')
    } else if c == 'n' {
        Some('\n')
    } else if c == 'r' {
        Some('\r')
    } else if c == 't' {
        Some('\t')
    } else {
        None
    }
}

/// Whether `c` may stand unescaped in a string body.
pub open spec fn is_plain(c: char) -> bool {
    c != '\\' && c != '"' && c >= '\u{20}'
}

/// The code point of a surrogate pair.
pub open spec fn combine_surrogates(high: nat, low: nat) -> nat {
    (0x10000 + (high - 0xD800) * 1024 + (low - 0xDC00)) as nat
}

/// Reads one more character; `None` when the body is invalid there.
pub open spec fn decode_step(st: DecodeState, c: char) -> Option<DecodeState> {
    match st.escape {
        EscapeState::Body => if c == '\\' {
            Some(DecodeState { escape: EscapeState::Escape, ..st })
        } else if !is_plain(c) || st.pending is Some {
            None
        } else {
            Some(DecodeState { decoded: st.decoded.push(c), ..st })
        },
        EscapeState::Escape => if c == 'u' {
            Some(DecodeState { escape: EscapeState::Unicode(Seq::empty()), ..st })
        } else {
            match simple_escape(c) {
                Some(d) => Some(
                    DecodeState { decoded: st.decoded.push(d), escape: EscapeState::Body, ..st },
                ),
                None => None,
            }
        },
        EscapeState::Unicode(ds) => if !is_hex_digit(c) {
            None
        } else if ds.len() < 3 {
            Some(DecodeState { escape: EscapeState::Unicode(ds.push(c)), ..st })
        } else {
            let code = hex_value(ds.push(c));
            if is_unicode_scalar(code) {
                if st.pending is Some {
                    None
                } else {
                    Some(
                        DecodeState {
                            decoded: st.decoded.push((code as u32) as char),
                            escape: EscapeState::Body,
                            pending: None,
                        },
                    )
                }
            } else if code <= 0xDBFF {
                Some(DecodeState { escape: EscapeState::Body, pending: Some(code), ..st })
            } else {
                match st.pending {
                    Some(h) => Some(
                        DecodeState {
                            decoded: st.decoded.push(
                                (combine_surrogates(h, code) as u32) as char,
                            ),
                            escape: EscapeState::Body,
                            pending: None,
                        },
                    ),
                    None => None,
                }
            }
        },
    }
}

/// The state after reading `raw` from the start of a body.
pub open spec fn decode_run(raw: Seq<char>) -> Option<DecodeState>
    decreases raw.len(),
{
    if raw.len() == 0 {
        Some(
            DecodeState { decoded: Seq::empty(), escape: EscapeState::Body, pending: None },
        )
    } else {
        match decode_run(raw.drop_last()) {
            None => None,
            Some(st) => decode_step(st, raw.last()),
        }
    }
}

/// The text a complete string body stands for: the body reads through,
/// ending outside any escape with no surrogate awaiting its pair.
pub open spec fn decode_string_body(raw: Seq<char>) -> Option<Seq<char>> {
    match decode_run(raw) {
        Some(st) => if st.escape is Body && st.pending is None {
            Some(st.decoded)
        } else {
            None
        },
        None => None,
    }
}

/// Reading one more character takes one step.
pub proof fn lemma_decode_push(raw: Seq<char>, c: char)
    ensures
        decode_run(raw.push(c)) == match decode_run(raw) {
            None => None,
            Some(st) => decode_step(st, c),
        },
{
    assert(raw.push(c).drop_last() =~= raw);
}

/// Plain characters outside escapes, with no surrogate pending, are
/// decoded as themselves.
pub proof fn lemma_decode_plain(raw: Seq<char>, run: Seq<char>, st: DecodeState)
    requires
        decode_run(raw) == Some(st),
        st.escape is Body,
        st.pending is None,
        forall|i: int| 0 <= i < run.len() ==> is_plain(#[trigger] run[i]),
    ensures
        decode_run(raw + run) == Some(DecodeState { decoded: st.decoded + run, ..st }),
    decreases run.len(),
{
    if run.len() == 0 {
        assert(raw + run =~= raw);
        assert(st.decoded + run =~= st.decoded);
    } else {
        let init = run.drop_last();
        assert forall|i: int| 0 <= i < init.len() implies is_plain(#[trigger] init[i]) by {
            assert(init[i] == run[i]);
        }
        lemma_decode_plain(raw, init, st);
        assert((raw + run).drop_last() =~= raw + init);
        assert((raw + run).last() == run[run.len() - 1]);
        assert(is_plain(run[run.len() - 1]));
        assert((st.decoded + init).push(run.last()) =~= st.decoded + run);
    }
}

} // verus!
