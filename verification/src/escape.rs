//! Escaping of text for embedding in JSON string literals.
use vstd::prelude::*;
use crate::text::string_push;
use vstd::std_specs::iter::IteratorSpec;
use crate::escape_buffer::{hex_digit_value, hex_value, is_hex_digit};
use crate::string_decode::{
    DecodeState, EscapeState, decode_run, decode_step, decode_string_body, lemma_decode_push,
};

verus! {

/// Whether `c` is written as a `\uXXXX` escape: the line and paragraph
/// separators, and the control characters (general category `Cc`).
pub open spec fn needs_unicode_escape(c: char) -> bool {
    ||| c == '\u{2028}'
    ||| c == '\u{2029}'
    ||| c <= '\u{1F}'
    ||| '\u{7F}' <= c <= '\u{9F}'
}

/// The uppercase hexadecimal digit of `d` (below 16).
pub open spec fn hex_digit_upper(d: nat) -> char {
    if d < 10 {
        ((d + 48) as u32) as char
    } else {
        ((d + 55) as u32) as char
    }
}

/// `\u` followed by the four uppercase hexadecimal digits of `v`
/// (below `0x10000`).
pub open spec fn unicode_escape(v: nat) -> Seq<char> {
    seq![
        '\\',
        'u',
        hex_digit_upper(v / 4096),
        hex_digit_upper((v / 256) % 16),
        hex_digit_upper((v / 16) % 16),
        hex_digit_upper(v % 16),
    ]
}

/// How one character is written inside a JSON string literal.
pub open spec fn escape_char(c: char) -> Seq<char> {
    if c == '"' {
        seq!['\\', '"']
    } else if c == '\\' {
        seq!['\\', '\\']
    } else if needs_unicode_escape(c) {
        unicode_escape(c as nat)
    } else {
        seq![c]
    }
}

/// How a text is written inside a JSON string literal: each character
/// escaped in turn.
pub open spec fn escape_text(s: Seq<char>) -> Seq<char>
    decreases s.len(),
{
    if s.len() == 0 {
        Seq::empty()
    } else {
        escape_text(s.drop_last()) + escape_char(s.last())
    }
}

fn push_hex_digit(f: &mut String, d: u32)
    requires
        d < 16,
    ensures
        final(f)@ == old(f)@.push(hex_digit_upper(d as nat)),
{
    let b: u8 = if d < 10 {
        (d as u8) + 48
    } else {
        (d as u8) + 55
    };
    string_push(f, b as char);
}

/// Appends the escaped form of `ch` to `f`.
fn write_escaped_char(ch: char, f: &mut String)
    ensures
        final(f)@ == old(f)@ + escape_char(ch),
{
    if ch == '"' {
        string_push(f, '\\');
        string_push(f, '"');
    } else if ch == '\\' {
        string_push(f, '\\');
        string_push(f, '\\');
    } else if ch == '\u{2028}' || ch == '\u{2029}' || ch <= '\u{1F}' || ('\u{7F}' <= ch && ch
        <= '\u{9F}') {
        let v = ch as u32;
        string_push(f, '\\');
        string_push(f, 'u');
        push_hex_digit(f, v / 4096);
        push_hex_digit(f, (v / 256) % 16);
        push_hex_digit(f, (v / 16) % 16);
        push_hex_digit(f, v % 16);
    } else {
        string_push(f, ch);
    }
    assert(final(f)@ =~= old(f)@ + escape_char(ch));
}

/// Writes the characters of `src` to `f`, escaped for a JSON string
/// literal: `"` and `\` are backslash-escaped; the line and paragraph
/// separators and the control characters become `\uXXXX`.
pub fn write_escaped_string(src: &str, f: &mut String)
    ensures
        final(f)@ == old(f)@ + escape_text(src@),
        decode_string_body(final(f)@.subrange(old(f)@.len() as int, final(f)@.len() as int))
            == Some(src@),
{
    let ghost start = f@;
    let ghost all = src@;
    let mut chars = src.chars();
    proof {
        broadcast use vstd::string::axiom_spec_iter;
    }
    let ghost mut taken: int = 0;
    loop
        invariant
            0 <= taken <= all.len(),
            chars.obeys_prophetic_iter_laws(),
            chars.remaining() == all.skip(taken),
            f@ == start + escape_text(all.take(taken)),
        ensures
            f@ == start + escape_text(all),
        decreases all.len() - taken,
    {
        let next = chars.next();
        proof {
            broadcast use vstd::string::next_postcondition;
        }
        match next {
            Some(c) => {
                proof {
                    assert(all.skip(taken)[0] == all[taken]);
                    assert(all.skip(taken).drop_first() == all.skip(taken + 1));
                    assert(all.take(taken + 1).drop_last() =~= all.take(taken));
                    assert(all.take(taken + 1).last() == c);
                }
                write_escaped_char(c, f);
                proof {
                    taken = taken + 1;
                }
            },
            None => {
                proof {
                    assert(all.skip(taken).len() == 0);
                    assert(all.take(taken) =~= all);
                }
                break ;
            },
        }
    }
    proof {
        assert(f@.subrange(start.len() as int, f@.len() as int) =~= escape_text(all));
        lemma_escape_round_trip(all);
    }
}

/// The escaped form of `src`, for embedding in a JSON string literal.
pub fn escape_string(src: &str) -> (r: String)
    ensures
        r@ == escape_text(src@),
        decode_string_body(r@) == Some(src@),
{
    let mut escaped = String::new();
    write_escaped_string(src, &mut escaped);
    proof {
        assert(escaped@ =~= escape_text(src@));
        lemma_escape_round_trip(src@);
    }
    escaped
}

/// An uppercase hexadecimal digit reads back as its value.
proof fn lemma_hex_digit_upper(d: nat)
    requires
        d < 16,
    ensures
        is_hex_digit(hex_digit_upper(d)),
        hex_digit_value(hex_digit_upper(d)) == d,
{
}

/// The four digits of a `\u` escape read back as the escaped value.
proof fn lemma_unicode_escape_digits(v: nat)
    requires
        v < 0x10000,
    ensures
        hex_value(unicode_escape(v).subrange(2, 6)) == v,
        forall|i: int| 2 <= i < 6 ==> is_hex_digit(#[trigger] unicode_escape(v)[i]),
{
    let d1 = v / 4096;
    let d2 = (v / 256) % 16;
    let d3 = (v / 16) % 16;
    let d4 = v % 16;
    assert(d1 < 16) by (nonlinear_arith)
        requires
            v < 0x10000,
            d1 == v / 4096,
    ;
    lemma_hex_digit_upper(d1);
    lemma_hex_digit_upper(d2);
    lemma_hex_digit_upper(d3);
    lemma_hex_digit_upper(d4);
    let ds = unicode_escape(v).subrange(2, 6);
    assert(ds.drop_last().drop_last().drop_last().drop_last() =~= Seq::<char>::empty());
    assert(ds.drop_last().drop_last().drop_last() =~= seq![hex_digit_upper(d1)]);
    assert(ds.drop_last().drop_last() =~= seq![hex_digit_upper(d1), hex_digit_upper(d2)]);
    assert(ds.drop_last() =~= seq![hex_digit_upper(d1), hex_digit_upper(d2), hex_digit_upper(d3)]);
    let s1 = ds.drop_last().drop_last().drop_last();
    let s2 = ds.drop_last().drop_last();
    let s3 = ds.drop_last();
    assert(hex_value(s1.drop_last()) == 0);
    assert(hex_value(s1) == d1);
    assert(hex_value(s2) == d1 * 16 + d2);
    assert(hex_value(s3) == (d1 * 16 + d2) * 16 + d3);
    assert(hex_value(ds) == ((d1 * 16 + d2) * 16 + d3) * 16 + d4);
    assert(((d1 * 16 + d2) * 16 + d3) * 16 + d4 == v) by (nonlinear_arith)
        requires
            v < 0x10000,
            d1 == v / 4096,
            d2 == (v / 256) % 16,
            d3 == (v / 16) % 16,
            d4 == v % 16,
    ;
}

/// Reading the escaped form of one character, from outside any escape with
/// nothing pending, decodes exactly that character.
proof fn lemma_decode_escape_char(raw: Seq<char>, decoded: Seq<char>, c: char)
    requires
        decode_run(raw) == Some(
            DecodeState { decoded, escape: EscapeState::Body, pending: None },
        ),
    ensures
        decode_run(raw + escape_char(c)) == Some(
            DecodeState { decoded: decoded.push(c), escape: EscapeState::Body, pending: None },
        ),
{
    let e = escape_char(c);
    if c == '"' || c == '\\' {
        lemma_decode_push(raw, '\\');
        lemma_decode_push(raw.push('\\'), c);
        assert(raw + e =~= raw.push('\\').push(c));
    } else if needs_unicode_escape(c) {
        let v = c as nat;
        assert(v < 0x10000);
        lemma_unicode_escape_digits(v);
        let r1 = raw.push('\\');
        let r2 = r1.push('u');
        let r3 = r2.push(e[2]);
        let r4 = r3.push(e[3]);
        let r5 = r4.push(e[4]);
        let r6 = r5.push(e[5]);
        lemma_decode_push(raw, '\\');
        lemma_decode_push(r1, 'u');
        lemma_decode_push(r2, e[2]);
        lemma_decode_push(r3, e[3]);
        lemma_decode_push(r4, e[4]);
        lemma_decode_push(r5, e[5]);
        let ds = e.subrange(2, 6);
        assert(is_hex_digit(e[2]) && is_hex_digit(e[3]) && is_hex_digit(e[4]) && is_hex_digit(e[5]));
        assert(seq![e[2]] =~= ds.subrange(0, 1));
        assert(seq![e[2], e[3]] =~= ds.subrange(0, 2));
        assert(seq![e[2], e[3], e[4]] =~= ds.subrange(0, 3));
        assert(seq![e[2], e[3], e[4]].push(e[5]) =~= ds);
        assert(Seq::<char>::empty().push(e[2]) =~= seq![e[2]]);
        assert(seq![e[2]].push(e[3]) =~= seq![e[2], e[3]]);
        assert(seq![e[2], e[3]].push(e[4]) =~= seq![e[2], e[3], e[4]]);
        assert(hex_value(ds) == v);
        assert((v as u32) as char == c);
        assert(raw + e =~= r6);
    } else {
        lemma_decode_push(raw, c);
        assert(raw + e =~= raw.push(c));
    }
}

/// Decoding the escaped form of a text gives the text back: the body that
/// the escaping writes is a complete string body standing for exactly the
/// text escaped.
pub proof fn lemma_escape_round_trip(s: Seq<char>)
    ensures
        decode_string_body(escape_text(s)) == Some(s),
        decode_run(escape_text(s)) == Some(
            DecodeState { decoded: s, escape: EscapeState::Body, pending: None },
        ),
    decreases s.len(),
{
    if s.len() == 0 {
        assert(decode_run(escape_text(s)) == decode_run(Seq::<char>::empty()));
        assert(s =~= Seq::<char>::empty());
    } else {
        lemma_escape_round_trip(s.drop_last());
        lemma_decode_escape_char(escape_text(s.drop_last()), s.drop_last(), s.last());
        assert(s.drop_last().push(s.last()) =~= s);
    }
}

} // verus!
