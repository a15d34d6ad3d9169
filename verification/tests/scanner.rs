use jsonmodem::scanner::{Capture, Scanner, ScannerState, Source};

fn carry(ring_s: &str) -> ScannerState {
    let mut c = ScannerState::default();
    c.push_ring_bytes(ring_s.as_bytes());
    c
}

#[test]
fn number_borrowed_when_fully_in_batch() {
    let batch = "12345,";
    let mut s = Scanner::from_state(carry(""), batch);
    s.ensure_anchor_started();
    // copy ASCII digits fast from batch
    let n = s.consume_while_ascii(|b| (b as char).is_ascii_digit());
    assert_eq!(n, 5);
    match s.emit() {
        Capture::Borrowed(frag) => assert_eq!(frag, "12345"),
        other => panic!("expected borrowed, got {other:?}"),
    }
    // Delimiter still present in batch tail
    assert_eq!(s.peek().unwrap().ch, ',');
}

#[test]
fn number_owned_when_split_ring_then_batch() {
    let mut s = Scanner::from_state(carry("12"), "345,");
    s.ensure_anchor_started();
    // Source is Ring first, so the token starts owned.
    let copied_ring = s.consume_while_char(|c| c.is_ascii_digit());
    assert_eq!(copied_ring, 2);
    let copied_batch = s.consume_while_ascii(|b| (b as char).is_ascii_digit());
    assert_eq!(copied_batch, 3);
    match s.emit() {
        Capture::Owned(sv) => assert_eq!(sv, "12345"),
        other => panic!("expected owned, got {other:?}"),
    }
}

#[test]
fn key_string_borrowed_simple() {
    let batch = "abc\""; // closing quote included
    let mut s = Scanner::from_state(carry(""), batch);
    s.ensure_anchor_started();
    // Consume three ASCII letters, then emit final before quote
    s.consume_while_ascii(|b| (b as char).is_ascii_alphabetic());
    match s.emit() {
        Capture::Borrowed(f) => assert_eq!(f, "abc"),
        other => panic!("expected borrowed, got {other:?}"),
    }
    assert_eq!(s.peek().unwrap().ch, '"');
    let _ = s.skip();
}

#[test]
fn key_string_switches_to_owned_on_escape_prefix_copy_once() {
    // abc\x (simulate encountering a backslash after reading abc)
    let batch = "abc\\rest";
    let mut s = Scanner::from_state(carry(""), batch);
    s.ensure_anchor_started();
    s.consume_while_ascii(|b| (b as char).is_ascii_alphabetic()); // abc
    // Encounter escape: copy the prefix into the scratch and become owned
    s.switch_to_owned_prefix_if_needed();
    // After escape handling the lexer would append the decoded unit
    s.push_char('X');
    // Skip the backslash
    let _ = s.skip();
    // Continue reading remaining letters
    s.consume_while_ascii(|b| (b as char).is_ascii_alphabetic()); // rest
    match s.emit() {
        Capture::Owned(v) => assert_eq!(v, "abcXrest"),
        other => panic!("expected owned text, got {other:?}"),
    }
}

#[test]
fn raw_allowed_for_keys_reported_as_raw() {
    let batch = "A\""; // A followed by closing quote
    let mut s = Scanner::from_state(carry(""), batch);
    s.ensure_anchor_started();
    s.consume_while_ascii(|b| (b as char).is_ascii_alphabetic()); // 'A'
    // Switch to raw (e.g., due to an unpaired surrogate escape)
    s.ensure_raw();
    match s.emit() {
        Capture::Raw(bytes) => {
            assert_eq!(bytes, b"A");
        }
        other => panic!("expected raw, got {other:?}"),
    }
    assert_eq!(s.peek().unwrap().ch, '"');
    let _ = s.skip();
}

#[test]
fn finish_preserves_key_prefix_and_unread_tail() {
    // batch: key prefix 'ab' read; the session ends before more input
    let batch = "abXYZ"; // we read only 'ab'
    let mut s = Scanner::from_state(carry(""), batch);
    s.ensure_anchor_started();
    s.consume_while_ascii(|b| (b as char).is_ascii_lowercase()); // 'ab'
    let carry = s.finish();
    // Prefix 'ab' must be preserved into scratch; unread tail pushed to ring
    assert_eq!(carry.test_scratch_text(), Some("ab"));
    // Unread tail is "XYZ"
    assert_eq!(carry.test_ring_bytes(), b"XYZ".to_vec());
}

#[test]
fn utf8_multibyte_borrow_and_end_adjust_for_keys_and_values() {
    let s1 = "å\""; // simple single multibyte char key
    let mut sess = Scanner::from_state(carry(""), s1);
    sess.ensure_anchor_started();
    // Advance over å
    let _ = sess.consume();
    match sess.emit() {
        Capture::Borrowed(t) => assert_eq!(t, "å"),
        other => panic!("expected borrowed 'å', got {other:?}"),
    }
    assert_eq!(sess.peek().unwrap().ch, '"');
    let _ = sess.skip();

    // Mixed ASCII and non-ASCII for value, with borrow across entire batch
    let s2 = "abcÅdef\""; // Å is non-ASCII
    let mut sess = Scanner::from_state(carry(""), s2);
    sess.ensure_anchor_started();
    sess.consume_while_ascii(|b| (b as char).is_ascii()); // 'abc'
    let _ = sess.consume(); // 'Å'
    sess.consume_while_ascii(|b| (b as char).is_ascii_alphabetic()); // 'def'
    match sess.emit() {
        Capture::Borrowed(t) => assert_eq!(t, "abcÅdef"),
        other => panic!("expected borrowed 'abcÅdef', got {other:?}"),
    }
    assert_eq!(sess.peek().unwrap().ch, '"');
    let _ = sess.skip();
}

#[test]
fn empty_key_and_value_strings_borrow_correctly() {
    // Key: ""
    let mut s = Scanner::from_state(carry(""), "\"");
    s.ensure_anchor_started();
    match s.emit() {
        Capture::Borrowed(t) => assert_eq!(t, ""),
        other => panic!("expected borrowed empty key, got {other:?}"),
    }
    assert_eq!(s.peek().unwrap().ch, '"');
    let _ = s.skip();

    // Value: ""
    let mut s = Scanner::from_state(carry(""), "\"");
    s.ensure_anchor_started();
    match s.emit() {
        Capture::Borrowed(t) => assert_eq!(t, ""),
        other => panic!("expected borrowed empty value, got {other:?}"),
    }
    assert_eq!(s.peek().unwrap().ch, '"');
    let _ = s.skip();
}

#[test]
fn switch_to_owned_prefix_is_idempotent_and_no_duplication() {
    let batch = "abcdef";
    let mut s = Scanner::from_state(carry(""), batch);
    s.ensure_anchor_started();
    s.consume_while_ascii(|b| (b as char).is_ascii()); // all
    // Copy prefix twice; second call must be a no-op
    s.switch_to_owned_prefix_if_needed();
    s.switch_to_owned_prefix_if_needed();
    match s.emit() {
        Capture::Owned(t) => assert_eq!(t, "abcdef"),
        other => panic!("expected owned text without duplication, got {other:?}"),
    }
}

#[test]
fn numbers_borrow_exclude_delimiters_and_peek_delim() {
    // delimiter comma
    let mut s = Scanner::from_state(carry(""), "12345,");
    s.ensure_anchor_started();
    s.consume_while_ascii(|b| (b as char).is_ascii_digit());
    match s.emit() {
        Capture::Borrowed(t) => assert_eq!(t, "12345"),
        other => panic!("expected borrowed number, got {other:?}"),
    }
    assert_eq!(s.peek().unwrap().ch, ',');

    // delimiter ]
    let mut s = Scanner::from_state(carry(""), "678]");
    s.ensure_anchor_started();
    s.consume_while_ascii(|b| (b as char).is_ascii_digit());
    match s.emit() {
        Capture::Borrowed(t) => assert_eq!(t, "678"),
        other => panic!("expected borrowed number, got {other:?}"),
    }
    assert_eq!(s.peek().unwrap().ch, ']');
}

#[test]
fn raw_hint_matches_decode_mode_for_keys() {
    let mut s = Scanner::from_state(carry(""), "A\"");
    s.ensure_anchor_started();
    s.consume_while_ascii(|b| (b as char).is_ascii_alphabetic());
    s.ensure_raw();
    match s.emit() {
        Capture::Raw(_) => (),
        other => panic!("expected raw, got {other:?}"),
    }
    assert_eq!(s.peek().unwrap().ch, '"');
    let _ = s.skip();

    let mut s = Scanner::from_state(carry(""), "A\"");
    s.ensure_anchor_started();
    s.consume_while_ascii(|b| (b as char).is_ascii_alphabetic());
    s.ensure_raw();
}

#[test]
fn surrogate_flags_round_trip_in_carryover() {
    // Surrogate pairing state is owned by the parser; the scanner state does
    // not track it.
    let s = Scanner::from_state(carry(""), "");
    let _ = s.finish();
}

#[test]
fn try_borrow_fails_after_escape_or_raw_or_owned() {
    let batch = "abcdef\""; // ensure batch has content + closing quote
    // had_escape
    let mut s = Scanner::from_state(carry(""), batch);
    s.ensure_anchor_started();
    s.consume_while_ascii(|b| (b as char).is_ascii_alphabetic());
    s.switch_to_owned_prefix_if_needed();
    assert!(s.try_borrow_slice().is_none());

    // is_raw
    let mut s = Scanner::from_state(carry(""), batch);
    s.ensure_anchor_started();
    s.consume_while_ascii(|b| (b as char).is_ascii_alphabetic());
    s.ensure_raw();
    assert!(s.try_borrow_slice().is_none());

    // owned=true
    let mut s = Scanner::from_state(carry(""), batch);
    s.ensure_anchor_started();
    s.consume_while_ascii(|b| (b as char).is_ascii_alphabetic());
    s.switch_to_owned_prefix_if_needed();
    assert!(s.try_borrow_slice().is_none());
}

#[test]
fn ensure_raw_is_idempotent_and_preserves_prefix() {
    let batch = "AB\"";
    let mut s = Scanner::from_state(carry(""), batch);
    s.ensure_anchor_started();
    s.consume_while_ascii(|b| (b as char).is_ascii_alphabetic()); // AB
    s.ensure_raw();
    s.ensure_raw(); // second call should be a no-op
    match s.emit() {
        Capture::Raw(bytes) => assert_eq!(bytes, b"AB"),
        other => panic!("expected raw, got {other:?}"),
    }
    assert_eq!(s.peek().unwrap().ch, '"');
    let _ = s.skip();
}

#[test]
fn value_fragment_partial_and_final_borrowing() {
    let batch = "abcDEF\""; // own 'abc', then continue owned with 'DEF'
    let mut s = Scanner::from_state(carry(""), batch);
    s.ensure_anchor_started();
    s.consume_while_ascii(|b| (b as char).is_ascii_lowercase()); // 'abc'
    s.switch_to_owned_prefix_if_needed();
    if let Some(Capture::Owned(t)) = s.emit_partial() {
        assert_eq!(t, "abc");
    } else {
        panic!("expected owned partial")
    }
    s.consume_while_ascii(|b| (b as char).is_ascii_uppercase());
    match s.emit() {
        Capture::Owned(t) => assert_eq!(t, "DEF"),
        other => panic!("expected owned final (continued owned mode), got {other:?}"),
    }
    assert_eq!(s.peek().unwrap().ch, '"');
    let _ = s.skip();
}

#[test]
fn newline_updates_positions_across_ring_and_batch() {
    // Put a newline in ring and another in batch; ensure line/col advance.
    let carry = {
        let mut c = ScannerState::default();
        c.push_ring_bytes(b"A\n");
        c
    };
    let mut s = Scanner::from_state(carry, "B\nC");
    assert_eq!(s.debug_positions().1, 1);
    assert_eq!(s.debug_positions().2, 1);
    // Consume 'A' (ring)
    let _ = s.skip();
    assert_eq!(s.debug_positions().1, 1);
    assert_eq!(s.debug_positions().2, 2);
    // Consume '\n' (ring)
    let _ = s.skip();
    assert_eq!(s.debug_positions().1, 2);
    assert_eq!(s.debug_positions().2, 1);
    // Now from batch: 'B'
    let _ = s.skip();
    assert_eq!(s.debug_positions().1, 2);
    assert_eq!(s.debug_positions().2, 2);
    // '\n'
    let _ = s.skip();
    assert_eq!(s.debug_positions().1, 3);
    assert_eq!(s.debug_positions().2, 1);
}

// ---------------------------------------------------------------------------
// Further behaviour of the scanner.

#[test]
fn ring_then_batch_sources_are_reported() {
    let mut s = Scanner::from_state(carry("x"), "y");
    assert_eq!(s.cur_source(), Source::Ring);
    assert_eq!(s.peek().unwrap().source, Source::Ring);
    let _ = s.skip();
    assert_eq!(s.cur_source(), Source::Batch);
    assert_eq!(s.peek().unwrap().ch, 'y');
    let _ = s.skip();
    assert!(s.peek().is_none());
}

#[test]
fn multibyte_char_split_is_decoded_from_ring_window() {
    // "é" is C3 A9; the whole encoding sits in the ring.
    let mut s = Scanner::from_state(carry("é"), "");
    let u = s.peek().unwrap();
    assert_eq!(u.ch, 'é');
    assert_eq!(u.ch_len, 2);
    let _ = s.consume();
    match s.emit() {
        Capture::Owned(t) => assert_eq!(t, "é"),
        other => panic!("expected owned, got {other:?}"),
    }
}

#[test]
fn invalid_ring_bytes_decode_as_replacement() {
    let mut c = ScannerState::default();
    c.push_ring_bytes(&[0xFF, b'a']);
    let mut s = Scanner::from_state(c, "");
    let u = s.peek().unwrap();
    assert_eq!(u.ch, '\u{FFFD}');
    assert_eq!(u.ch_len, 1);
    let _ = s.skip();
    assert_eq!(s.peek().unwrap().ch, 'a');
}

#[test]
fn truncated_four_byte_sequence_is_one_replacement() {
    let mut c = ScannerState::default();
    c.push_ring_bytes(&[0xF0, 0x90, 0x80, b'a']);
    let mut s = Scanner::from_state(c, "");
    let u = s.peek().unwrap();
    assert_eq!(u.ch, '\u{FFFD}');
    assert_eq!(u.ch_len, 3);
    let _ = s.skip();
    assert_eq!(s.peek().unwrap().ch, 'a');
}

#[test]
fn emit_partial_borrows_then_acknowledges() {
    let mut s = Scanner::from_state(carry(""), "abc");
    s.ensure_anchor_started();
    s.consume_while_ascii(|b| b.is_ascii_alphabetic());
    match s.emit_partial() {
        Some(Capture::Borrowed(t)) => assert_eq!(t, "abc"),
        other => panic!("expected borrowed partial, got {other:?}"),
    }
    // The emitted part is not emitted again.
    assert!(s.emit_partial().is_none());
    let carry = s.finish();
    assert_eq!(carry.test_scratch_text(), Some(""));
}

#[test]
fn finish_then_resume_continues_token_owned() {
    let mut s = Scanner::from_state(carry(""), "12");
    s.ensure_anchor_started();
    s.consume_while_ascii(|b| b.is_ascii_digit());
    let state = s.finish();
    assert_eq!(state.test_scratch_text(), Some("12"));
    assert_eq!(state.test_positions(), (2, 1, 3));
    let mut s = Scanner::from_state(state, "34,");
    s.ensure_anchor_started();
    s.consume_while_ascii(|b| b.is_ascii_digit());
    match s.emit() {
        Capture::Owned(t) => assert_eq!(t, "1234"),
        other => panic!("expected owned, got {other:?}"),
    }
    assert_eq!(s.peek().unwrap().ch, ',');
}

#[test]
fn skip_inside_token_is_selective_capture() {
    // Skipping marks the token owned without copying the prefix read so far.
    let mut s = Scanner::from_state(carry(""), "ab\\nc");
    let _ = s.consume(); // a
    let _ = s.consume(); // b
    let _ = s.skip(); // backslash
    assert!(s.try_borrow_slice().is_none());
    let _ = s.skip(); // n
    s.push_char('\n');
    let _ = s.consume(); // c
    match s.emit() {
        Capture::Owned(t) => assert_eq!(t, "\nc"),
        other => panic!("expected owned, got {other:?}"),
    }
}

#[test]
fn skip_after_owned_switch_keeps_the_prefix() {
    let mut s = Scanner::from_state(carry(""), "ab\\nc");
    let _ = s.consume(); // a
    let _ = s.consume(); // b
    s.switch_to_owned_prefix_if_needed();
    let _ = s.skip(); // backslash
    let _ = s.skip(); // n
    s.push_char('\n');
    let _ = s.consume(); // c
    match s.emit() {
        Capture::Owned(t) => assert_eq!(t, "ab\nc"),
        other => panic!("expected owned, got {other:?}"),
    }
}

#[test]
fn peek_guard_consume_and_capture() {
    let mut s = Scanner::from_state(carry(""), "xyz");
    {
        let g = s.peek_guard().unwrap();
        assert_eq!(g.ch(), 'x');
        let u = g.consume();
        assert_eq!(u.ch, 'x');
    }
    {
        let g = s.peek_guard().unwrap();
        assert_eq!(g.unit().ch, 'y');
        g.capture_raw();
    }
    {
        let g = s.peek_guard().unwrap();
        g.capture_text();
    }
    match s.emit() {
        Capture::Raw(b) => assert_eq!(b, b"xyz"),
        other => panic!("expected raw, got {other:?}"),
    }
    assert!(s.peek_guard().is_none());
}

#[test]
fn push_and_append_switch_to_owned() {
    let mut s = Scanner::from_state(carry(""), "ab");
    s.consume_while_ascii(|b| b == b'a');
    s.push_text("-");
    s.append_text("+");
    let _ = s.consume();
    s.acknowledge_partial_borrow();
    match s.emit() {
        Capture::Owned(t) => assert_eq!(t, "a-+b"),
        other => panic!("expected owned, got {other:?}"),
    }
    let mut s = Scanner::from_state(carry(""), "");
    s.push_raw_bytes(&[0xED, 0xA0, 0x80]);
    s.append_raw_bytes(b"z");
    match s.emit() {
        Capture::Raw(b) => assert_eq!(b, vec![0xED, 0xA0, 0x80, b'z']),
        other => panic!("expected raw, got {other:?}"),
    }
}

#[test]
fn scanner_state_helpers() {
    let mut st = ScannerState::default();
    st.append_scratch_text("hé");
    st.set_positions(7, 2, 3);
    assert_eq!(st.test_positions(), (7, 2, 3));
    assert_eq!(st.debug_scratch_bytes(), "hé".as_bytes().to_vec());
    assert_eq!(st.test_scratch_raw(), None);
    st.push_ring_bytes(b"q");
    assert_eq!(st.debug_ring_bytes(), b"q".to_vec());
    let s = Scanner::from_state(st, "");
    assert_eq!(s.debug_cur_source(), Source::Ring);
}
