use jsonmodem::decode::{ImBackend, RustDecodeMode, normalize_surrogates};
use jsonmodem::escape::{escape_string, write_escaped_string};
use jsonmodem::event::{ParseEvent, PathComponent};
use jsonmodem::lexical::NumberLexeme;
use jsonmodem::options::{
    BufferOptions, NonScalarMode, NonScalarValueMode, ParserOptions, StringBufferMode, ValuesOptions,
};
use jsonmodem::path_ctx::{PathError, PathKind, RustContext};
use jsonmodem::transition::{ContainerKind, ParserCursor, RootTransition, TransitionOutcome};
use jsonmodem::values::{ValueKind, ZipperError};
use jsonmodem::string_ranges::{ScanError, scan_string_range_table, skip_number};

#[test]
fn escape_quotes_backslashes_and_controls() {
    assert_eq!(escape_string("plain"), "plain");
    assert_eq!(escape_string("a\"b\\c"), "a\\\"b\\\\c");
    assert_eq!(escape_string("\n\u{1}\u{7f}\u{85}"), "\\u000A\\u0001\\u007F\\u0085");
    assert_eq!(escape_string("\u{2028}\u{2029}"), "\\u2028\\u2029");
    assert_eq!(escape_string("é😀/"), "é😀/");
    let mut out = String::from("x=");
    write_escaped_string("\t", &mut out);
    assert_eq!(out, "x=\\u0009");
}

#[test]
fn normalize_replaces_encoded_surrogates() {
    let bytes = [b'a', 0xED, 0xA0, 0x80, b'b', 0xED, 0x9F, 0xBF];
    assert_eq!(
        normalize_surrogates(&bytes),
        vec![b'a', 0xEF, 0xBF, 0xBD, b'b', 0xED, 0x9F, 0xBF]
    );
    assert_eq!(normalize_surrogates(&[0xED, 0xA0]), vec![0xED, 0xA0]);
}

#[test]
fn raw_strings_decode_per_mode() {
    let replace = ImBackend::new();
    assert_eq!(replace.decode_mode(), RustDecodeMode::ReplaceInvalid);
    assert_eq!(replace.new_str_raw_owned(vec![b'h', 0xED, 0xA0, 0x80, b'i']), "h\u{FFFD}i");
    let strict = ImBackend::new().with_decode_mode(RustDecodeMode::StrictUnicode);
    assert_eq!(strict.decode_mode(), RustDecodeMode::StrictUnicode);
    assert_eq!(strict.new_str_raw_owned("ok é".as_bytes().to_vec()), "ok é");
    assert_eq!(strict.new_str_raw_owned(vec![b'a', 0xFF]), "a\u{FFFD}");
    assert_eq!(ImBackend::default(), ImBackend::new());
}

#[test]
fn path_context_operations() {
    let mut cx = RustContext::new();
    let mut p = cx.frozen_new();
    assert_eq!(cx.last_kind(&p), None);
    assert_eq!(cx.bump_last_index(&mut p), Err(PathError::NotArrayFrame));
    cx.push_key_from_str(&mut p, "a");
    assert_eq!(cx.last_kind(&p), Some(PathKind::Key));
    assert_eq!(cx.bump_last_index(&mut p), Err(PathError::NotArrayFrame));
    cx.push_index_zero(&mut p);
    assert_eq!(cx.bump_last_index(&mut p), Ok(()));
    assert_eq!(p, vec![PathComponent::Key("a".into()), PathComponent::Index(1)]);
    let p = cx.freeze(p);
    let mut p = cx.thaw(p);
    assert_eq!(cx.pop_kind(&mut p), Some(PathKind::Index));
    assert_eq!(cx.pop_kind(&mut p), Some(PathKind::Key));
    assert_eq!(cx.pop_kind(&mut p), None);
}

#[test]
fn cursor_classifies_a_document() {
    let evs = vec![
        ParseEvent::ArrayStart { path: vec![] },
        ParseEvent::ObjectBegin { path: vec![PathComponent::Index(0)] },
        ParseEvent::String {
            path: vec![PathComponent::Index(0), PathComponent::Key("k".into())],
            fragment: "ab".into(),
            is_initial: true,
            is_final: false,
        },
        ParseEvent::String {
            path: vec![PathComponent::Index(0), PathComponent::Key("k".into())],
            fragment: "c".into(),
            is_initial: false,
            is_final: true,
        },
        ParseEvent::ObjectEnd { path: vec![PathComponent::Index(0)] },
        ParseEvent::Number { path: vec![PathComponent::Index(1)], value: "2".into() },
        ParseEvent::ArrayEnd { path: vec![] },
    ];
    let key = "k".to_string();
    let expected = vec![
        TransitionOutcome { transition: RootTransition::PushArray, completes_array_slot: false },
        TransitionOutcome {
            transition: RootTransition::StayArray { index: 0 },
            completes_array_slot: false,
        },
        TransitionOutcome {
            transition: RootTransition::StayObject { key: &key },
            completes_array_slot: false,
        },
        TransitionOutcome {
            transition: RootTransition::AppendString { is_final: true },
            completes_array_slot: false,
        },
        TransitionOutcome { transition: RootTransition::PopContainer, completes_array_slot: true },
        TransitionOutcome {
            transition: RootTransition::StayArray { index: 1 },
            completes_array_slot: true,
        },
        TransitionOutcome { transition: RootTransition::PopContainer, completes_array_slot: false },
    ];
    let mut cursor = ParserCursor::new();
    for (ev, want) in evs.iter().zip(expected.iter()) {
        assert_eq!(&cursor.classify_transition(ev), want);
    }
}

#[test]
fn cursor_root_scalar_and_unmatched_end() {
    let mut cursor = ParserCursor::default();
    let ev = ParseEvent::Null { path: vec![] };
    assert_eq!(
        cursor.classify_transition(&ev),
        TransitionOutcome { transition: RootTransition::StartRootScalar, completes_array_slot: false }
    );
    assert_eq!(
        cursor.finish_container(ContainerKind::Array),
        TransitionOutcome { transition: RootTransition::PopContainer, completes_array_slot: false }
    );
}

#[test]
fn number_lexemes_are_classified() {
    assert_eq!(NumberLexeme::classify("-12"), NumberLexeme::Integer("-12"));
    assert_eq!(NumberLexeme::classify("1.5"), NumberLexeme::Float("1.5"));
    assert_eq!(NumberLexeme::classify("1e3"), NumberLexeme::Float("1e3"));
    assert_eq!(NumberLexeme::classify("2E-1"), NumberLexeme::Float("2E-1"));
}

#[test]
fn option_defaults() {
    let o = ParserOptions::default();
    assert!(!o.allow_unicode_whitespace && !o.allow_multiple_json_values);
    assert_eq!(o.non_scalar_values, NonScalarValueMode::Off);
    let b = BufferOptions::default();
    assert_eq!(b.string_buffer_mode, StringBufferMode::Off);
    assert_eq!(b.non_scalar_mode, NonScalarMode::Off);
    assert_eq!(NonScalarValueMode::default(), NonScalarValueMode::Off);
    let v = ValuesOptions { partial: true };
    assert!(v.partial);
}

#[test]
fn zipper_error_messages_and_kinds() {
    assert_eq!(ZipperError::ExpectedObject.message(), "expected an object at the current path");
    assert_eq!(ZipperError::ExpectedNonEmptyPath.message(), "operation would pop past the root");
    assert_ne!(ValueKind::Null, ValueKind::Str);
}

#[test]
fn string_range_table_records_borrowable_values() {
    let doc = br#"{"k": "ab", "e": "a\n", "n": [1, -2.5e3, true, null, "x"]}"#;
    let t = scan_string_range_table(doc).unwrap();
    let mut want = Vec::new();
    for (s, e) in [(7u32, 9u32), (u32::MAX, u32::MAX), (54, 55)] {
        want.extend_from_slice(&s.to_le_bytes());
        want.extend_from_slice(&e.to_le_bytes());
    }
    assert_eq!(t, want);
    assert_eq!(scan_string_range_table(b"[1,]"), Err(ScanError::ArrayCloseNotValidHere));
    assert_eq!(scan_string_range_table(b"[1"), Err(ScanError::DocumentEndedEarly));
    assert_eq!(scan_string_range_table(b"1 2"), Err(ScanError::InvalidByte));
    assert_eq!(scan_string_range_table(b"\"a"), Err(ScanError::StringEndedEarly));
    assert_eq!(scan_string_range_table(b"\"\\u12g4\""), Err(ScanError::UnicodeEscapeNonHex));
    assert_eq!(scan_string_range_table(b"01"), Err(ScanError::InvalidByte));
    assert_eq!(scan_string_range_table(b"1."), Err(ScanError::FractionWithoutDigits));
    assert_eq!(scan_string_range_table(b"1e+"), Err(ScanError::ExponentWithoutDigits));
    assert_eq!(scan_string_range_table(b"nul"), Err(ScanError::InvalidLiteral));
    assert_eq!(scan_string_range_table(b"{\"a\" 1}"), Err(ScanError::InvalidByte));
    assert_eq!(scan_string_range_table(b"{1:2}"), Err(ScanError::InvalidByte));
    assert_eq!(scan_string_range_table(b"[:]"), Err(ScanError::ColonNotValidHere));
    assert_eq!(scan_string_range_table(b"[1}"), Err(ScanError::ObjectCloseNotValidHere));
    assert_eq!(scan_string_range_table(b"\"\x01\""), Err(ScanError::UnescapedControlByte));
    assert_eq!(scan_string_range_table(b" \"\" "), Ok(vec![2, 0, 0, 0, 2, 0, 0, 0]));
    assert_eq!(ScanError::InvalidByte.message(), "invalid byte in JSON input");
}

#[test]
fn rust_context_values() {
    let mut cx = RustContext::new();
    cx.new_null();
    assert!(cx.new_bool(true));
    assert_eq!(cx.new_str_owned("a".to_string()), "a");
    assert_eq!(cx.new_str_raw_owned(vec![b'x', 0xC0]), "x\u{FFFD}");
    assert_eq!(cx.new_str_raw_owned("ok".as_bytes().to_vec()), "ok");
}

#[test]
fn well_formed_raw_bytes_decode_unchanged_in_both_modes() {
    let text = "ascii é \u{2028} 😀";
    let strict = ImBackend::new().with_decode_mode(RustDecodeMode::StrictUnicode);
    let replace = ImBackend::new().with_decode_mode(RustDecodeMode::ReplaceInvalid);
    assert_eq!(strict.new_str_raw_owned(text.as_bytes().to_vec()), text);
    assert_eq!(replace.new_str_raw_owned(text.as_bytes().to_vec()), text);
    let mut ctx = RustContext::new();
    assert_eq!(ctx.new_str_raw_owned(text.as_bytes().to_vec()), text);
}

#[test]
fn skip_number_past_the_end_is_an_invalid_number() {
    assert_eq!(skip_number(b"12", 2), Err(ScanError::InvalidNumber));
    assert_eq!(skip_number(b"-", 0), Err(ScanError::InvalidNumber));
    assert_eq!(skip_number(b"-1.5e3,", 0), Ok(6));
}

#[test]
fn lone_surrogate_bytes_become_one_replacement_character() {
    let b = ImBackend::new();
    assert_eq!(b.new_str_raw_owned(vec![b'a', 0xED, 0xA0, 0x80, b'b']), "a\u{FFFD}b");
}
