use jsonmodem::error::{ErrorSource, ParserError, SyntaxError};
use jsonmodem::event::{ParseEvent, PathComponent};
use jsonmodem::options::{NonScalarValueMode, ParserOptions};
use jsonmodem::parser::StreamingParser;

fn key(k: &str) -> PathComponent {
    PathComponent::Key(k.to_string())
}

fn idx(i: usize) -> PathComponent {
    PathComponent::Index(i)
}

fn num(path: Vec<PathComponent>, v: &str) -> ParseEvent {
    ParseEvent::Number { path, value: v.to_string() }
}

fn frag(path: Vec<PathComponent>, f: &str, is_initial: bool, is_final: bool) -> ParseEvent {
    ParseEvent::String { path, fragment: f.to_string(), is_initial, is_final }
}

/// Feeds each chunk, draining events after each, then finishes and drains.
fn run(options: ParserOptions, chunks: &[&str]) -> Vec<Result<ParseEvent, ParserError>> {
    let mut parser = StreamingParser::new(options);
    let mut out = Vec::new();
    for chunk in chunks {
        parser.feed(chunk);
        while let Some(ev) = parser.next() {
            out.push(ev);
        }
    }
    let mut closed = parser.finish();
    while let Some(ev) = closed.next() {
        out.push(ev);
    }
    out
}

fn events(chunks: &[&str]) -> Vec<ParseEvent> {
    run(ParserOptions::default(), chunks)
        .into_iter()
        .map(|r| r.expect("no error expected"))
        .collect()
}

fn syntax(e: SyntaxError, line: usize, column: usize) -> ParserError {
    ParserError { source: ErrorSource::SyntaxError(e), line, column }
}

#[test]
fn object_with_array_of_scalars() {
    let evs = events(&[r#"{"key": [null, true, 3.14]}"#]);
    assert_eq!(
        evs,
        vec![
            ParseEvent::ObjectBegin { path: vec![] },
            ParseEvent::ArrayStart { path: vec![key("key")] },
            ParseEvent::Null { path: vec![key("key"), idx(0)] },
            ParseEvent::Boolean { path: vec![key("key"), idx(1)], value: true },
            num(vec![key("key"), idx(2)], "3.14"),
            ParseEvent::ArrayEnd { path: vec![key("key")] },
            ParseEvent::ObjectEnd { path: vec![] },
        ]
    );
}

#[test]
fn root_boolean_after_finish() {
    let mut parser = StreamingParser::new(ParserOptions::default());
    parser.feed("true");
    let mut closed = parser.finish();
    assert_eq!(
        closed.next().unwrap().unwrap(),
        ParseEvent::Boolean { path: vec![], value: true }
    );
    assert!(closed.next().is_none());
}

#[test]
fn literal_completes_without_delimiter() {
    let mut parser = StreamingParser::new(ParserOptions::default());
    parser.feed("nul");
    assert_eq!(parser.next(), None);
    parser.feed("l");
    assert_eq!(parser.next(), Some(Ok(ParseEvent::Null { path: vec![] })));
    assert_eq!(parser.next(), None);
}

#[test]
fn first_array_element_has_index_zero() {
    let evs = events(&["[\"a\"]"]);
    assert_eq!(evs[1], frag(vec![idx(0)], "a", true, true));
}

#[test]
fn nested_containers_paths() {
    let evs = events(&[r#"[{"a": [1, {"b": false}]}, 2]"#]);
    assert_eq!(
        evs,
        vec![
            ParseEvent::ArrayStart { path: vec![] },
            ParseEvent::ObjectBegin { path: vec![idx(0)] },
            ParseEvent::ArrayStart { path: vec![idx(0), key("a")] },
            num(vec![idx(0), key("a"), idx(0)], "1"),
            ParseEvent::ObjectBegin { path: vec![idx(0), key("a"), idx(1)] },
            ParseEvent::Boolean { path: vec![idx(0), key("a"), idx(1), key("b")], value: false },
            ParseEvent::ObjectEnd { path: vec![idx(0), key("a"), idx(1)] },
            ParseEvent::ArrayEnd { path: vec![idx(0), key("a")] },
            ParseEvent::ObjectEnd { path: vec![idx(0)] },
            num(vec![idx(1)], "2"),
            ParseEvent::ArrayEnd { path: vec![] },
        ]
    );
}

#[test]
fn multiple_root_values() {
    let opts = ParserOptions { allow_multiple_json_values: true, ..ParserOptions::default() };
    let evs: Vec<ParseEvent> = run(opts, &["1 2 [3]"]).into_iter().map(|r| r.unwrap()).collect();
    assert_eq!(
        evs,
        vec![
            num(vec![], "1"),
            num(vec![], "2"),
            ParseEvent::ArrayStart { path: vec![] },
            num(vec![idx(0)], "3"),
            ParseEvent::ArrayEnd { path: vec![] },
        ]
    );
}

#[test]
fn multiple_values_rejected_by_default() {
    let out = run(ParserOptions::default(), &["1 2"]);
    assert_eq!(out[0], Ok(num(vec![], "1")));
    assert_eq!(out[1], Err(syntax(SyntaxError::InvalidCharacter('2'), 1, 3)));
    assert_eq!(out.len(), 2);
}

#[test]
fn string_split_across_chunks_yields_fragments() {
    let evs = events(&["\"hel", "lo\""]);
    assert_eq!(
        evs,
        vec![frag(vec![], "hel", true, false), frag(vec![], "lo", false, true)]
    );
}

#[test]
fn key_split_across_chunks_is_whole() {
    let evs = events(&["{\"ke", "y\": 1}"]);
    assert_eq!(
        evs,
        vec![
            ParseEvent::ObjectBegin { path: vec![] },
            num(vec![key("key")], "1"),
            ParseEvent::ObjectEnd { path: vec![] },
        ]
    );
}

#[test]
fn number_split_across_chunks() {
    let evs = events(&["[12", "34.5e", "-6]"]);
    assert_eq!(evs[1], num(vec![idx(0)], "1234.5e-6"));
}

#[test]
fn literal_split_across_chunks() {
    let evs = events(&["[tr", "ue, nu", "ll]"]);
    assert_eq!(evs[1], ParseEvent::Boolean { path: vec![idx(0)], value: true });
    assert_eq!(evs[2], ParseEvent::Null { path: vec![idx(1)] });
}

#[test]
fn escapes_are_decoded() {
    let evs = events(&[r#""a\"\\\/\b\f\n\r\t\u00e9""#]);
    assert_eq!(evs, vec![frag(vec![], "a\"\\/\u{8}\u{c}\n\r\té", true, true)]);
}

#[test]
fn surrogate_pair_is_combined() {
    let evs = events(&[r#""\uD83D\uDE00""#]);
    assert_eq!(evs, vec![frag(vec![], "\u{1F600}", true, true)]);
}

#[test]
fn lone_low_surrogate_is_an_error() {
    let out = run(ParserOptions::default(), &[r#""\uDE00""#]);
    assert_eq!(out, vec![Err(syntax(SyntaxError::InvalidUnicodeEscapeSequence(0xDE00), 1, 8))]);
}

#[test]
fn unpaired_high_surrogate_is_an_error() {
    let out = run(ParserOptions::default(), &[r#""\uD83Dx""#]);
    assert_eq!(out, vec![Err(syntax(SyntaxError::InvalidUnicodeEscapeSequence(0xD83D), 1, 8))]);
}

#[test]
fn error_is_sticky() {
    let mut parser = StreamingParser::new(ParserOptions::default());
    parser.feed("[1 2]");
    assert_eq!(parser.next(), Some(Ok(ParseEvent::ArrayStart { path: vec![] })));
    assert_eq!(parser.next(), Some(Ok(num(vec![idx(0)], "1"))));
    assert_eq!(parser.next(), Some(Err(syntax(SyntaxError::InvalidCharacter('2'), 1, 4))));
    assert_eq!(parser.next(), None);
    parser.feed("2]");
    assert_eq!(parser.next(), None);
    let mut closed = parser.finish();
    assert_eq!(closed.next(), None);
}

#[test]
fn trailing_commas_are_accepted() {
    let evs = events(&["[1,]"]);
    assert_eq!(
        evs,
        vec![
            ParseEvent::ArrayStart { path: vec![] },
            num(vec![idx(0)], "1"),
            ParseEvent::ArrayEnd { path: vec![] },
        ]
    );
    let evs = events(&["{\"a\": 1,}"]);
    assert_eq!(evs.len(), 3);
}

#[test]
fn empty_input_is_unexpected_end() {
    let out = run(ParserOptions::default(), &[""]);
    assert_eq!(out, vec![Err(syntax(SyntaxError::UnexpectedEndOfInput, 1, 1))]);
}

#[test]
fn truncated_document_is_unexpected_end() {
    let out = run(ParserOptions::default(), &["{\"a\": 1"]);
    assert_eq!(out.last(), Some(&Err(syntax(SyntaxError::UnexpectedEndOfInput, 1, 8))));
}

#[test]
fn error_positions_follow_lines() {
    let out = run(ParserOptions::default(), &["{\n  \"a\": x}"]);
    assert_eq!(out.last(), Some(&Err(syntax(SyntaxError::InvalidCharacter('x'), 2, 8))));
}

#[test]
fn unicode_whitespace_needs_the_option() {
    let out = run(ParserOptions::default(), &["\u{a0}1"]);
    assert_eq!(out, vec![Err(syntax(SyntaxError::InvalidCharacter('\u{a0}'), 1, 1))]);
    let opts = ParserOptions { allow_unicode_whitespace: true, ..ParserOptions::default() };
    let out = run(opts, &["\u{feff}\u{a0}1\u{2028}"]);
    assert_eq!(out, vec![Ok(num(vec![], "1"))]);
}

#[test]
fn roots_mode_keeps_only_root_events() {
    let opts = ParserOptions { non_scalar_values: NonScalarValueMode::Roots, ..ParserOptions::default() };
    let evs: Vec<ParseEvent> = run(opts, &["[1, [2], {\"a\": 3}]"]).into_iter().map(|r| r.unwrap()).collect();
    assert_eq!(
        evs,
        vec![ParseEvent::ArrayStart { path: vec![] }, ParseEvent::ArrayEnd { path: vec![] }]
    );
}

#[test]
fn leading_zero_number_then_digit_is_an_error() {
    let out = run(ParserOptions::default(), &["[01]"]);
    assert_eq!(out[1], Ok(num(vec![idx(0)], "0")));
    assert_eq!(out[2], Err(syntax(SyntaxError::InvalidCharacter('1'), 1, 3)));
}

#[test]
fn decimal_point_then_exponent_is_a_number() {
    let evs = events(&["1.e5"]);
    assert_eq!(evs, vec![num(vec![], "1.e5")]);
}

#[test]
fn control_character_in_string_is_an_error() {
    let out = run(ParserOptions::default(), &["\"a\u{1}\""]);
    assert_eq!(out, vec![Err(syntax(SyntaxError::InvalidCharacter('\u{1}'), 1, 3))]);
}

#[test]
fn unicode_escape_cut_by_end_reports_next_column() {
    let out = run(ParserOptions::default(), &["\"\\u12"]);
    assert_eq!(out.last(), Some(&Err(syntax(SyntaxError::UnexpectedEndOfInput, 1, 7))));
}

#[test]
fn error_messages_render_source_and_position() {
    let e = syntax(SyntaxError::InvalidCharacter('x'), 2, 8);
    assert_eq!(e.message(), "syntax error: invalid character 'x' at 2:8");
    let e = syntax(SyntaxError::InvalidUnicodeEscapeSequence(0xDE00), 1, 7);
    assert_eq!(e.message(), "syntax error: invalid unicode escape sequence \\uDE00 at 1:7");
    assert_eq!(SyntaxError::UnexpectedEndOfInput.message(), "unexpected end of input");
    assert_eq!(
        SyntaxError::InvalidUnicodeEscapeChar('g').message(),
        "invalid unicode escape sequence at character: 'g'"
    );
    assert_eq!(SyntaxError::SyntaxError("custom").message(), "custom");
    assert_eq!(e.line(), 1);
    assert_eq!(e.column(), 7);
}

#[test]
fn string_fragments_concatenate_to_the_value() {
    let evs = events(&["[\"ab", "c\\n", "d\\u00", "41e\"]"]);
    let mut s = String::new();
    let mut saw_initial = 0;
    let mut saw_final = 0;
    for ev in &evs {
        if let ParseEvent::String { fragment, is_initial, is_final, path } = ev {
            assert_eq!(path, &vec![idx(0)]);
            s.push_str(fragment);
            saw_initial += *is_initial as usize;
            saw_final += *is_final as usize;
        }
    }
    assert_eq!(s, "abc\ndAe");
    assert_eq!((saw_initial, saw_final), (1, 1));
}

#[test]
fn string_fragments_decode_escapes_split_across_chunks() {
    let evs = events(&["{\"k\": \"x\\", "ud83d\\u", "de00y\\t", "\", \"z\": \"\"}"]);
    let mut values: Vec<(Vec<PathComponent>, String)> = Vec::new();
    for ev in &evs {
        if let ParseEvent::String { fragment, is_initial, path, .. } = ev {
            if *is_initial {
                values.push((path.clone(), String::new()));
            }
            values.last_mut().unwrap().1.push_str(fragment);
        }
    }
    assert_eq!(
        values,
        vec![(vec![key("k")], "x\u{1F600}y\t".to_string()), (vec![key("z")], String::new())]
    );
}

#[test]
fn container_events_follow_brackets_outside_strings() {
    let evs = events(&["[{\"a\": \"[{\"}, [", "]", "]"]);
    let mut depth: i64 = 0;
    let mut max_depth: i64 = 0;
    for ev in &evs {
        match ev {
            ParseEvent::ArrayStart { .. } | ParseEvent::ObjectBegin { .. } => depth += 1,
            ParseEvent::ArrayEnd { .. } | ParseEvent::ObjectEnd { .. } => depth -= 1,
            _ => {}
        }
        max_depth = max_depth.max(depth);
    }
    assert_eq!(depth, 0);
    assert_eq!(max_depth, 2);
    assert_eq!(
        evs,
        vec![
            ParseEvent::ArrayStart { path: vec![] },
            ParseEvent::ObjectBegin { path: vec![idx(0)] },
            frag(vec![idx(0), key("a")], "[{", true, true),
            ParseEvent::ObjectEnd { path: vec![idx(0)] },
            ParseEvent::ArrayStart { path: vec![idx(1)] },
            ParseEvent::ArrayEnd { path: vec![idx(1)] },
            ParseEvent::ArrayEnd { path: vec![] },
        ]
    );
}

#[test]
fn streaming_parser_smoke() {
    let mut parser = StreamingParser::new(ParserOptions::default());
    parser.feed("{\"a\":[1,2]}");
    while let Some(ev) = parser.next() {
        ev.unwrap();
    }
    let mut closed = parser.finish();
    while let Some(ev) = closed.next() {
        ev.unwrap();
    }
}

#[test]
fn end_where_a_value_is_expected_is_not_an_error() {
    for input in ["{\"a\":", "[", "[1,"] {
        let results = run(ParserOptions::default(), &[input]);
        assert!(results.iter().all(|r| r.is_ok()), "{input}: {results:?}");
    }
    let results = run(ParserOptions::default(), &["[1"]);
    assert_eq!(
        results.last().cloned(),
        Some(Err(syntax(SyntaxError::UnexpectedEndOfInput, 1, 3)))
    );
}

#[test]
fn escaped_text_parses_back_to_itself() {
    let original = "quote \" backslash \\ tab \t nl \n sep \u{2028} del \u{7f} é 😀";
    let literal = format!("\"{}\"", jsonmodem::escape::escape_string(original));
    let evs = events(&[&literal]);
    let mut text = String::new();
    for ev in &evs {
        if let ParseEvent::String { fragment, .. } = ev {
            text.push_str(fragment);
        }
    }
    assert_eq!(text, original);
}

#[test]
fn value_events_carry_the_slot_they_fill() {
    let evs = events(&["{\"a\": [null, {\"b\": true}], \"c\": 1}"]);
    assert_eq!(
        evs,
        vec![
            ParseEvent::ObjectBegin { path: vec![] },
            ParseEvent::ArrayStart { path: vec![key("a")] },
            ParseEvent::Null { path: vec![key("a"), idx(0)] },
            ParseEvent::ObjectBegin { path: vec![key("a"), idx(1)] },
            ParseEvent::Boolean { path: vec![key("a"), idx(1), key("b")], value: true },
            ParseEvent::ObjectEnd { path: vec![key("a"), idx(1)] },
            ParseEvent::ArrayEnd { path: vec![key("a")] },
            num(vec![key("c")], "1"),
            ParseEvent::ObjectEnd { path: vec![] },
        ]
    );
}

#[test]
fn number_split_across_chunks_is_one_whole_lexeme() {
    let evs = events(&["[1", "2", ".5e", "1, -", "0]"]);
    assert_eq!(
        evs,
        vec![
            ParseEvent::ArrayStart { path: vec![] },
            num(vec![idx(0)], "12.5e1"),
            num(vec![idx(1)], "-0"),
            ParseEvent::ArrayEnd { path: vec![] },
        ]
    );
}

#[test]
fn string_fed_whole_is_one_final_fragment() {
    let evs = events(&["[\"foo\"]"]);
    assert_eq!(
        evs,
        vec![
            ParseEvent::ArrayStart { path: vec![] },
            frag(vec![idx(0)], "foo", true, true),
            ParseEvent::ArrayEnd { path: vec![] },
        ]
    );
}
