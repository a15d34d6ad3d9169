use jsonmodem::event::ParseEvent;
use jsonmodem::options::ParserOptions;
use jsonmodem::parser::StreamingParser;
use jsonmodem::applicator::{AppliedRef, ValueApplicator};
use jsonmodem::event::PathComponent;
use jsonmodem::options::BufferOptions;
use jsonmodem::value_tree::{JsonValue, PartialValueBuilder, StreamingValue};

fn s(t: &str) -> String {
    t.to_string()
}

/// Parses the chunks and applies every event, collecting the values handed out.
fn values(chunks: &[&str], partial: bool) -> Vec<StreamingValue> {
    let mut options = ParserOptions::default();
    options.allow_multiple_json_values = true;
    let mut parser = StreamingParser::new(options);
    let mut builder = PartialValueBuilder::new(partial);
    let mut out = Vec::new();
    let mut events: Vec<ParseEvent> = Vec::new();
    for chunk in chunks {
        parser.feed(chunk);
        while let Some(ev) = parser.next() {
            events.push(ev.expect("no error expected"));
        }
        for ev in events.drain(..) {
            if let Some(v) = builder.apply_event(ev) {
                out.push(v);
            }
        }
    }
    let mut closed = parser.finish();
    while let Some(ev) = closed.next() {
        if let Some(v) = builder.apply_event(ev.expect("no error expected")) {
            out.push(v);
        }
    }
    out
}

#[test]
fn nested_value_is_handed_out_when_complete() {
    let out = values(&["{\"a\": [1, \"x", "y\"], \"b\": null, \"c\": {\"d\": true}}"], false);
    assert_eq!(
        out,
        vec![StreamingValue {
            index: 0,
            value: JsonValue::Object(vec![
                (s("a"), JsonValue::Array(vec![JsonValue::Number(s("1")), JsonValue::String(s("xy"))])),
                (s("b"), JsonValue::Null),
                (s("c"), JsonValue::Object(vec![(s("d"), JsonValue::Boolean(true))])),
            ]),
            is_final: true,
        }]
    );
}

#[test]
fn root_values_are_numbered() {
    // Each root scalar replaces the previous root value.
    let out = values(&["1 true null 2 "], false);
    assert_eq!(
        out,
        vec![
            StreamingValue { index: 0, value: JsonValue::Number(s("1")), is_final: true },
            StreamingValue { index: 1, value: JsonValue::Boolean(true), is_final: true },
            StreamingValue { index: 2, value: JsonValue::Null, is_final: true },
            StreamingValue { index: 3, value: JsonValue::Number(s("2")), is_final: true },
        ]
    );
}

#[test]
fn partial_root_string_grows() {
    let out = values(&["\"ab", "cd\""], true);
    assert_eq!(
        out,
        vec![
            StreamingValue { index: 0, value: JsonValue::String(s("ab")), is_final: false },
            StreamingValue { index: 0, value: JsonValue::String(s("abcd")), is_final: true },
        ]
    );
}

#[test]
fn object_members_are_kept_in_key_order() {
    let out = values(&["{\"b\": 1, \"a\": {\"z\": null, \"é\": 2, \"y\": 3}, \"ab\": true}"], false);
    assert_eq!(
        out,
        vec![StreamingValue {
            index: 0,
            value: JsonValue::Object(vec![
                (
                    s("a"),
                    JsonValue::Object(vec![
                        (s("y"), JsonValue::Number(s("3"))),
                        (s("z"), JsonValue::Null),
                        (s("é"), JsonValue::Number(s("2"))),
                    ])
                ),
                (s("ab"), JsonValue::Boolean(true)),
                (s("b"), JsonValue::Number(s("1"))),
            ]),
            is_final: true,
        }]
    );
}

#[test]
fn repeated_key_replaces_the_member() {
    let out = values(&["{\"a\": 1, \"a\": 2}"], false);
    assert_eq!(
        out,
        vec![StreamingValue {
            index: 0,
            value: JsonValue::Object(vec![(s("a"), JsonValue::Number(s("2")))]),
            is_final: true,
        }]
    );
}

#[test]
fn applicator_builds_the_document_from_parser_events() {
    let mut parser = StreamingParser::new(ParserOptions::default());
    let mut app = ValueApplicator::new(BufferOptions::default());
    parser.feed("{\"b\": [1, \"x");
    let mut reports = Vec::new();
    while let Some(ev) = parser.next() {
        reports.push(app.push(&ev.expect("no error expected")));
    }
    parser.feed("y\"], \"a\": null}");
    while let Some(ev) = parser.next() {
        reports.push(app.push(&ev.expect("no error expected")));
    }
    assert_eq!(
        app.read_root(),
        &JsonValue::Object(vec![
            (s("a"), JsonValue::Null),
            (s("b"), JsonValue::Array(vec![JsonValue::Number(s("1")), JsonValue::String(s("xy"))])),
        ])
    );
    assert_eq!(
        reports.last(),
        Some(&AppliedRef::ObjectEnd { path: vec![], leaf: app.take_root(), root_completed: true })
    );
    assert_eq!(app.read_root(), &JsonValue::Null);
}

#[test]
fn applicator_aligns_the_path() {
    let mut app = ValueApplicator::new(BufferOptions::default());
    let r = app.push(&ParseEvent::Boolean {
        path: vec![PathComponent::Key(s("k")), PathComponent::Index(2)],
        value: true,
    });
    assert_eq!(
        r,
        AppliedRef::Scalar {
            path: vec![PathComponent::Key(s("k")), PathComponent::Index(2)],
            leaf: JsonValue::Boolean(true),
        }
    );
    assert_eq!(
        app.read_root(),
        &JsonValue::Object(vec![(
            s("k"),
            JsonValue::Array(vec![JsonValue::Null, JsonValue::Null, JsonValue::Boolean(true)])
        )])
    );
    // A first fragment replaces the slot; later ones append.
    let path = vec![PathComponent::Key(s("k")), PathComponent::Index(0)];
    app.push(&ParseEvent::String { path: path.clone(), fragment: s("ab"), is_initial: true, is_final: false });
    let r = app.push(&ParseEvent::String { path: path.clone(), fragment: s("c"), is_initial: false, is_final: true });
    assert_eq!(
        r,
        AppliedRef::String {
            path: path.clone(),
            leaf: JsonValue::String(s("abc")),
            fragment: s("c"),
            is_initial: false,
            is_final: true,
            buffered: None,
        }
    );
    let r = app.push(&ParseEvent::ArrayEnd { path: vec![PathComponent::Key(s("k"))] });
    assert!(matches!(r, AppliedRef::ArrayEnd { root_completed: false, .. }));
}
