use jsonmodem::buffers::{BufferedEvent, JsonModemBuffers};
use jsonmodem::event::PathComponent;
use jsonmodem::options::{BufferOptions, NonScalarMode, ParserOptions, StringBufferMode};
use jsonmodem::path_pattern::{
    PathPatternComponent, PathPatternError, parse_index, parse_path_pattern, path_matches_pattern,
    path_matches_patterns,
};

fn buffered(mode: StringBufferMode, chunks: &[&str]) -> Vec<BufferedEvent> {
    let opts = BufferOptions { string_buffer_mode: mode, non_scalar_mode: NonScalarMode::Off };
    let mut m = JsonModemBuffers::new(ParserOptions::default(), opts);
    let mut out = Vec::new();
    for c in chunks {
        m.feed(c);
        while let Some(e) = m.next() {
            out.push(e.unwrap());
        }
    }
    let mut closed = m.finish();
    while let Some(e) = closed.next() {
        out.push(e.unwrap());
    }
    out
}

fn values(evs: &[BufferedEvent]) -> Vec<Option<String>> {
    evs.iter()
        .filter_map(|e| match e {
            BufferedEvent::String { value, .. } => Some(value.clone()),
            _ => None,
        })
        .collect()
}

#[test]
fn values_mode_attaches_whole_string_on_final_fragment() {
    let evs = buffered(StringBufferMode::Values, &["[\"ab", "cd\", \"x\"]"]);
    assert_eq!(values(&evs), vec![None, Some("abcd".to_string()), Some("x".to_string())]);
}

#[test]
fn prefixes_mode_attaches_growing_prefix() {
    let evs = buffered(StringBufferMode::Prefixes, &["\"ab", "c", "d\""]);
    assert_eq!(
        values(&evs),
        vec![Some("ab".to_string()), Some("abc".to_string()), Some("abcd".to_string())]
    );
}

#[test]
fn off_mode_attaches_nothing() {
    let evs = buffered(StringBufferMode::Off, &["{\"k\": \"ab", "c\"}"]);
    assert_eq!(values(&evs), vec![None, None]);
    assert_eq!(evs[0], BufferedEvent::ObjectBegin { path: vec![] });
    assert_eq!(evs.last(), Some(&BufferedEvent::ObjectEnd { path: vec![] }));
}

#[test]
fn parse_index_follows_usize_parsing() {
    assert_eq!(parse_index("0"), Some(0));
    assert_eq!(parse_index("+12"), Some(12));
    assert_eq!(parse_index("+"), None);
    assert_eq!(parse_index(""), None);
    assert_eq!(parse_index("-1"), None);
    assert_eq!(parse_index("1a"), None);
    assert_eq!(parse_index("99999999999999999999999"), None);
    assert_eq!(parse_index(&usize::MAX.to_string()), Some(usize::MAX));
}

#[test]
fn path_patterns_parse_and_match() {
    let p = parse_path_pattern("items.*.3").unwrap();
    assert_eq!(
        p,
        vec![
            PathPatternComponent::Key("items".into()),
            PathPatternComponent::Wildcard,
            PathPatternComponent::Index(3),
        ]
    );
    assert_eq!(parse_path_pattern(""), Err(PathPatternError::Empty));
    assert_eq!(parse_path_pattern("a..b"), Err(PathPatternError::EmptyComponent));
    assert_eq!(parse_path_pattern("a."), Err(PathPatternError::EmptyComponent));
    let path = vec![
        PathComponent::Key("items".into()),
        PathComponent::Index(7),
        PathComponent::Index(3),
    ];
    assert!(path_matches_pattern(&path, &p));
    let other = parse_path_pattern("items.*").unwrap();
    assert!(!path_matches_pattern(&path, &other));
    let keyed = parse_path_pattern("items.7.x").unwrap();
    assert!(!path_matches_pattern(&path, &keyed));
    assert!(path_matches_patterns(&path, &vec![other.clone(), p.clone()]));
    assert!(!path_matches_patterns(&path, &vec![other]));
}
