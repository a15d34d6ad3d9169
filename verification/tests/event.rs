use jsonmodem::event::{ParseEvent, PathComponent, PathComponentFrom, is_false};

#[test]
fn size_of_path_component() {
    assert_eq!(std::mem::size_of::<PathComponent>(), 24);
}

#[test]
fn path_component_accessors() {
    let k = PathComponent::Key("foo".to_string());
    let i = PathComponent::Index(3);
    assert_eq!(k.as_key(), Some(&"foo".to_string()));
    assert_eq!(k.as_index(), None);
    assert_eq!(i.as_index(), Some(&3));
    assert_eq!(i.as_key(), None);
}

#[test]
fn path_components_from_values() {
    let p: Vec<PathComponent> = vec![
        PathComponent::from_path_component(0usize),
        PathComponent::from_path_component("foo"),
        PathComponent::from_path_component(2u32),
    ];
    assert_eq!(
        p,
        vec![PathComponent::Index(0), PathComponent::Key("foo".into()), PathComponent::Index(2)]
    );
    assert_eq!(PathComponent::from(7u8), PathComponent::Index(7));
    assert_eq!(PathComponent::from("k".to_string()), PathComponent::Key("k".into()));
}

#[test]
fn event_path_and_flags() {
    let e = ParseEvent::Null { path: vec![PathComponent::Index(1)] };
    assert_eq!(e.path(), &vec![PathComponent::Index(1)]);
    assert_eq!(ParseEvent::Null { path: Vec::new() }, ParseEvent::Null { path: Vec::new() });
    assert!(is_false(&false));
    assert!(!is_false(&true));
}
