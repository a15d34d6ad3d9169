//! Types emitted by the streaming JSON parser.
//!
//! A [`PathComponent`] is a key or an index in a JSON path; a path is the
//! sequence of components from the root to a value. A [`ParseEvent`]
//! announces a value (or the start or end of a container) at a path.
use vstd::prelude::*;
use vstd::std_specs::convert::FromSpecImpl;

verus! {

/// A component in the path to a JSON value: an object key or an array index.
#[derive(Debug, Clone, PartialEq)]
pub enum PathComponent {
    Key(String),
    Index(usize),
}

/// The mathematical value of a path component.
pub enum PathItemView {
    Key(Seq<char>),
    Index(usize),
}

impl View for PathComponent {
    type V = PathItemView;

    open spec fn view(&self) -> PathItemView {
        match self {
            PathComponent::Key(k) => PathItemView::Key(k@),
            PathComponent::Index(i) => PathItemView::Index(*i),
        }
    }
}

/// The view of a path: its components' views.
pub open spec fn path_view(path: Seq<PathComponent>) -> Seq<PathItemView> {
    path.map_values(|c: PathComponent| c@)
}

/// The component kind names used by the parser.
pub type PathItem = PathComponent;

/// A path from the root to a value.
pub type Path = Vec<PathComponent>;

impl PathComponent {
    /// Returns the index if this component is an index, otherwise `None`.
    pub fn as_index(&self) -> (r: Option<&usize>)
        ensures
            match self {
                PathComponent::Index(i) => r == Some(i),
                PathComponent::Key(_) => r is None,
            },
    {
        if let PathComponent::Index(v) = self {
            Some(v)
        } else {
            None
        }
    }

    /// Returns the key if this component is a key, otherwise `None`.
    pub fn as_key(&self) -> (r: Option<&String>)
        ensures
            match self {
                PathComponent::Key(k) => r == Some(k),
                PathComponent::Index(_) => r is None,
            },
    {
        if let PathComponent::Key(v) = self {
            Some(v)
        } else {
            None
        }
    }

    /// A copy of the component with the same view.
    pub fn duplicate(&self) -> (r: PathComponent)
        ensures
            r@ == self@,
    {
        match self {
            PathComponent::Key(k) => PathComponent::Key(k.clone()),
            PathComponent::Index(i) => PathComponent::Index(*i),
        }
    }
}

/// A copy of a path, component by component.
pub fn duplicate_path(path: &Vec<PathComponent>) -> (r: Vec<PathComponent>)
    ensures
        path_view(r@) == path_view(path@),
{
    let mut out: Vec<PathComponent> = Vec::new();
    let mut i: usize = 0;
    while i < path.len()
        invariant
            i <= path@.len(),
            out@.len() == i,
            forall|k: int| 0 <= k < i ==> out@[k]@ == path@[k]@,
        decreases path@.len() - i,
    {
        out.push(path[i].duplicate());
        i = i + 1;
    }
    assert(path_view(out@) =~= path_view(path@));
    out
}

impl From<String> for PathComponent {
    fn from(s: String) -> (r: Self) {
        PathComponent::Key(s)
    }
}

impl FromSpecImpl<String> for PathComponent {
    open spec fn obeys_from_spec() -> bool {
        true
    }

    open spec fn from_spec(v: String) -> Self {
        PathComponent::Key(v)
    }
}

impl From<usize> for PathComponent {
    fn from(i: usize) -> (r: Self) {
        PathComponent::Index(i)
    }
}

impl FromSpecImpl<usize> for PathComponent {
    open spec fn obeys_from_spec() -> bool {
        true
    }

    open spec fn from_spec(v: usize) -> Self {
        PathComponent::Index(v)
    }
}

impl From<u8> for PathComponent {
    fn from(i: u8) -> (r: Self) {
        PathComponent::Index(i as usize)
    }
}

impl FromSpecImpl<u8> for PathComponent {
    open spec fn obeys_from_spec() -> bool {
        true
    }

    open spec fn from_spec(v: u8) -> Self {
        PathComponent::Index(v as usize)
    }
}

impl From<u16> for PathComponent {
    fn from(i: u16) -> (r: Self) {
        PathComponent::Index(i as usize)
    }
}

impl FromSpecImpl<u16> for PathComponent {
    open spec fn obeys_from_spec() -> bool {
        true
    }

    open spec fn from_spec(v: u16) -> Self {
        PathComponent::Index(v as usize)
    }
}

impl From<u32> for PathComponent {
    fn from(i: u32) -> (r: Self) {
        PathComponent::Index(i as usize)
    }
}

impl FromSpecImpl<u32> for PathComponent {
    open spec fn obeys_from_spec() -> bool {
        true
    }

    open spec fn from_spec(v: u32) -> Self {
        PathComponent::Index(v as usize)
    }
}

impl From<u64> for PathComponent {
    fn from(i: u64) -> (r: Self) {
        PathComponent::Index(i as usize)
    }
}

impl FromSpecImpl<u64> for PathComponent {
    open spec fn obeys_from_spec() -> bool {
        true
    }

    open spec fn from_spec(v: u64) -> Self {
        PathComponent::Index(v as usize)
    }
}

/// Builds a path component from a key or an index value.
pub trait PathComponentFrom<T>: Sized {
    /// The component for `value`.
    fn from_path_component(value: T) -> PathComponent;
}

impl PathComponentFrom<&str> for PathComponent {
    fn from_path_component(value: &str) -> (r: PathComponent)
        ensures
            r@ == PathItemView::Key(value@),
    {
        PathComponent::Key(String::from_str(value))
    }
}

impl PathComponentFrom<String> for PathComponent {
    fn from_path_component(value: String) -> (r: PathComponent)
        ensures
            r == PathComponent::Key(value),
    {
        PathComponent::Key(value)
    }
}

impl PathComponentFrom<usize> for PathComponent {
    fn from_path_component(value: usize) -> (r: PathComponent)
        ensures
            r == PathComponent::Index(value),
    {
        PathComponent::Index(value)
    }
}

impl PathComponentFrom<u64> for PathComponent {
    fn from_path_component(value: u64) -> (r: PathComponent)
        ensures
            r == PathComponent::Index(value as usize),
    {
        PathComponent::Index(value as usize)
    }
}

impl PathComponentFrom<u32> for PathComponent {
    fn from_path_component(value: u32) -> (r: PathComponent)
        ensures
            r == PathComponent::Index(value as usize),
    {
        PathComponent::Index(value as usize)
    }
}

impl PathComponentFrom<i32> for PathComponent {
    fn from_path_component(value: i32) -> (r: PathComponent)
        ensures
            r == PathComponent::Index(value as usize),
    {
        PathComponent::Index(value as usize)
    }
}

impl PathComponentFrom<i64> for PathComponent {
    fn from_path_component(value: i64) -> (r: PathComponent)
        ensures
            r == PathComponent::Index(value as usize),
    {
        PathComponent::Index(value as usize)
    }
}

/// An event generated by the streaming JSON parser.
///
/// Each event announces a value, a fragment of a string, or the start or end
/// of a container, at a path: the sequence of components from the root. The
/// first element of a root array has path `[Index(0)]`.
#[derive(Debug, Clone, PartialEq)]
pub enum ParseEvent {
    /// A JSON `null` value.
    Null { path: Vec<PathComponent> },
    /// A JSON `true` or `false` value.
    Boolean { path: Vec<PathComponent>, value: bool },
    /// A JSON number, as written in the input (its lexeme).
    Number { path: Vec<PathComponent>, value: String },
    /// A fragment of a JSON string value. The fragments of one string, in
    /// order, make up its decoded content; the first has `is_initial` set and
    /// the last `is_final`.
    String { path: Vec<PathComponent>, fragment: String, is_initial: bool, is_final: bool },
    /// The start of a JSON array.
    ArrayStart { path: Vec<PathComponent> },
    /// The end of a JSON array.
    ArrayEnd { path: Vec<PathComponent> },
    /// The start of a JSON object.
    ObjectBegin { path: Vec<PathComponent> },
    /// The end of a JSON object.
    ObjectEnd { path: Vec<PathComponent> },
}

/// The path of an event.
pub open spec fn event_path(e: ParseEvent) -> Seq<PathComponent> {
    match e {
        ParseEvent::Null { path } => path@,
        ParseEvent::Boolean { path, .. } => path@,
        ParseEvent::Number { path, .. } => path@,
        ParseEvent::String { path, .. } => path@,
        ParseEvent::ArrayStart { path } => path@,
        ParseEvent::ArrayEnd { path } => path@,
        ParseEvent::ObjectBegin { path } => path@,
        ParseEvent::ObjectEnd { path } => path@,
    }
}

/// Whether the event completes a value: a scalar, or the last fragment of a
/// string.
pub open spec fn completes_value(e: ParseEvent) -> bool {
    ||| e is Null
    ||| e is Boolean
    ||| e is Number
    ||| (e matches ParseEvent::String { is_final, .. } && is_final)
}

impl ParseEvent {
    /// The path of the event.
    pub fn path(&self) -> (r: &Vec<PathComponent>)
        ensures
            r@ == event_path(*self),
    {
        match self {
            ParseEvent::Null { path } => path,
            ParseEvent::Boolean { path, .. } => path,
            ParseEvent::Number { path, .. } => path,
            ParseEvent::String { path, .. } => path,
            ParseEvent::ArrayStart { path } => path,
            ParseEvent::ArrayEnd { path } => path,
            ParseEvent::ObjectBegin { path } => path,
            ParseEvent::ObjectEnd { path } => path,
        }
    }
}

/// True when `b` is `false` (used to omit a `false` flag when serializing).
pub fn is_false(b: &bool) -> (r: bool)
    ensures
        r == !*b,
{
    !*b
}

} // verus!
