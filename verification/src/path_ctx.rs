//! Path bookkeeping of the default backend: a path is a vector of
//! components, grown and shrunk as the parser enters and leaves values.
use vstd::prelude::*;
use crate::event::{PathComponent, PathItemView, path_view};
use crate::decode::{decode_utf8_lossy, utf8_lossy};
use vstd::utf8::{decode_utf8, valid_utf8};

verus! {

/// The kind of a path component.
#[derive(Debug, Clone, Copy, PartialEq, Eq, Structural)]
pub enum PathKind {
    Key,
    Index,
}

/// Errors of path updates.
#[derive(Debug, Clone, Copy, PartialEq, Eq, Structural)]
pub enum PathError {
    /// The innermost component is not an array index.
    NotArrayFrame,
}

/// The kind of a component's view.
pub open spec fn kind_of(c: PathItemView) -> PathKind {
    match c {
        PathItemView::Key(_) => PathKind::Key,
        PathItemView::Index(_) => PathKind::Index,
    }
}

/// The default backend: paths are vectors of [`PathComponent`]s, strings
/// are Rust strings.
#[derive(Debug, Default, PartialEq, Clone)]
pub struct RustContext;

impl RustContext {
    /// A new context.
    pub fn new() -> (r: Self) {
        RustContext
    }

    /// A new, empty path.
    pub fn frozen_new(&mut self) -> (r: Vec<PathComponent>)
        ensures
            r@ == Seq::<PathComponent>::empty(),
    {
        Vec::new()
    }

    /// The path in its mutable form (the same vector).
    pub fn thaw(&mut self, frozen: Vec<PathComponent>) -> (r: Vec<PathComponent>)
        ensures
            r == frozen,
    {
        frozen
    }

    /// The path in its stored form (the same vector).
    pub fn freeze(&mut self, thawed: Vec<PathComponent>) -> (r: Vec<PathComponent>)
        ensures
            r == thawed,
    {
        thawed
    }

    /// Enters the value of object key `key`.
    pub fn push_key_from_str(&mut self, t: &mut Vec<PathComponent>, key: &str)
        ensures
            path_view(final(t)@) == path_view(old(t)@).push(PathItemView::Key(key@)),
    {
        t.push(PathComponent::Key(String::from_str(key)));
        assert(path_view(final(t)@) =~= path_view(old(t)@).push(PathItemView::Key(key@)));
    }

    /// Enters the first element of an array.
    pub fn push_index_zero(&mut self, t: &mut Vec<PathComponent>)
        ensures
            path_view(final(t)@) == path_view(old(t)@).push(PathItemView::Index(0)),
    {
        t.push(PathComponent::Index(0));
        assert(path_view(final(t)@) =~= path_view(old(t)@).push(PathItemView::Index(0)));
    }

    /// Moves to the next element of the innermost array.
    pub fn bump_last_index(&mut self, t: &mut Vec<PathComponent>) -> (r: Result<(), PathError>)
        requires
            old(t)@.len() > 0 ==> (old(t)@.last() matches PathComponent::Index(i) ==> i
                < usize::MAX),
        ensures
            old(t)@.len() > 0 && old(t)@.last() is Index ==> {
                &&& r is Ok
                &&& final(t)@ == old(t)@.update(
                    old(t)@.len() - 1,
                    PathComponent::Index((old(t)@.last()->Index_0 + 1) as usize),
                )
            },
            !(old(t)@.len() > 0 && old(t)@.last() is Index) ==> r == Err::<(), PathError>(
                PathError::NotArrayFrame,
            ) && final(t)@ == old(t)@,
    {
        let n = t.len();
        if n == 0 {
            return Err(PathError::NotArrayFrame);
        }
        let i = match &t[n - 1] {
            PathComponent::Index(i) => *i,
            PathComponent::Key(_) => {
                return Err(PathError::NotArrayFrame);
            },
        };
        t.set(n - 1, PathComponent::Index(i + 1));
        Ok(())
    }

    /// Leaves the innermost component; returns its kind.
    pub fn pop_kind(&mut self, t: &mut Vec<PathComponent>) -> (r: Option<PathKind>)
        ensures
            old(t)@.len() == 0 ==> r is None && final(t)@ == old(t)@,
            old(t)@.len() > 0 ==> r == Some(kind_of(old(t)@.last()@)) && final(t)@ == old(
                t,
            )@.drop_last(),
    {
        match t.pop() {
            Some(PathComponent::Key(_)) => Some(PathKind::Key),
            Some(PathComponent::Index(_)) => Some(PathKind::Index),
            None => None,
        }
    }

    /// The value of `null`.
    pub fn new_null(&mut self) {
    }

    /// The value of a boolean: the boolean itself.
    pub fn new_bool(&mut self, b: bool) -> (r: bool)
        ensures
            r == b,
    {
        b
    }

    /// The value of an owned string fragment: the fragment itself.
    pub fn new_str_owned(&mut self, frag: String) -> (r: String)
        ensures
            r == frag,
    {
        frag
    }

    /// The value of a raw string fragment: its bytes decoded as UTF-8,
    /// invalid sequences replaced by U+FFFD.
    pub fn new_str_raw_owned(&mut self, bytes: Vec<u8>) -> (r: String)
        ensures
            r@ == utf8_lossy(bytes@),
            valid_utf8(bytes@) ==> r@ == decode_utf8(bytes@),
    {
        decode_utf8_lossy(bytes.as_slice())
    }

    /// The kind of the innermost component.
    pub fn last_kind(&self, t: &Vec<PathComponent>) -> (r: Option<PathKind>)
        ensures
            t@.len() == 0 ==> r is None,
            t@.len() > 0 ==> r == Some(kind_of(t@.last()@)),
    {
        let n = t.len();
        if n == 0 {
            None
        } else {
            match &t[n - 1] {
                PathComponent::Key(_) => Some(PathKind::Key),
                PathComponent::Index(_) => Some(PathKind::Index),
            }
        }
    }
}

} // verus!
