//! The stack of open containers (arrays and objects) and the path it
//! denotes.
//!
//! Each open container is a [`Frame`]. The path of a value inside the
//! innermost container is the sequence of slots through which each container
//! is reached, followed by the innermost container's current slot (its next
//! index or its pending key).
use vstd::prelude::*;
use crate::grammar::Slot;
use crate::event::{PathComponent, PathItemView, path_view};

verus! {

/// Stack entry: one per open container.
#[derive(Clone, Debug)]
pub enum Frame {
    Array {
        /// Slot for the next element.
        next_index: usize,
    },
    Object {
        /// Key waiting for its value.
        pending_key: Option<String>,
    },
}

/// The slot of a frame as a reader of the text sees it.
pub open spec fn frame_slot(frame: Frame) -> Slot {
    match frame {
        Frame::Array { next_index } => Slot::Index(next_index as nat),
        Frame::Object { pending_key } => Slot::Key(
            match pending_key {
                Some(k) => Some(k@),
                None => None,
            },
        ),
    }
}

/// The path component that designates the current slot of a frame: the
/// next index of an array, the pending key (empty if none) of an object.
pub open spec fn slot_of(frame: Frame) -> PathItemView {
    match frame {
        Frame::Array { next_index } => PathItemView::Index(next_index),
        Frame::Object { pending_key } => PathItemView::Key(
            match pending_key {
                Some(k) => k@,
                None => Seq::empty(),
            },
        ),
    }
}

impl Frame {
    /// A new array frame, at index 0.
    pub fn new_array_frame() -> (f: Self)
        ensures
            f == (Frame::Array { next_index: 0 }),
    {
        Frame::Array { next_index: 0 }
    }

    /// A new object frame, with no pending key.
    pub fn new_object_frame() -> (f: Self)
        ensures
            f == (Frame::Object { pending_key: None }),
    {
        Frame::Object { pending_key: None }
    }

    /// The path component of the frame's current slot.
    pub fn to_path_component(&self) -> (r: PathComponent)
        ensures
            r@ == slot_of(*self),
    {
        match self {
            Frame::Array { next_index } => PathComponent::Index(*next_index),
            Frame::Object { pending_key } => match pending_key {
                Some(k) => PathComponent::Key(k.clone()),
                None => PathComponent::Key(String::new()),
            },
        }
    }
}

/// The stack of open containers: the root container and, for each nested
/// container, the path component through which it was entered.
#[derive(Debug)]
pub struct FrameStack {
    root: Option<Frame>,
    stack: Vec<(PathComponent, Frame)>,
}

impl FrameStack {
    /// The open containers, outermost first.
    pub closed spec fn frames(&self) -> Seq<Frame> {
        match self.root {
            None => Seq::empty(),
            Some(r) => seq![r] + self.stack@.map_values(|e: (PathComponent, Frame)| e.1),
        }
    }

    /// The path of the innermost open container: the components through
    /// which each nested container was entered.
    pub closed spec fn components(&self) -> Seq<PathItemView> {
        self.stack@.map_values(|e: (PathComponent, Frame)| e.0@)
    }

    /// Internal consistency: nested containers exist only under a root, and
    /// each was entered through the slot that its parent still designates.
    pub closed spec fn wf(&self) -> bool {
        &&& self.root is None ==> self.stack@.len() == 0
        &&& forall|i: int|
            0 <= i < self.stack@.len() ==> #[trigger] self.stack@[i].0@ == slot_of(self.frames()[i])
    }

    /// The path of the innermost open container is the slots of the
    /// containers around it.
    pub proof fn lemma_components_are_slots(&self)
        requires
            self.wf(),
        ensures
            self.frames().len() > 0 ==> self.components() == self.frames().drop_last().map_values(
                |f: Frame| slot_of(f),
            ),
            self.frames().len() == 0 ==> self.components() == Seq::<PathItemView>::empty(),
    {
        if self.frames().len() == 0 {
            assert(self.components() =~= Seq::<PathItemView>::empty());
        } else {
            let fs = self.frames();
            assert(fs.len() == self.stack@.len() + 1);
            assert forall|i: int| 0 <= i < self.stack@.len() implies self.components()[i]
                == fs.drop_last().map_values(|f: Frame| slot_of(f))[i] by {
                assert(self.stack@[i].0@ == slot_of(fs[i]));
            }
            assert(self.components() =~= fs.drop_last().map_values(|f: Frame| slot_of(f)));
        }
    }

    /// With no open container the path is empty.
    pub proof fn lemma_empty_components(&self)
        requires
            self.wf(),
        ensures
            self.frames().len() == 0 ==> self.components() == Seq::<PathItemView>::empty(),
    {
        if self.frames().len() == 0 {
            assert(self.components() =~= Seq::<PathItemView>::empty());
        }
    }

    /// An empty stack.
    pub fn new() -> (s: Self)
        ensures
            s.wf(),
            s.frames() == Seq::<Frame>::empty(),
            s.components() == Seq::<PathItemView>::empty(),
    {
        let s = FrameStack { root: None, stack: Vec::new() };
        assert(s.components() =~= Seq::<PathItemView>::empty());
        s
    }

    /// The innermost open container.
    pub fn last(&self) -> (r: Option<&Frame>)
        requires
            self.wf(),
        ensures
            self.frames().len() == 0 ==> r is None,
            self.frames().len() > 0 ==> r == Some(&self.frames().last()),
    {
        if self.stack.len() > 0 {
            return Some(&self.stack[self.stack.len() - 1].1);
        }
        match &self.root {
            Some(f) => Some(f),
            None => None,
        }
    }

    /// The innermost open container, for updating.
    pub fn last_mut(&mut self) -> (r: Option<&mut Frame>)
        requires
            old(self).wf(),
        ensures
            old(self).frames().len() == 0 ==> r is None && *final(self) == *old(self),
            old(self).frames().len() > 0 ==> {
                &&& r matches Some(f) && *f == old(self).frames().last()
                &&& final(self).wf()
                &&& final(self).components() == old(self).components()
                &&& final(self).frames() == old(self).frames().update(
                    old(self).frames().len() - 1,
                    *final(r.unwrap()),
                )
            },
    {
        let n = self.stack.len();
        if n > 0 {
            let entry = self.stack.last_mut().unwrap();
            proof {
                assert(old(self).frames().last() == old(self).stack@[n - 1].1);
            }
            let r = &mut entry.1;
            Some(r)
        } else {
            match &mut self.root {
                Some(f) => Some(f),
                None => None,
            }
        }
    }

    /// Opens a container inside the innermost one (or as the root).
    pub fn push(&mut self, frame: Frame)
        requires
            old(self).wf(),
        ensures
            final(self).wf(),
            final(self).frames() == old(self).frames().push(frame),
            old(self).frames().len() == 0 ==> final(self).components() == old(self).components(),
            old(self).frames().len() > 0 ==> final(self).components() == old(
                self,
            ).components().push(slot_of(old(self).frames().last())),
    {
        let next = match self.last() {
            Some(last_frame) => Some(last_frame.to_path_component()),
            None => None,
        };
        match next {
            Some(next_path_component) => {
                self.stack.push((next_path_component, frame));
                assert(self.frames() =~= old(self).frames().push(frame));
                assert(self.components() =~= old(self).components().push(
                    slot_of(old(self).frames().last()),
                ));
            },
            None => {
                self.root = Some(frame);
                assert(self.frames() =~= old(self).frames().push(frame));
            },
        }
    }

    /// Closes the innermost container.
    pub fn pop(&mut self) -> (r: Option<Frame>)
        requires
            old(self).wf(),
        ensures
            final(self).wf(),
            old(self).frames().len() == 0 ==> r is None && final(self).frames() == old(
                self,
            ).frames() && final(self).components() == old(self).components(),
            old(self).frames().len() > 0 ==> {
                &&& r == Some(old(self).frames().last())
                &&& final(self).frames() == old(self).frames().drop_last()
                &&& final(self).components() == if old(self).components().len() > 0 {
                    old(self).components().drop_last()
                } else {
                    old(self).components()
                }
            },
    {
        match self.stack.pop() {
            Some((_, f)) => {
                assert(self.frames() =~= old(self).frames().drop_last());
                assert(self.components() =~= old(self).components().drop_last());
                Some(f)
            },
            None => {
                let r = self.root.take();
                if r.is_some() {
                    assert(self.frames() =~= old(self).frames().drop_last());
                }
                r
            },
        }
    }

    /// The path of the innermost open container.
    pub fn to_path_components(&self) -> (r: Vec<PathComponent>)
        ensures
            path_view(r@) == self.components(),
    {
        let mut out: Vec<PathComponent> = Vec::new();
        let mut i: usize = 0;
        while i < self.stack.len()
            invariant
                i <= self.stack@.len(),
                out@.len() == i,
                forall|k: int| 0 <= k < i ==> out@[k]@ == self.stack@[k].0@,
            decreases self.stack@.len() - i,
        {
            out.push(self.stack[i].0.duplicate());
            i = i + 1;
        }
        assert(path_view(out@) =~= self.components());
        out
    }

    /// Closes every container.
    pub fn clear(&mut self)
        ensures
            final(self).wf(),
            final(self).frames() == Seq::<Frame>::empty(),
            final(self).components() == Seq::<PathItemView>::empty(),
    {
        self.root = None;
        self.stack.clear();
        assert(self.components() =~= Seq::<PathItemView>::empty());
    }
}

impl Default for FrameStack {
    /// An empty stack.
    fn default() -> (s: Self)
        ensures
            s.wf(),
            s.frames() == Seq::<Frame>::empty(),
            s.components() == Seq::<PathItemView>::empty(),
    {
        Self::new()
    }
}

} // verus!
