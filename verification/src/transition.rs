//! Classification of parse events into transitions of a value tree under
//! construction: which slot of which container an event fills, and when a
//! container is left.
use vstd::prelude::*;
use crate::event::{ParseEvent, PathComponent, event_path};

verus! {

/// How an event moves the cursor of a tree under construction.
#[derive(Clone, Copy, Debug, PartialEq, Eq)]
pub enum RootTransition<'a> {
    /// A scalar at the root.
    StartRootScalar,
    /// An array at the root.
    PushArray,
    /// An object at the root.
    PushObject,
    /// A value at `index` of the enclosing array.
    StayArray { index: usize },
    /// A value at `key` of the enclosing object.
    StayObject { key: &'a String },
    /// A further fragment of the string in progress.
    AppendString { is_final: bool },
    /// The end of the innermost container.
    PopContainer,
}

/// The transition of an event, and whether it completes an array slot.
#[derive(Clone, Copy, Debug, PartialEq, Eq)]
pub struct TransitionOutcome<'a> {
    pub transition: RootTransition<'a>,
    pub completes_array_slot: bool,
}

/// Kinds of containers.
#[derive(Clone, Copy, Debug, PartialEq, Eq, Structural)]
pub enum ContainerKind {
    Array,
    Object,
}

/// An open container: its kind and whether it sits in an array slot.
#[derive(Clone, Copy, Debug, PartialEq, Eq, Structural)]
pub struct FrameContext {
    pub kind: ContainerKind,
    pub parent_is_array: bool,
}

/// Tracks the containers opened by a stream of events.
#[derive(Debug)]
pub struct ParserCursor {
    frames: Vec<FrameContext>,
    string_in_progress: bool,
    previous_depth: usize,
}

/// Whether a path ends in an array index.
pub open spec fn ends_in_index(path: Seq<PathComponent>) -> bool {
    path.len() > 0 && path.last() is Index
}

/// The transition of a value (scalar or container start) at `path`, other
/// than at the root.
pub open spec fn slot_transition(t: RootTransition, path: Seq<PathComponent>) -> bool {
    match path.last() {
        PathComponent::Index(i) => t == RootTransition::StayArray { index: i },
        PathComponent::Key(k) => t matches RootTransition::StayObject { key } && key@ == k@,
    }
}

impl ParserCursor {
    /// The open containers, outermost first.
    pub closed spec fn frames(&self) -> Seq<FrameContext> {
        self.frames@
    }

    /// Whether a string value has been started and not finished.
    pub closed spec fn string_in_progress(&self) -> bool {
        self.string_in_progress
    }

    /// The path length of the last event classified.
    pub closed spec fn previous_depth(&self) -> nat {
        self.previous_depth as nat
    }

    /// A cursor with no open container.
    pub fn new() -> (r: Self)
        ensures
            r.frames() == Seq::<FrameContext>::empty(),
            !r.string_in_progress(),
            r.previous_depth() == 0,
    {
        ParserCursor { frames: Vec::new(), string_in_progress: false, previous_depth: 0 }
    }

    /// The transition of a scalar or of the first fragment of a string at
    /// `path`.
    pub fn scalar_transition<'p>(&mut self, path: &'p Vec<PathComponent>) -> (r: TransitionOutcome<'p>)
        ensures
            !final(self).string_in_progress(),
            final(self).frames() == old(self).frames(),
            final(self).previous_depth() == old(self).previous_depth(),
            path@.len() == 0 ==> r.transition == RootTransition::StartRootScalar,
            path@.len() > 0 ==> slot_transition(r.transition, path@),
            r.completes_array_slot == ends_in_index(path@),
    {
        self.string_in_progress = false;
        let n = path.len();
        if n == 0 {
            TransitionOutcome {
                transition: RootTransition::StartRootScalar,
                completes_array_slot: false,
            }
        } else {
            match &path[n - 1] {
                PathComponent::Index(index) => TransitionOutcome {
                    transition: RootTransition::StayArray { index: *index },
                    completes_array_slot: true,
                },
                PathComponent::Key(key) => TransitionOutcome {
                    transition: RootTransition::StayObject { key },
                    completes_array_slot: false,
                },
            }
        }
    }

    /// The end of the innermost container: leaves it; the slot it filled
    /// is complete if it was an array slot.
    pub fn finish_container<'p>(&mut self, expected: ContainerKind) -> (r: TransitionOutcome<'p>)
        ensures
            !final(self).string_in_progress(),
            final(self).previous_depth() == old(self).previous_depth(),
            r.transition == RootTransition::PopContainer,
            old(self).frames().len() == 0 ==> final(self).frames() == old(self).frames()
                && !r.completes_array_slot,
            old(self).frames().len() > 0 ==> final(self).frames() == old(self).frames().drop_last()
                && r.completes_array_slot == old(self).frames().last().parent_is_array,
    {
        self.string_in_progress = false;
        match self.frames.pop() {
            Some(frame) => TransitionOutcome {
                transition: RootTransition::PopContainer,
                completes_array_slot: frame.parent_is_array,
            },
            None => TransitionOutcome {
                transition: RootTransition::PopContainer,
                completes_array_slot: false,
            },
        }
    }

    /// The start of a container at `path`: opens it.
    fn begin_container<'p>(&mut self, path: &'p Vec<PathComponent>, kind: ContainerKind) -> (r:
        TransitionOutcome<'p>)
        ensures
            !final(self).string_in_progress(),
            final(self).previous_depth() == old(self).previous_depth(),
            final(self).frames() == old(self).frames().push(
                FrameContext { kind, parent_is_array: ends_in_index(path@) },
            ),
            path@.len() == 0 ==> r.transition == if kind == ContainerKind::Array {
                RootTransition::PushArray
            } else {
                RootTransition::PushObject
            },
            path@.len() > 0 ==> slot_transition(r.transition, path@),
            !r.completes_array_slot,
    {
        self.string_in_progress = false;
        let n = path.len();
        let (transition, parent_is_array) = if n == 0 {
            (
                match kind {
                    ContainerKind::Array => RootTransition::PushArray,
                    ContainerKind::Object => RootTransition::PushObject,
                },
                false,
            )
        } else {
            match &path[n - 1] {
                PathComponent::Index(index) => (RootTransition::StayArray { index: *index }, true),
                PathComponent::Key(key) => (RootTransition::StayObject { key }, false),
            }
        };
        self.frames.push(FrameContext { kind, parent_is_array });
        TransitionOutcome { transition, completes_array_slot: false }
    }

    /// Classifies an event: records its depth and updates the open
    /// containers and the string in progress.
    ///
    /// Scalars and first string fragments fill their slot (an array slot is
    /// complete once the value is); further fragments append to the string;
    /// container starts fill their slot and open the container; container
    /// ends close the innermost one.
    pub fn classify_transition<'p>(&mut self, event: &'p ParseEvent) -> (r: TransitionOutcome<'p>)
        ensures
            final(self).previous_depth() == event_path(*event).len(),
            ({
                let path = event_path(*event);
                match *event {
                    ParseEvent::Null { .. } | ParseEvent::Boolean { .. } | ParseEvent::Number {
                        ..
                    } => {
                        &&& !final(self).string_in_progress()
                        &&& final(self).frames() == old(self).frames()
                        &&& path.len() == 0 ==> r.transition == RootTransition::StartRootScalar
                        &&& path.len() > 0 ==> slot_transition(r.transition, path)
                        &&& r.completes_array_slot == ends_in_index(path)
                    },
                    ParseEvent::String { is_initial, is_final, .. } => {
                        &&& final(self).string_in_progress() == !is_final
                        &&& final(self).frames() == old(self).frames()
                        &&& is_initial ==> {
                            &&& path.len() == 0 ==> r.transition
                                == RootTransition::StartRootScalar
                            &&& path.len() > 0 ==> slot_transition(r.transition, path)
                            &&& r.completes_array_slot == (ends_in_index(path) && is_final)
                        }
                        &&& !is_initial ==> {
                            &&& r.transition == RootTransition::AppendString { is_final }
                            &&& r.completes_array_slot == (ends_in_index(path) && is_final)
                        }
                    },
                    ParseEvent::ArrayStart { .. } | ParseEvent::ObjectBegin { .. } => {
                        let kind = if *event is ArrayStart {
                            ContainerKind::Array
                        } else {
                            ContainerKind::Object
                        };
                        &&& !final(self).string_in_progress()
                        &&& final(self).frames() == old(self).frames().push(
                            FrameContext { kind, parent_is_array: ends_in_index(path) },
                        )
                        &&& path.len() == 0 ==> r.transition == if kind == ContainerKind::Array {
                            RootTransition::PushArray
                        } else {
                            RootTransition::PushObject
                        }
                        &&& path.len() > 0 ==> slot_transition(r.transition, path)
                        &&& !r.completes_array_slot
                    },
                    ParseEvent::ArrayEnd { .. } | ParseEvent::ObjectEnd { .. } => {
                        &&& !final(self).string_in_progress()
                        &&& r.transition == RootTransition::PopContainer
                        &&& old(self).frames().len() == 0 ==> final(self).frames() == old(
                            self,
                        ).frames() && !r.completes_array_slot
                        &&& old(self).frames().len() > 0 ==> final(self).frames() == old(
                            self,
                        ).frames().drop_last() && r.completes_array_slot == old(
                            self,
                        ).frames().last().parent_is_array
                    },
                }
            }),
    {
        let path = event.path();
        let depth = path.len();
        self.previous_depth = depth;
        match event {
            ParseEvent::Null { path } => self.scalar_transition(path),
            ParseEvent::Boolean { path, .. } => self.scalar_transition(path),
            ParseEvent::Number { path, .. } => self.scalar_transition(path),
            ParseEvent::String { path, is_initial, is_final, .. } => {
                if *is_initial {
                    let outcome = self.scalar_transition(path);
                    self.string_in_progress = !*is_final;
                    TransitionOutcome {
                        transition: outcome.transition,
                        completes_array_slot: outcome.completes_array_slot && *is_final,
                    }
                } else {
                    self.string_in_progress = !*is_final;
                    let n = path.len();
                    let last_is_index = n > 0 && match &path[n - 1] {
                        PathComponent::Index(_) => true,
                        PathComponent::Key(_) => false,
                    };
                    TransitionOutcome {
                        transition: RootTransition::AppendString { is_final: *is_final },
                        completes_array_slot: last_is_index && *is_final,
                    }
                }
            },
            ParseEvent::ArrayStart { path } => self.begin_container(path, ContainerKind::Array),
            ParseEvent::ObjectBegin { path } => self.begin_container(path, ContainerKind::Object),
            ParseEvent::ArrayEnd { .. } => self.finish_container(ContainerKind::Array),
            ParseEvent::ObjectEnd { .. } => self.finish_container(ContainerKind::Object),
        }
    }
}

impl Default for ParserCursor {
    fn default() -> (r: Self)
        ensures
            r.frames() == Seq::<FrameContext>::empty(),
            !r.string_in_progress(),
            r.previous_depth() == 0,
    {
        Self::new()
    }
}

} // verus!
