//! The immutable-value backend's applicator: every event aligns the value
//! tree along its path (turning each step into an array or an object as the
//! path asks, padding arrays with nulls up to the index and adding a null
//! member for a missing key) and then acts on the slot at the end: a scalar
//! or a container start replaces it, a string fragment is appended to the
//! string there (or replaces the slot when it starts a string), and a
//! container end leaves it as it is.
use vstd::prelude::*;
use crate::event::{ParseEvent, PathComponent, PathItemView, event_path, path_view};
use crate::options::BufferOptions;
use crate::text::push_str;
use crate::transition::ParserCursor;
use crate::value_tree::{
    JsonTree, JsonValue, clone_value, find_slot, insert_pos, key_pos, lemma_array_tree,
    lemma_insert_pos_bounds, lemma_object_tree, member_trees, trees,
};

verus! {

/// What an event does to the slot at the end of its path.
pub enum LeafUpdate {
    /// Replaces the slot.
    Replace(JsonTree),
    /// Appends a fragment to the string in the slot; the first fragment of a
    /// string replaces the slot.
    Append(Seq<char>, bool),
    /// Leaves the slot as it is.
    Keep,
}

/// The slot after the update.
pub open spec fn leaf_apply(t: JsonTree, u: LeafUpdate) -> JsonTree {
    match u {
        LeafUpdate::Replace(v) => v,
        LeafUpdate::Append(f, is_initial) => match t {
            JsonTree::String(s) => if is_initial {
                JsonTree::String(f)
            } else {
                JsonTree::String(s + f)
            },
            _ => JsonTree::String(f),
        },
        LeafUpdate::Keep => t,
    }
}

/// The elements of `t` when it is an array, none otherwise.
pub open spec fn array_items(t: JsonTree) -> Seq<JsonTree> {
    match t {
        JsonTree::Array(items) => items,
        _ => Seq::empty(),
    }
}

/// The members of `t` when it is an object, none otherwise.
pub open spec fn object_members(t: JsonTree) -> Seq<(Seq<char>, JsonTree)> {
    match t {
        JsonTree::Object(ms) => ms,
        _ => Seq::empty(),
    }
}

/// `items` padded with nulls so that index `i` exists.
pub open spec fn padded(items: Seq<JsonTree>, i: nat) -> Seq<JsonTree> {
    if i < items.len() {
        items
    } else {
        items + Seq::new((i + 1 - items.len()) as nat, |j: int| JsonTree::Null)
    }
}

/// The content of the child slot `c` of `t` once aligned: the existing
/// element or member, or null.
pub open spec fn child_slot(t: JsonTree, c: PathItemView) -> JsonTree {
    match c {
        PathItemView::Index(i) => padded(array_items(t), i as nat)[i as int],
        PathItemView::Key(k) => match key_pos(object_members(t), k) {
            Some(p) => object_members(t)[p].1,
            None => JsonTree::Null,
        },
    }
}

/// `t` aligned at the child slot `c`, with `n` in that slot.
pub open spec fn with_child(t: JsonTree, c: PathItemView, n: JsonTree) -> JsonTree {
    match c {
        PathItemView::Index(i) => JsonTree::Array(padded(array_items(t), i as nat).update(i as int, n)),
        PathItemView::Key(k) => {
            let ms = object_members(t);
            match key_pos(ms, k) {
                Some(p) => JsonTree::Object(ms.update(p, (k, n))),
                None => JsonTree::Object(ms.insert(insert_pos(ms, k), (k, n))),
            }
        },
    }
}

/// The tree after aligning it along `path` and updating the slot there.
pub open spec fn aligned_update(t: JsonTree, path: Seq<PathItemView>, u: LeafUpdate) -> JsonTree
    decreases path.len(),
{
    if path.len() == 0 {
        leaf_apply(t, u)
    } else {
        with_child(t, path[0], aligned_update(child_slot(t, path[0]), path.drop_first(), u))
    }
}

/// The slot at the end of `path` after the update.
pub open spec fn aligned_leaf(t: JsonTree, path: Seq<PathItemView>, u: LeafUpdate) -> JsonTree
    decreases path.len(),
{
    if path.len() == 0 {
        leaf_apply(t, u)
    } else {
        aligned_leaf(child_slot(t, path[0]), path.drop_first(), u)
    }
}

/// What an event does to its slot.
pub open spec fn event_leaf(ev: ParseEvent) -> LeafUpdate {
    match ev {
        ParseEvent::Null { .. } => LeafUpdate::Replace(JsonTree::Null),
        ParseEvent::Boolean { value, .. } => LeafUpdate::Replace(JsonTree::Boolean(value)),
        ParseEvent::Number { value, .. } => LeafUpdate::Replace(JsonTree::Number(value@)),
        ParseEvent::String { fragment, is_initial, .. } => LeafUpdate::Append(fragment@, is_initial),
        ParseEvent::ArrayStart { .. } => LeafUpdate::Replace(JsonTree::Array(Seq::empty())),
        ParseEvent::ObjectBegin { .. } => LeafUpdate::Replace(JsonTree::Object(Seq::empty())),
        ParseEvent::ArrayEnd { .. } => LeafUpdate::Keep,
        ParseEvent::ObjectEnd { .. } => LeafUpdate::Keep,
    }
}

/// An update of a slot, with the values it needs.
pub enum LeafOp {
    Replace(JsonValue),
    Append(String, bool),
    Keep,
}

impl LeafOp {
    /// What the update does.
    pub open spec fn as_update(&self) -> LeafUpdate {
        match self {
            LeafOp::Replace(v) => LeafUpdate::Replace(v.tree()),
            LeafOp::Append(f, i) => LeafUpdate::Append(f@, *i),
            LeafOp::Keep => LeafUpdate::Keep,
        }
    }
}

fn apply_leaf(v: JsonValue, op: LeafOp) -> (r: JsonValue)
    ensures
        r.tree() == leaf_apply(v.tree(), op.as_update()),
{
    match op {
        LeafOp::Replace(x) => x,
        LeafOp::Append(f, is_initial) => match v {
            JsonValue::String(s) => if is_initial {
                JsonValue::String(f)
            } else {
                let mut s = s;
                push_str(&mut s, f.as_str());
                JsonValue::String(s)
            },
            _ => JsonValue::String(f),
        },
        LeafOp::Keep => v,
    }
}

/// `v` aligned along the components of `path` from `d` on and updated at
/// the end; also a copy of the slot there.
fn align_value(v: JsonValue, path: &Vec<PathComponent>, d: usize, op: LeafOp) -> (r: (
    JsonValue,
    JsonValue,
))
    requires
        d <= path@.len(),
    ensures
        r.0.tree() == aligned_update(v.tree(), path_view(path@).skip(d as int), op.as_update()),
        r.1.tree() == aligned_leaf(v.tree(), path_view(path@).skip(d as int), op.as_update()),
    decreases path@.len() - d,
{
    let ghost rel = path_view(path@).skip(d as int);
    let ghost t = v.tree();
    let ghost u = op.as_update();
    if d == path.len() {
        assert(rel.len() == 0);
        let n = apply_leaf(v, op);
        let leaf = clone_value(&n);
        return (n, leaf);
    }
    proof {
        assert(rel[0] == path@[d as int]@);
        assert(rel.drop_first() =~= path_view(path@).skip(d + 1));
    }
    match &path[d] {
        PathComponent::Index(i) => {
            let i = *i;
            let mut items: Vec<JsonValue> = match v {
                JsonValue::Array(items) => {
                    proof {
                        lemma_array_tree(items);
                    }
                    items
                },
                _ => Vec::new(),
            };
            assert(trees(items@) =~= array_items(t));
            let ghost start = trees(items@);
            while items.len() <= i
                invariant
                    start == array_items(t),
                    start.len() <= items@.len(),
                    items@.len() <= i + 1 || items@.len() == start.len(),
                    forall|j: int| 0 <= j < start.len() ==> #[trigger] items@[j].tree() == start[j],
                    forall|j: int|
                        start.len() <= j < items@.len() ==> #[trigger] items@[j].tree()
                            == JsonTree::Null,
                decreases i + 1 - items@.len(),
            {
                items.push(JsonValue::Null);
            }
            proof {
                let pd = padded(start, i as nat);
                assert(trees(items@).len() == pd.len());
                assert forall|j: int| 0 <= j < pd.len() implies trees(items@)[j] == pd[j] by {
                    assert(trees(items@)[j] == items@[j].tree());
                }
                assert(trees(items@) =~= pd);
            }
            let child = items.remove(i);
            let (n, leaf) = align_value(child, path, d + 1, op);
            items.insert(i, n);
            proof {
                lemma_array_tree(items);
                assert(trees(items@) =~= padded(start, i as nat).update(i as int, n.tree()));
            }
            (JsonValue::Array(items), leaf)
        },
        PathComponent::Key(k) => {
            let mut ms: Vec<(String, JsonValue)> = match v {
                JsonValue::Object(ms) => {
                    proof {
                        lemma_object_tree(ms);
                    }
                    ms
                },
                _ => Vec::new(),
            };
            assert(member_trees(ms@) =~= object_members(t));
            let ghost old_ms = ms@;
            let (p, found) = find_slot(&ms, k);
            proof {
                lemma_insert_pos_bounds(member_trees(old_ms), k@);
            }
            if found {
                let (key, child) = ms.remove(p);
                proof {
                    assert(member_trees(old_ms)[p as int] == (
                        old_ms[p as int].0@,
                        old_ms[p as int].1.tree(),
                    ));
                    assert(key == old_ms[p as int].0 && child == old_ms[p as int].1);
                }
                let (n, leaf) = align_value(child, path, d + 1, op);
                ms.insert(p, (key, n));
                proof {
                    lemma_object_tree(ms);
                    assert(member_trees(ms@) =~= member_trees(old_ms).update(
                        p as int,
                        (k@, n.tree()),
                    ));
                }
                (JsonValue::Object(ms), leaf)
            } else {
                let (n, leaf) = align_value(JsonValue::Null, path, d + 1, op);
                ms.insert(p, (k.clone(), n));
                proof {
                    lemma_object_tree(ms);
                    assert(member_trees(ms@) =~= member_trees(old_ms).insert(
                        p as int,
                        (k@, n.tree()),
                    ));
                }
                (JsonValue::Object(ms), leaf)
            }
        },
    }
}

/// A copy of a path.
pub fn copy_path(path: &Vec<PathComponent>) -> (r: Vec<PathComponent>)
    ensures
        r@ == path@,
{
    let mut out: Vec<PathComponent> = Vec::new();
    let mut i: usize = 0;
    while i < path.len()
        invariant
            i <= path@.len(),
            out@ == path@.subrange(0, i as int),
        decreases path@.len() - i,
    {
        let c = match &path[i] {
            PathComponent::Key(k) => PathComponent::Key(k.clone()),
            PathComponent::Index(n) => PathComponent::Index(*n),
        };
        out.push(c);
        i = i + 1;
        assert(out@ =~= path@.subrange(0, i as int));
    }
    assert(path@.subrange(0, i as int) =~= path@);
    out
}

/// What applying an event reports: its kind, its path, a copy of the slot
/// it acted on, the fragment of a string event, and for a container end
/// whether it closed the root.
#[derive(Debug, PartialEq)]
pub enum AppliedRef {
    Scalar { path: Vec<PathComponent>, leaf: JsonValue },
    String {
        path: Vec<PathComponent>,
        leaf: JsonValue,
        fragment: String,
        is_initial: bool,
        is_final: bool,
        buffered: Option<String>,
    },
    ArrayBegin { path: Vec<PathComponent>, leaf: JsonValue },
    ArrayEnd { path: Vec<PathComponent>, leaf: JsonValue, root_completed: bool },
    ObjectBegin { path: Vec<PathComponent>, leaf: JsonValue },
    ObjectEnd { path: Vec<PathComponent>, leaf: JsonValue, root_completed: bool },
}

/// The path an outcome reports.
pub open spec fn reported_path(r: AppliedRef) -> Seq<PathComponent> {
    match r {
        AppliedRef::Scalar { path, .. } => path@,
        AppliedRef::String { path, .. } => path@,
        AppliedRef::ArrayBegin { path, .. } => path@,
        AppliedRef::ArrayEnd { path, .. } => path@,
        AppliedRef::ObjectBegin { path, .. } => path@,
        AppliedRef::ObjectEnd { path, .. } => path@,
    }
}

/// Whether `r` reports the event `ev` whose slot is `leaf` afterwards.
pub open spec fn reports(ev: ParseEvent, r: AppliedRef, leaf: JsonTree) -> bool {
    let at_root = event_path(ev).len() == 0;
    &&& reported_path(r) == event_path(ev)
    &&& match ev {
        ParseEvent::Null { .. } => r matches AppliedRef::Scalar { leaf: l, .. } && l.tree() == leaf,
        ParseEvent::Boolean { .. } => r matches AppliedRef::Scalar { leaf: l, .. } && l.tree() == leaf,
        ParseEvent::Number { .. } => r matches AppliedRef::Scalar { leaf: l, .. } && l.tree() == leaf,
        ParseEvent::String { fragment, is_initial, is_final, .. } => r matches AppliedRef::String {
            leaf: l,
            fragment: f,
            is_initial: i,
            is_final: fl,
            buffered: b,
            ..
        } && l.tree() == leaf && f@ == fragment@ && i == is_initial && fl == is_final && b is None,
        ParseEvent::ArrayStart { .. } => r matches AppliedRef::ArrayBegin { leaf: l, .. } && l.tree()
            == leaf,
        ParseEvent::ObjectBegin { .. } => r matches AppliedRef::ObjectBegin { leaf: l, .. } && l.tree()
            == leaf,
        ParseEvent::ArrayEnd { .. } => r matches AppliedRef::ArrayEnd { leaf: l, root_completed: c, .. }
            && l.tree() == leaf && c == at_root,
        ParseEvent::ObjectEnd { .. } => r matches AppliedRef::ObjectEnd { leaf: l, root_completed: c, .. }
            && l.tree() == leaf && c == at_root,
    }
}

/// Applies parse events to a value tree.
pub struct ValueApplicator {
    root: JsonValue,
    options: BufferOptions,
    cursor: ParserCursor,
}

impl ValueApplicator {
    /// The value tree.
    pub closed spec fn root_view(&self) -> JsonTree {
        self.root.tree()
    }

    /// The buffering options.
    pub closed spec fn buffer_options(&self) -> BufferOptions {
        self.options
    }

    /// An applicator whose tree is `null`.
    pub fn new(options: BufferOptions) -> (r: Self)
        ensures
            r.root_view() == JsonTree::Null,
            r.buffer_options() == options,
    {
        ValueApplicator { root: JsonValue::Null, options, cursor: ParserCursor::new() }
    }

    /// Applies an event: aligns the tree along the event's path and acts on
    /// the slot there; reports the event with a copy of that slot.
    pub fn push(&mut self, event: &ParseEvent) -> (r: AppliedRef)
        ensures
            final(self).root_view() == aligned_update(
                old(self).root_view(),
                path_view(event_path(*event)),
                event_leaf(*event),
            ),
            reports(
                *event,
                r,
                aligned_leaf(old(self).root_view(), path_view(event_path(*event)), event_leaf(*event)),
            ),
            final(self).buffer_options() == old(self).buffer_options(),
    {
        let _ = self.cursor.classify_transition(event);
        let path = event.path();
        let op = match event {
            ParseEvent::Null { .. } => LeafOp::Replace(JsonValue::Null),
            ParseEvent::Boolean { value, .. } => LeafOp::Replace(JsonValue::Boolean(*value)),
            ParseEvent::Number { value, .. } => LeafOp::Replace(JsonValue::Number(value.clone())),
            ParseEvent::String { fragment, is_initial, .. } => LeafOp::Append(
                fragment.clone(),
                *is_initial,
            ),
            ParseEvent::ArrayStart { .. } => {
                let v: Vec<JsonValue> = Vec::new();
                proof {
                    lemma_array_tree(v);
                    assert(trees(v@) =~= Seq::<JsonTree>::empty());
                }
                LeafOp::Replace(JsonValue::Array(v))
            },
            ParseEvent::ObjectBegin { .. } => {
                let v: Vec<(String, JsonValue)> = Vec::new();
                proof {
                    lemma_object_tree(v);
                    assert(member_trees(v@) =~= Seq::<(Seq<char>, JsonTree)>::empty());
                }
                LeafOp::Replace(JsonValue::Object(v))
            },
            ParseEvent::ArrayEnd { .. } => LeafOp::Keep,
            ParseEvent::ObjectEnd { .. } => LeafOp::Keep,
        };
        proof {
            assert(op.as_update() == event_leaf(*event));
            assert(path_view(path@).skip(0) =~= path_view(path@));
        }
        let mut root = JsonValue::Null;
        core::mem::swap(&mut root, &mut self.root);
        let (n, leaf) = align_value(root, path, 0, op);
        self.root = n;
        let at_root = path.len() == 0;
        let p = copy_path(path);
        match event {
            ParseEvent::Null { .. } => AppliedRef::Scalar { path: p, leaf },
            ParseEvent::Boolean { .. } => AppliedRef::Scalar { path: p, leaf },
            ParseEvent::Number { .. } => AppliedRef::Scalar { path: p, leaf },
            ParseEvent::String { fragment, is_initial, is_final, .. } => AppliedRef::String {
                path: p,
                leaf,
                fragment: fragment.clone(),
                is_initial: *is_initial,
                is_final: *is_final,
                buffered: None,
            },
            ParseEvent::ArrayStart { .. } => AppliedRef::ArrayBegin { path: p, leaf },
            ParseEvent::ObjectBegin { .. } => AppliedRef::ObjectBegin { path: p, leaf },
            ParseEvent::ArrayEnd { .. } => AppliedRef::ArrayEnd { path: p, leaf, root_completed: at_root },
            ParseEvent::ObjectEnd { .. } => AppliedRef::ObjectEnd {
                path: p,
                leaf,
                root_completed: at_root,
            },
        }
    }

    /// The value tree.
    pub fn read_root(&self) -> (r: &JsonValue)
        ensures
            r.tree() == self.root_view(),
    {
        &self.root
    }

    /// Takes the value tree out, leaving `null`.
    pub fn take_root(&mut self) -> (r: JsonValue)
        ensures
            r.tree() == old(self).root_view(),
            final(self).root_view() == JsonTree::Null,
            final(self).buffer_options() == old(self).buffer_options(),
    {
        let mut root = JsonValue::Null;
        core::mem::swap(&mut root, &mut self.root);
        root
    }

    /// The buffering options.
    pub fn options(&self) -> (r: BufferOptions)
        ensures
            r == self.buffer_options(),
    {
        self.options
    }
}

} // verus!
