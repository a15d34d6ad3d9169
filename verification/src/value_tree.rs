//! Partial JSON values built from parse events: each event updates the slot
//! that its path designates (a scalar is put there, a string fragment is
//! appended to the string there, a container start opens an empty container
//! there unless one is already open), and a value is handed out whenever a
//! root value is complete (or, on request, while a root string grows).
//! Numbers are kept as their lexemes.
use vstd::prelude::*;
use vstd::utf8::{decode_utf8, encode_utf8};
use crate::event::{ParseEvent, PathComponent, PathItemView, event_path, path_view};
use crate::text::push_str;

verus! {

/// A JSON value; numbers are kept as their lexemes, and the members of an
/// object in the order of their keys (byte-wise, as a map keyed by strings
/// keeps them), each key once.
#[derive(Debug, PartialEq)]
pub enum JsonValue {
    Null,
    Boolean(bool),
    Number(String),
    String(String),
    Array(Vec<JsonValue>),
    Object(Vec<(String, JsonValue)>),
}

/// The mathematical view of a JSON value.
pub enum JsonTree {
    Null,
    Boolean(bool),
    Number(Seq<char>),
    String(Seq<char>),
    Array(Seq<JsonTree>),
    Object(Seq<(Seq<char>, JsonTree)>),
}

impl JsonValue {
    /// The value as a tree of sequences.
    pub open spec fn tree(&self) -> JsonTree
        decreases self,
    {
        match self {
            JsonValue::Null => JsonTree::Null,
            JsonValue::Boolean(b) => JsonTree::Boolean(*b),
            JsonValue::Number(s) => JsonTree::Number(s@),
            JsonValue::String(s) => JsonTree::String(s@),
            JsonValue::Array(v) => JsonTree::Array(
                Seq::new(
                    v@.len(),
                    |i: int|
                        if 0 <= i < v@.len() {
                            v@[i].tree()
                        } else {
                            JsonTree::Null
                        },
                ),
            ),
            JsonValue::Object(v) => JsonTree::Object(
                Seq::new(
                    v@.len(),
                    |i: int|
                        if 0 <= i < v@.len() {
                            (v@[i].0@, v@[i].1.tree())
                        } else {
                            (Seq::empty(), JsonTree::Null)
                        },
                ),
            ),
        }
    }
}

/// The trees of a sequence of values.
pub open spec fn trees(items: Seq<JsonValue>) -> Seq<JsonTree> {
    Seq::new(items.len(), |i: int| items[i].tree())
}

/// The members of an object as trees.
pub open spec fn member_trees(items: Seq<(String, JsonValue)>) -> Seq<(Seq<char>, JsonTree)> {
    Seq::new(items.len(), |i: int| (items[i].0@, items[i].1.tree()))
}

/// An array's tree is the sequence of its elements' trees.
pub proof fn lemma_array_tree(items: Vec<JsonValue>)
    ensures
        JsonValue::Array(items).tree() == JsonTree::Array(trees(items@)),
{
    let a = JsonValue::Array(items).tree()->Array_0;
    assert(a =~= trees(items@));
}

/// An object's tree is the sequence of its members as trees.
pub proof fn lemma_object_tree(items: Vec<(String, JsonValue)>)
    ensures
        JsonValue::Object(items).tree() == JsonTree::Object(member_trees(items@)),
{
    let a = JsonValue::Object(items).tree()->Object_0;
    assert(a =~= member_trees(items@));
}

/// A copy of a value, element by element.
pub fn clone_value(v: &JsonValue) -> (r: JsonValue)
    ensures
        r.tree() == v.tree(),
    decreases v,
{
    match v {
        JsonValue::Null => JsonValue::Null,
        JsonValue::Boolean(b) => JsonValue::Boolean(*b),
        JsonValue::Number(s) => JsonValue::Number(s.clone()),
        JsonValue::String(s) => JsonValue::String(s.clone()),
        JsonValue::Array(items) => {
            let mut out: Vec<JsonValue> = Vec::new();
            let mut i: usize = 0;
            while i < items.len()
                invariant
                    *v == JsonValue::Array(*items),
                    i <= items@.len(),
                    out@.len() == i,
                    forall|k: int| 0 <= k < i ==> out@[k].tree() == items@[k].tree(),
                decreases items@.len() - i,
            {
                proof {
                    assert(decreases_to!(*v => (*v)->Array_0));
                    assert(decreases_to!((*v)->Array_0 => (*v)->Array_0@));
                    assert(decreases_to!((*v)->Array_0@ => (*v)->Array_0@[i as int]));
                }
                let c = clone_value(&items[i]);
                out.push(c);
                i = i + 1;
            }
            proof {
                lemma_array_tree(out);
                lemma_array_tree(*items);
                assert(trees(out@) =~= trees(items@));
            }
            JsonValue::Array(out)
        },
        JsonValue::Object(items) => {
            let mut out: Vec<(String, JsonValue)> = Vec::new();
            let mut i: usize = 0;
            while i < items.len()
                invariant
                    *v == JsonValue::Object(*items),
                    i <= items@.len(),
                    out@.len() == i,
                    forall|k: int|
                        0 <= k < i ==> out@[k].0@ == items@[k].0@ && out@[k].1.tree()
                            == items@[k].1.tree(),
                decreases items@.len() - i,
            {
                proof {
                    assert(decreases_to!(*v => (*v)->Object_0));
                    assert(decreases_to!((*v)->Object_0 => (*v)->Object_0@));
                    assert(decreases_to!((*v)->Object_0@ => (*v)->Object_0@[i as int]));
                    assert(decreases_to!((*v)->Object_0@[i as int] => (*v)->Object_0@[i as int].1));
                }
                let c = clone_value(&items[i].1);
                out.push((items[i].0.clone(), c));
                i = i + 1;
            }
            proof {
                lemma_object_tree(out);
                lemma_object_tree(*items);
                assert(member_trees(out@) =~= member_trees(items@));
            }
            JsonValue::Object(out)
        },
    }
}

/// What an event does to the slot its path designates.
pub enum SlotUpdate {
    /// Puts a value there.
    Put(JsonTree),
    /// Appends to the string there (an empty string if the slot is free).
    Append(Seq<char>),
    /// Opens the given empty container there unless the slot holds a value.
    Open(JsonTree),
}

/// The slot's content after the update; `None` when a fragment would be
/// appended to something other than a string.
pub open spec fn update_slot(existing: Option<JsonTree>, u: SlotUpdate) -> Option<JsonTree> {
    match u {
        SlotUpdate::Put(v) => Some(v),
        SlotUpdate::Append(f) => match existing {
            None => Some(JsonTree::String(f)),
            Some(JsonTree::String(s)) => Some(JsonTree::String(s + f)),
            Some(_) => None,
        },
        SlotUpdate::Open(c) => match existing {
            None => Some(c),
            Some(e) => Some(e),
        },
    }
}

/// Byte-wise lexicographic order: the order of `str`, and so the order of
/// the keys of a map keyed by strings.
pub open spec fn bytes_lt(a: Seq<u8>, b: Seq<u8>) -> bool
    decreases a.len(),
{
    if a.len() == 0 {
        b.len() > 0
    } else if b.len() == 0 {
        false
    } else if a[0] != b[0] {
        a[0] < b[0]
    } else {
        bytes_lt(a.drop_first(), b.drop_first())
    }
}

/// The order of keys: the order of their UTF-8 encodings.
pub open spec fn key_lt(a: Seq<char>, b: Seq<char>) -> bool {
    bytes_lt(encode_utf8(a), encode_utf8(b))
}

/// Where key `k` goes among the members `ms`, which are kept in key order:
/// after the leading members whose keys come before it.
pub open spec fn insert_pos(ms: Seq<(Seq<char>, JsonTree)>, k: Seq<char>) -> int
    decreases ms.len(),
{
    if ms.len() == 0 {
        0
    } else if key_lt(ms[0].0, k) {
        1 + insert_pos(ms.drop_first(), k)
    } else {
        0
    }
}

/// The position of the member with key `k`, if there is one where the key
/// goes.
pub open spec fn key_pos(ms: Seq<(Seq<char>, JsonTree)>, k: Seq<char>) -> Option<int> {
    let p = insert_pos(ms, k);
    if p < ms.len() && ms[p].0 == k {
        Some(p)
    } else {
        None
    }
}

/// `t` with the slot that the (non-empty) relative `path` designates
/// updated: every component but the last leads to an existing element or
/// member; the last designates an element (an existing one, or the next
/// one) or a member (an existing one, or a new one placed in key order). `None` when
/// the path does not lead to a slot.
pub open spec fn update_at(t: JsonTree, path: Seq<PathItemView>, u: SlotUpdate) -> Option<JsonTree>
    decreases path.len(),
{
    if path.len() == 0 {
        None
    } else {
        match t {
            JsonTree::Array(items) => match path[0] {
                PathItemView::Index(i) => if path.len() == 1 {
                    if i < items.len() {
                        match update_slot(Some(items[i as int]), u) {
                            Some(n) => Some(JsonTree::Array(items.update(i as int, n))),
                            None => None,
                        }
                    } else if i == items.len() {
                        match update_slot(None, u) {
                            Some(n) => Some(JsonTree::Array(items.push(n))),
                            None => None,
                        }
                    } else {
                        None
                    }
                } else if i < items.len() {
                    match update_at(items[i as int], path.drop_first(), u) {
                        Some(n) => Some(JsonTree::Array(items.update(i as int, n))),
                        None => None,
                    }
                } else {
                    None
                },
                PathItemView::Key(_) => None,
            },
            JsonTree::Object(ms) => match path[0] {
                PathItemView::Key(k) => match key_pos(ms, k) {
                    Some(p) => if path.len() == 1 {
                        match update_slot(Some(ms[p].1), u) {
                            Some(n) => Some(JsonTree::Object(ms.update(p, (k, n)))),
                            None => None,
                        }
                    } else {
                        match update_at(ms[p].1, path.drop_first(), u) {
                            Some(n) => Some(JsonTree::Object(ms.update(p, (k, n)))),
                            None => None,
                        }
                    },
                    None => if path.len() == 1 {
                        match update_slot(None, u) {
                            Some(n) => Some(JsonTree::Object(ms.insert(insert_pos(ms, k), (k, n)))),
                            None => None,
                        }
                    } else {
                        None
                    },
                },
                PathItemView::Index(_) => None,
            },
            _ => None,
        }
    }
}

/// `insert_pos` lies within the members.
pub proof fn lemma_insert_pos(ms: Seq<(Seq<char>, JsonTree)>, k: Seq<char>)
    ensures
        0 <= insert_pos(ms, k) <= ms.len(),
    decreases ms.len(),
{
    if ms.len() > 0 {
        lemma_insert_pos(ms.drop_first(), k);
    }
}

/// The members' keys are in strictly increasing order (so each key once),
/// as in a map keyed by strings.
pub open spec fn members_ordered(ms: Seq<(Seq<char>, JsonTree)>) -> bool {
    forall|i: int, j: int| 0 <= i < j < ms.len() ==> key_lt(#[trigger] ms[i].0, #[trigger] ms[j].0)
}

/// The byte order is transitive.
pub proof fn lemma_bytes_lt_trans(a: Seq<u8>, b: Seq<u8>, c: Seq<u8>)
    requires
        bytes_lt(a, b),
        bytes_lt(b, c),
    ensures
        bytes_lt(a, c),
    decreases a.len(),
{
    if a.len() > 0 && b.len() > 0 && c.len() > 0 && a[0] == b[0] && b[0] == c[0] {
        lemma_bytes_lt_trans(a.drop_first(), b.drop_first(), c.drop_first());
    }
}

/// Two different byte sequences are ordered one way or the other.
pub proof fn lemma_bytes_lt_total(a: Seq<u8>, b: Seq<u8>)
    requires
        a != b,
    ensures
        bytes_lt(a, b) || bytes_lt(b, a),
    decreases a.len(),
{
    if a.len() == 0 {
        assert(b.len() > 0) by {
            if b.len() == 0 {
                assert(a =~= b);
            }
        }
    } else if b.len() > 0 && a[0] == b[0] {
        if a.drop_first() == b.drop_first() {
            assert(a =~= seq![a[0]] + a.drop_first());
            assert(b =~= seq![b[0]] + b.drop_first());
        }
        lemma_bytes_lt_total(a.drop_first(), b.drop_first());
    }
}

/// Two different keys are ordered one way or the other.
pub proof fn lemma_key_lt_total(a: Seq<char>, b: Seq<char>)
    requires
        a != b,
    ensures
        key_lt(a, b) || key_lt(b, a),
{
    broadcast use vstd::utf8::encode_utf8_decode_utf8;

    if encode_utf8(a) == encode_utf8(b) {
        assert(decode_utf8(encode_utf8(a)) == a);
        assert(decode_utf8(encode_utf8(b)) == b);
    }
    lemma_bytes_lt_total(encode_utf8(a), encode_utf8(b));
}

/// The members before the insertion point have smaller keys; the one at it
/// (if any) has not.
pub proof fn lemma_insert_pos_bounds(ms: Seq<(Seq<char>, JsonTree)>, k: Seq<char>)
    ensures
        0 <= insert_pos(ms, k) <= ms.len(),
        forall|i: int| 0 <= i < insert_pos(ms, k) ==> key_lt(#[trigger] ms[i].0, k),
        insert_pos(ms, k) < ms.len() ==> !key_lt(ms[insert_pos(ms, k)].0, k),
    decreases ms.len(),
{
    if ms.len() > 0 && key_lt(ms[0].0, k) {
        lemma_insert_pos_bounds(ms.drop_first(), k);
        assert forall|i: int| 0 <= i < insert_pos(ms, k) implies key_lt(#[trigger] ms[i].0, k) by {
            if i > 0 {
                assert(ms[i] == ms.drop_first()[i - 1]);
            }
        }
        if insert_pos(ms, k) < ms.len() {
            assert(ms[insert_pos(ms, k)] == ms.drop_first()[insert_pos(ms.drop_first(), k)]);
        }
    }
}

/// A member with a new key, placed where `insert_pos` puts it, keeps the
/// members in key order; replacing the value of a member keeps them so too.
pub proof fn lemma_members_stay_ordered(
    ms: Seq<(Seq<char>, JsonTree)>,
    k: Seq<char>,
    n: JsonTree,
)
    requires
        members_ordered(ms),
    ensures
        key_pos(ms, k) is None ==> members_ordered(ms.insert(insert_pos(ms, k), (k, n))),
        key_pos(ms, k) matches Some(p) ==> members_ordered(ms.update(p, (k, n))),
{
    let p = insert_pos(ms, k);
    lemma_insert_pos_bounds(ms, k);
    if key_pos(ms, k) is None {
        let nm = ms.insert(p, (k, n));
        if p < ms.len() {
            assert(ms[p].0 != k);
            lemma_key_lt_total(ms[p].0, k);
        }
        assert forall|i: int, j: int| 0 <= i < j < nm.len() implies key_lt(
            #[trigger] nm[i].0,
            #[trigger] nm[j].0,
        ) by {
            if j < p {
                assert(nm[i] == ms[i] && nm[j] == ms[j]);
            } else if j == p {
                assert(nm[i] == ms[i]);
            } else if i < p {
                assert(nm[i] == ms[i] && nm[j] == ms[j - 1]);
                assert(key_lt(ms[i].0, k));
                if j - 1 > p {
                    assert(key_lt(ms[p].0, ms[j - 1].0));
                    lemma_bytes_lt_trans(
                        encode_utf8(k),
                        encode_utf8(ms[p].0),
                        encode_utf8(ms[j - 1].0),
                    );
                }
                lemma_bytes_lt_trans(encode_utf8(ms[i].0), encode_utf8(k), encode_utf8(ms[j - 1].0));
            } else if i == p {
                assert(nm[j] == ms[j - 1]);
                if j - 1 > p {
                    assert(key_lt(ms[p].0, ms[j - 1].0));
                    lemma_bytes_lt_trans(
                        encode_utf8(k),
                        encode_utf8(ms[p].0),
                        encode_utf8(ms[j - 1].0),
                    );
                }
            } else {
                assert(nm[i] == ms[i - 1] && nm[j] == ms[j - 1]);
            }
        }
    } else {
        let nm = ms.update(p, (k, n));
        assert forall|i: int, j: int| 0 <= i < j < nm.len() implies key_lt(
            #[trigger] nm[i].0,
            #[trigger] nm[j].0,
        ) by {
            assert(nm[i].0 == ms[i].0);
            assert(nm[j].0 == ms[j].0);
        }
    }
}

/// The view of an optional value.
pub open spec fn opt_tree(v: Option<JsonValue>) -> Option<JsonTree> {
    match v {
        Some(x) => Some(x.tree()),
        None => None,
    }
}

/// An update of a slot, with the values it needs.
pub enum SlotOp {
    Put(JsonValue),
    Append(String),
    OpenArray,
    OpenObject,
}

impl SlotOp {
    /// What the update does.
    pub open spec fn as_update(&self) -> SlotUpdate {
        match self {
            SlotOp::Put(v) => SlotUpdate::Put(v.tree()),
            SlotOp::Append(f) => SlotUpdate::Append(f@),
            SlotOp::OpenArray => SlotUpdate::Open(JsonTree::Array(Seq::empty())),
            SlotOp::OpenObject => SlotUpdate::Open(JsonTree::Object(Seq::empty())),
        }
    }
}

/// The content of a slot after an update.
fn apply_slot(existing: Option<JsonValue>, op: SlotOp) -> (r: JsonValue)
    requires
        update_slot(opt_tree(existing), op.as_update()) is Some,
    ensures
        r.tree() == update_slot(opt_tree(existing), op.as_update()).unwrap(),
{
    match op {
        SlotOp::Put(v) => v,
        SlotOp::Append(f) => match existing {
            None => JsonValue::String(f),
            Some(JsonValue::String(s)) => {
                let mut s = s;
                push_str(&mut s, f.as_str());
                JsonValue::String(s)
            },
            Some(_) => {
                vstd::pervasive::unreached()
            },
        },
        SlotOp::OpenArray => match existing {
            None => {
                let v: Vec<JsonValue> = Vec::new();
                proof {
                    lemma_array_tree(v);
                    assert(trees(v@) =~= Seq::<JsonTree>::empty());
                }
                JsonValue::Array(v)
            },
            Some(e) => e,
        },
        SlotOp::OpenObject => match existing {
            None => {
                let v: Vec<(String, JsonValue)> = Vec::new();
                proof {
                    lemma_object_tree(v);
                    assert(member_trees(v@) =~= Seq::<(Seq<char>, JsonTree)>::empty());
                }
                JsonValue::Object(v)
            },
            Some(e) => e,
        },
    }
}

/// Whether `a` comes before `b` in byte-wise lexicographic order.
fn bytes_less(a: &[u8], b: &[u8]) -> (r: bool)
    ensures
        r == bytes_lt(a@, b@),
{
    let mut i: usize = 0;
    assert(a@.skip(0) =~= a@);
    assert(b@.skip(0) =~= b@);
    loop
        invariant
            i <= a@.len(),
            i <= b@.len(),
            bytes_lt(a@, b@) == bytes_lt(a@.skip(i as int), b@.skip(i as int)),
        decreases a@.len() - i,
    {
        if i == a.len() {
            return i < b.len();
        }
        if i == b.len() {
            return false;
        }
        if a[i] != b[i] {
            return a[i] < b[i];
        }
        assert(a@.skip(i as int).drop_first() =~= a@.skip(i + 1));
        assert(b@.skip(i as int).drop_first() =~= b@.skip(i + 1));
        i = i + 1;
    }
}

/// Where key `k` goes among the members `ms`, and whether a member with
/// that key stands there.
pub(crate) fn find_slot(ms: &Vec<(String, JsonValue)>, k: &String) -> (r: (usize, bool))
    ensures
        r.0 == insert_pos(member_trees(ms@), k@),
        r.1 == (key_pos(member_trees(ms@), k@) is Some),
{
    let ghost mt = member_trees(ms@);
    let kb = k.as_str().as_bytes();
    let mut j: usize = 0;
    assert(mt.skip(0) =~= mt);
    while j < ms.len()
        invariant
            j <= ms@.len(),
            mt == member_trees(ms@),
            kb@ == encode_utf8(k@),
            insert_pos(mt, k@) == j + insert_pos(mt.skip(j as int), k@),
        ensures
            j <= ms@.len(),
            insert_pos(mt, k@) == j + insert_pos(mt.skip(j as int), k@),
            j < ms@.len() ==> !key_lt(mt[j as int].0, k@),
        decreases ms@.len() - j,
    {
        let less = bytes_less(ms[j].0.as_str().as_bytes(), kb);
        assert(mt.skip(j as int)[0] == mt[j as int]);
        assert(mt[j as int].0 == ms@[j as int].0@);
        if !less {
            break;
        }
        assert(mt.skip(j as int).drop_first() =~= mt.skip(j + 1));
        j = j + 1;
    }
    proof {
        if j == ms@.len() {
            assert(mt.skip(j as int).len() == 0);
        } else {
            assert(mt.skip(j as int)[0] == mt[j as int]);
        }
        assert(insert_pos(mt, k@) == j);
    }
    let found = j < ms.len() && ms[j].0 == *k;
    proof {
        if j < ms@.len() {
            assert(mt[j as int].0 == ms@[j as int].0@);
        }
    }
    (j, found)
}

/// `v` with the slot designated by the components of `path` from `d` on
/// updated.
fn update_value(v: JsonValue, path: &Vec<PathComponent>, d: usize, op: SlotOp) -> (r: JsonValue)
    requires
        d < path@.len(),
        update_at(v.tree(), path_view(path@).skip(d as int), op.as_update()) is Some,
    ensures
        r.tree() == update_at(v.tree(), path_view(path@).skip(d as int), op.as_update()).unwrap(),
    decreases path@.len() - d,
{
    let ghost rel = path_view(path@).skip(d as int);
    let ghost u = op.as_update();
    proof {
        assert(rel[0] == path@[d as int]@);
        assert(rel.drop_first() =~= path_view(path@).skip(d + 1));
    }
    let last = d == path.len() - 1;
    match v {
        JsonValue::Array(items) => {
            let mut items = items;
            let ghost old_items = items@;
            proof {
                lemma_array_tree(items);
            }
            let i = match &path[d] {
                PathComponent::Index(i) => *i,
                PathComponent::Key(_) => {
                    vstd::pervasive::unreached()
                },
            };
            let ghost n_tree: JsonTree;
            if last {
                if i < items.len() {
                    let old_child = items.remove(i);
                    let n = apply_slot(Some(old_child), op);
                    proof {
                        n_tree = n.tree();
                    }
                    items.insert(i, n);
                } else {
                    let n = apply_slot(None, op);
                    proof {
                        n_tree = n.tree();
                    }
                    items.push(n);
                }
            } else {
                let child = items.remove(i);
                let n = update_value(child, path, d + 1, op);
                proof {
                    n_tree = n.tree();
                }
                items.insert(i, n);
            }
            proof {
                lemma_array_tree(items);
                if i < old_items.len() {
                    assert(trees(items@) =~= trees(old_items).update(i as int, n_tree));
                } else {
                    assert(trees(items@) =~= trees(old_items).push(n_tree));
                }
            }
            JsonValue::Array(items)
        },
        JsonValue::Object(ms) => {
            let mut ms = ms;
            let ghost old_ms = ms@;
            proof {
                lemma_object_tree(ms);
            }
            let k = match &path[d] {
                PathComponent::Key(k) => k,
                PathComponent::Index(_) => {
                    vstd::pervasive::unreached()
                },
            };
            let ghost n_tree: JsonTree;
            let (p, found) = find_slot(&ms, k);
            proof {
                lemma_insert_pos(member_trees(old_ms), k@);
                assert(rel[0] == PathItemView::Key(k@));
                assert(v.tree() == JsonTree::Object(member_trees(old_ms)));
            }
            if found {
                let (key, child) = ms.remove(p);
                proof {
                    assert(key_pos(member_trees(old_ms), k@) == Some(p as int));
                    assert(member_trees(old_ms)[p as int] == (
                        old_ms[p as int].0@,
                        old_ms[p as int].1.tree(),
                    ));
                    assert(key == old_ms[p as int].0 && child == old_ms[p as int].1);
                }
                let n = if last {
                    apply_slot(Some(child), op)
                } else {
                    update_value(child, path, d + 1, op)
                };
                proof {
                    n_tree = n.tree();
                }
                ms.insert(p, (key, n));
                proof {
                    lemma_object_tree(ms);
                    assert(member_trees(ms@) =~= member_trees(old_ms).update(
                        p as int,
                        (k@, n_tree),
                    ));
                }
            } else {
                let n = apply_slot(None, op);
                proof {
                    n_tree = n.tree();
                }
                ms.insert(p, (k.clone(), n));
                proof {
                    lemma_object_tree(ms);
                    assert(member_trees(ms@) =~= member_trees(old_ms).insert(p as int, (k@, n_tree)));
                }
            }
            JsonValue::Object(ms)
        },
        _ => {
            vstd::pervasive::unreached()
        },
    }
}

/// The root after updating the slot that `path` designates: an empty
/// path designates the root itself (a scalar replaces it, a fragment is
/// appended to a string root or starts one, a container is opened only when
/// there is no root yet); any other path designates a slot inside the root.
/// `None` when the update does not apply.
pub open spec fn apply_tree(root: Option<JsonTree>, path: Seq<PathItemView>, u: SlotUpdate) -> Option<
    Option<JsonTree>,
> {
    if path.len() == 0 {
        match u {
            SlotUpdate::Put(v) => Some(Some(v)),
            SlotUpdate::Append(f) => match root {
                None => Some(Some(JsonTree::String(f))),
                Some(JsonTree::String(s)) => Some(Some(JsonTree::String(s + f))),
                Some(_) => None,
            },
            SlotUpdate::Open(c) => match root {
                None => Some(Some(c)),
                Some(_) => None,
            },
        }
    } else {
        match root {
            None => None,
            Some(t) => match update_at(t, path, u) {
                Some(n) => Some(Some(n)),
                None => None,
            },
        }
    }
}

/// What an event does to the slot it designates; `None` for the end of a
/// container, which changes no value.
pub open spec fn event_update(ev: ParseEvent) -> Option<SlotUpdate> {
    match ev {
        ParseEvent::Null { .. } => Some(SlotUpdate::Put(JsonTree::Null)),
        ParseEvent::Boolean { value, .. } => Some(SlotUpdate::Put(JsonTree::Boolean(value))),
        ParseEvent::Number { value, .. } => Some(SlotUpdate::Put(JsonTree::Number(value@))),
        ParseEvent::String { fragment, .. } => Some(SlotUpdate::Append(fragment@)),
        ParseEvent::ArrayStart { .. } => Some(SlotUpdate::Open(JsonTree::Array(Seq::empty()))),
        ParseEvent::ObjectBegin { .. } => Some(SlotUpdate::Open(JsonTree::Object(Seq::empty()))),
        ParseEvent::ArrayEnd { .. } => None,
        ParseEvent::ObjectEnd { .. } => None,
    }
}

/// Whether the event can be applied to `root`: its update applies, and
/// the end of a nested container comes only once there is a root.
pub open spec fn applicable(root: Option<JsonTree>, ev: ParseEvent) -> bool {
    match event_update(ev) {
        Some(u) => apply_tree(root, path_view(event_path(ev)), u) is Some,
        None => event_path(ev).len() > 0 ==> root is Some,
    }
}

/// The root after the event.
pub open spec fn after_event(root: Option<JsonTree>, ev: ParseEvent) -> Option<JsonTree> {
    match event_update(ev) {
        Some(u) => apply_tree(root, path_view(event_path(ev)), u).unwrap(),
        None => root,
    }
}

/// Whether a value is handed out after the event: a root scalar, the end
/// of a root container, the last fragment of a root string, and (when
/// partial values are asked for) every other fragment of a root string.
pub open spec fn emits(root: Option<JsonTree>, ev: ParseEvent, partial: bool) -> bool {
    &&& event_path(ev).len() == 0
    &&& match ev {
        ParseEvent::String { is_final, .. } => is_final || partial,
        ParseEvent::ArrayEnd { .. } => root is Some,
        ParseEvent::ObjectEnd { .. } => root is Some,
        ParseEvent::ArrayStart { .. } => false,
        ParseEvent::ObjectBegin { .. } => false,
        _ => true,
    }
}

/// Whether the value handed out is complete (and the next one gets the next
/// index).
pub open spec fn completes_root(root: Option<JsonTree>, ev: ParseEvent, partial: bool) -> bool {
    emits(root, ev, partial) && !(ev matches ParseEvent::String { is_final, .. } && !is_final)
}

/// A value handed out: its position among the root values, the value, and
/// whether it is complete.
#[derive(Debug, PartialEq)]
pub struct StreamingValue {
    pub index: usize,
    pub value: JsonValue,
    pub is_final: bool,
}

/// Builds the values that a stream of parse events describes.
pub struct PartialValueBuilder {
    root: Option<JsonValue>,
    index: usize,
    partial: bool,
}

impl PartialValueBuilder {
    /// The value built so far, if one has been started.
    pub closed spec fn root_view(&self) -> Option<JsonTree> {
        opt_tree(self.root)
    }

    /// The index of the next root value.
    pub closed spec fn index(&self) -> usize {
        self.index
    }

    /// Whether root strings are handed out while they grow.
    pub closed spec fn partial(&self) -> bool {
        self.partial
    }

    /// An empty builder; `partial` asks for root strings while they grow.
    pub fn new(partial: bool) -> (r: Self)
        ensures
            r.root_view() is None,
            r.index() == 0,
            r.partial() == partial,
    {
        PartialValueBuilder { root: None, index: 0, partial }
    }

    /// The value built so far.
    pub fn root(&self) -> (r: Option<&JsonValue>)
        ensures
            r matches Some(v) ==> self.root_view() == Some(v.tree()),
            r is None ==> self.root_view() is None,
    {
        match &self.root {
            Some(v) => Some(v),
            None => None,
        }
    }

    /// Applies an event: updates the slot its path designates, and hands
    /// out the root value when the event completes it (or, with partial
    /// values, when it extends a root string).
    pub fn apply_event(&mut self, ev: ParseEvent) -> (r: Option<StreamingValue>)
        requires
            applicable(old(self).root_view(), ev),
            old(self).index() < usize::MAX,
        ensures
            final(self).root_view() == after_event(old(self).root_view(), ev),
            final(self).partial() == old(self).partial(),
            r is Some <==> emits(old(self).root_view(), ev, old(self).partial()),
            r matches Some(sv) ==> {
                &&& sv.index == old(self).index()
                &&& Some(sv.value.tree()) == final(self).root_view()
                &&& sv.is_final == !(ev matches ParseEvent::String { is_final, .. } && !is_final)
            },
            final(self).index() == old(self).index() + if completes_root(
                old(self).root_view(),
                ev,
                old(self).partial(),
            ) {
                1int
            } else {
                0int
            },
    {
        let ghost e = ev;
        let (path, op, string_final) = match ev {
            ParseEvent::Null { path } => (path, Some(SlotOp::Put(JsonValue::Null)), true),
            ParseEvent::Boolean { path, value } => (
                path,
                Some(SlotOp::Put(JsonValue::Boolean(value))),
                true,
            ),
            ParseEvent::Number { path, value } => (
                path,
                Some(SlotOp::Put(JsonValue::Number(value))),
                true,
            ),
            ParseEvent::String { path, fragment, is_final, .. } => (
                path,
                Some(SlotOp::Append(fragment)),
                is_final,
            ),
            ParseEvent::ArrayStart { path } => (path, Some(SlotOp::OpenArray), true),
            ParseEvent::ObjectBegin { path } => (path, Some(SlotOp::OpenObject), true),
            ParseEvent::ArrayEnd { path } => (path, None, true),
            ParseEvent::ObjectEnd { path } => (path, None, true),
        };
        proof {
            assert(path@ == event_path(e));
            assert(path_view(path@).len() == path@.len());
        }
        let at_root = path.len() == 0;
        let is_scalar_or_string = match op {
            Some(SlotOp::Put(_)) => true,
            Some(SlotOp::Append(_)) => true,
            _ => false,
        };
        let is_end = op.is_none();
        match op {
            Some(op) => {
                proof {
                    assert(event_update(e) == Some(op.as_update()));
                }
                if at_root {
                    let old_root = self.root.take();
                    let n = match op {
                        SlotOp::Put(v) => v,
                        SlotOp::Append(f) => apply_slot(old_root, SlotOp::Append(f)),
                        SlotOp::OpenArray => apply_slot(None, SlotOp::OpenArray),
                        SlotOp::OpenObject => apply_slot(None, SlotOp::OpenObject),
                    };
                    self.root = Some(n);
                } else {
                    let t = match self.root.take() {
                        Some(t) => t,
                        None => {
                            vstd::pervasive::unreached()
                        },
                    };
                    proof {
                        assert(path_view(path@).skip(0) =~= path_view(path@));
                        assert(old(self).root_view() == Some(t.tree()));
                    }
                    let n = update_value(t, &path, 0, op);
                    self.root = Some(n);
                }
            },
            None => {},
        }
        let hand_out = at_root && if is_end {
            self.root.is_some()
        } else if is_scalar_or_string {
            string_final || self.partial
        } else {
            false
        };
        if hand_out {
            let value = match &self.root {
                Some(v) => clone_value(v),
                None => {
                    vstd::pervasive::unreached()
                },
            };
            let index = self.index;
            if string_final {
                self.index = self.index + 1;
            }
            Some(StreamingValue { index, value, is_final: string_final })
        } else {
            None
        }
    }
}

} // verus!
