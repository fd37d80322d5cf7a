//! A JSON value model for schema documents.
//!
//! Numbers are kept as their JSON text. Objects are ordered lists of entries with distinct
//! keys; they are built and changed through the operations below, which act as a map would
//! (an insert replaces the value of an existing key in place, or appends a new entry).

use vstd::prelude::*;
use crate::text::{chars_of, push_str};

verus! {

/// A JSON value.
#[derive(Debug)]
pub enum Json {
    Null,
    Bool(bool),
    /// A number, as its JSON text.
    Number(String),
    Str(String),
    Array(Vec<Json>),
    Object(Vec<(String, Json)>),
}

/// The mathematical value of a [`Json`].
pub enum JsonView {
    Null,
    Bool(bool),
    Number(Seq<char>),
    Str(Seq<char>),
    Array(Seq<JsonView>),
    Object(Seq<(Seq<char>, JsonView)>),
}

/// The view of a JSON value.
pub open spec fn json_view(j: Json) -> JsonView
    decreases j,
{
    match j {
        Json::Null => JsonView::Null,
        Json::Bool(b) => JsonView::Bool(b),
        Json::Number(n) => JsonView::Number(n@),
        Json::Str(s) => JsonView::Str(s@),
        Json::Array(v) => JsonView::Array(items_view(v@)),
        Json::Object(v) => JsonView::Object(entries_view(v@)),
    }
}

/// The views of array items.
pub open spec fn items_view(s: Seq<Json>) -> Seq<JsonView>
    decreases s,
{
    if s.len() == 0 {
        Seq::empty()
    } else {
        items_view(s.drop_last()).push(json_view(s.last()))
    }
}

/// The views of object entries.
pub open spec fn entries_view(s: Seq<(String, Json)>) -> Seq<(Seq<char>, JsonView)>
    decreases s,
{
    if s.len() == 0 {
        Seq::empty()
    } else {
        entries_view(s.drop_last()).push((s.last().0@, json_view(s.last().1)))
    }
}

/// `items_view` item by item.
pub proof fn lemma_items_view(s: Seq<Json>)
    ensures
        items_view(s).len() == s.len(),
        forall|i: int| 0 <= i < s.len() ==> #[trigger] items_view(s)[i] == json_view(s[i]),
    decreases s.len(),
{
    if s.len() > 0 {
        lemma_items_view(s.drop_last());
    }
}

/// `entries_view` entry by entry.
pub proof fn lemma_entries_view(s: Seq<(String, Json)>)
    ensures
        entries_view(s).len() == s.len(),
        forall|i: int|
            0 <= i < s.len() ==> #[trigger] entries_view(s)[i] == (s[i].0@, json_view(s[i].1)),
    decreases s.len(),
{
    if s.len() > 0 {
        lemma_entries_view(s.drop_last());
    }
}

// ---------------------------------------------------------------------------------------
// Sizes
// ---------------------------------------------------------------------------------------

/// The number of nodes of a JSON value.
pub open spec fn jsize(v: JsonView) -> nat
    decreases v,
{
    match v {
        JsonView::Array(s) => 1 + items_size(s),
        JsonView::Object(e) => 1 + entries_size(e),
        _ => 1,
    }
}

/// The number of nodes of array items.
pub open spec fn items_size(s: Seq<JsonView>) -> nat
    decreases s,
{
    if s.len() == 0 {
        0
    } else {
        items_size(s.drop_last()) + jsize(s.last())
    }
}

/// The number of nodes of object values.
pub open spec fn entries_size(e: Seq<(Seq<char>, JsonView)>) -> nat
    decreases e,
{
    if e.len() == 0 {
        0
    } else {
        entries_size(e.drop_last()) + jsize(e.last().1)
    }
}

/// Every value is at least one node.
pub proof fn lemma_jsize_pos(v: JsonView)
    ensures
        jsize(v) >= 1,
{
}

/// An item is no larger than all items together.
pub proof fn lemma_items_size_elem(s: Seq<JsonView>, i: int)
    requires
        0 <= i < s.len(),
    ensures
        jsize(s[i]) <= items_size(s),
    decreases s.len(),
{
    if i < s.len() - 1 {
        lemma_items_size_elem(s.drop_last(), i);
    }
}

/// Two distinct items are no larger than all items together.
pub proof fn lemma_items_size_two(s: Seq<JsonView>, i: int, j: int)
    requires
        0 <= i < s.len(),
        0 <= j < s.len(),
        i != j,
    ensures
        jsize(s[i]) + jsize(s[j]) <= items_size(s),
    decreases s.len(),
{
    let n = s.len() - 1;
    if i == n {
        lemma_items_size_elem(s.drop_last(), j);
    } else if j == n {
        lemma_items_size_elem(s.drop_last(), i);
    } else {
        lemma_items_size_two(s.drop_last(), i, j);
    }
}

/// A value is no larger than all values together.
pub proof fn lemma_entries_size_elem(e: Seq<(Seq<char>, JsonView)>, i: int)
    requires
        0 <= i < e.len(),
    ensures
        jsize(e[i].1) <= entries_size(e),
    decreases e.len(),
{
    if i < e.len() - 1 {
        lemma_entries_size_elem(e.drop_last(), i);
    }
}

/// Whether every value of `e` has fewer than `b` nodes.
pub open spec fn values_below(e: Seq<(Seq<char>, JsonView)>, b: nat) -> bool {
    forall|i: int| 0 <= i < e.len() ==> #[trigger] jsize(e[i].1) < b
}

// ---------------------------------------------------------------------------------------
// Objects
// ---------------------------------------------------------------------------------------

/// The position of the first entry with key `k`.
pub open spec fn obj_find(e: Seq<(Seq<char>, JsonView)>, k: Seq<char>) -> Option<nat>
    decreases e.len(),
{
    if e.len() == 0 {
        None
    } else if e[0].0 == k {
        Some(0)
    } else {
        match obj_find(e.drop_first(), k) {
            Some(i) => Some(i + 1),
            None => None,
        }
    }
}

/// The value of key `k`.
pub open spec fn obj_get(e: Seq<(Seq<char>, JsonView)>, k: Seq<char>) -> Option<JsonView> {
    match obj_find(e, k) {
        Some(i) => Some(e[i as int].1),
        None => None,
    }
}

/// The entries after setting `k` to `v` (in place, or appended).
pub open spec fn obj_insert(e: Seq<(Seq<char>, JsonView)>, k: Seq<char>, v: JsonView) -> Seq<
    (Seq<char>, JsonView),
> {
    match obj_find(e, k) {
        Some(i) => e.update(i as int, (k, v)),
        None => e.push((k, v)),
    }
}

/// The entries without key `k`.
pub open spec fn obj_remove(e: Seq<(Seq<char>, JsonView)>, k: Seq<char>) -> Seq<
    (Seq<char>, JsonView),
> {
    match obj_find(e, k) {
        Some(i) => e.remove(i as int),
        None => e,
    }
}

/// The value of key `k` of an object value (`Value::get`); nothing for other values.
pub open spec fn get_field(v: JsonView, k: Seq<char>) -> Option<JsonView> {
    match v {
        JsonView::Object(e) => obj_get(e, k),
        _ => None,
    }
}

/// What `obj_find` says of its result.
pub proof fn lemma_obj_find_some(e: Seq<(Seq<char>, JsonView)>, k: Seq<char>)
    ensures
        match obj_find(e, k) {
            Some(i) => i < e.len() && e[i as int].0 == k,
            None => forall|j: int| 0 <= j < e.len() ==> e[j].0 != k,
        },
    decreases e.len(),
{
    if e.len() > 0 && e[0].0 != k {
        lemma_obj_find_some(e.drop_first(), k);
        assert forall|j: int| 0 <= j < e.len() && obj_find(e, k) is None implies e[j].0 != k by {
            if j > 0 {
                assert(e.drop_first()[j - 1] == e[j]);
            }
        }
    }
}

/// A value of an object is smaller than the object.
pub proof fn lemma_obj_get_size(e: Seq<(Seq<char>, JsonView)>, k: Seq<char>)
    ensures
        obj_get(e, k) matches Some(x) ==> jsize(x) <= entries_size(e),
{
    lemma_obj_find_some(e, k);
    if let Some(i) = obj_find(e, k) {
        lemma_entries_size_elem(e, i as int);
    }
}

/// Inserting and removing keep all values below a bound.
pub proof fn lemma_obj_ops_below(e: Seq<(Seq<char>, JsonView)>, k: Seq<char>, v: JsonView, b: nat)
    requires
        values_below(e, b),
    ensures
        jsize(v) < b ==> values_below(obj_insert(e, k, v), b),
        values_below(obj_remove(e, k), b),
        jsize(v) < b ==> values_below(e.push((k, v)), b),
{
    lemma_obj_find_some(e, k);
    if jsize(v) < b {
        let r = obj_insert(e, k, v);
        assert forall|i: int| 0 <= i < r.len() implies #[trigger] jsize(r[i].1) < b by {
            if i < e.len() && r[i] != (k, v) {
                assert(r[i] == e[i]);
                assert(jsize(e[i].1) < b);
            }
        }
        let p = e.push((k, v));
        assert forall|i: int| 0 <= i < p.len() implies #[trigger] jsize(p[i].1) < b by {
            if i < e.len() {
                assert(p[i] == e[i]);
                assert(jsize(e[i].1) < b);
            }
        }
    }
    let r = obj_remove(e, k);
    if let Some(j) = obj_find(e, k) {
        assert forall|i: int| 0 <= i < r.len() implies #[trigger] jsize(r[i].1) < b by {
            if i < j {
                assert(r[i] == e[i]);
                assert(jsize(e[i].1) < b);
            } else {
                assert(r[i] == e[i + 1]);
                assert(jsize(e[i + 1].1) < b);
            }
        }
    }
}

proof fn lemma_obj_find(e: Seq<(Seq<char>, JsonView)>, k: Seq<char>, i: int)
    requires
        0 <= i <= e.len(),
        forall|j: int| 0 <= j < i ==> e[j].0 != k,
        i < e.len() ==> e[i].0 == k,
    ensures
        obj_find(e, k) == (if i < e.len() { Some(i as nat) } else { None::<nat> }),
    decreases e.len(),
{
    if e.len() > 0 && i > 0 {
        let t = e.drop_first();
        assert forall|j: int| 0 <= j < i - 1 implies t[j].0 != k by {
            assert(t[j] == e[j + 1]);
        }
        lemma_obj_find(t, k, i - 1);
        if i < e.len() {
            assert(t[i - 1] == e[i]);
        }
    }
}

/// Finds the first entry with key `k`.
pub fn find_entry(entries: &Vec<(String, Json)>, k: &str) -> (r: Option<usize>)
    ensures
        match r {
            Some(i) => obj_find(entries_view(entries@), k@) == Some(i as nat) && i
                < entries@.len(),
            None => obj_find(entries_view(entries@), k@) is None,
        },
{
    let ghost e = entries_view(entries@);
    proof {
        lemma_entries_view(entries@);
    }
    let mut i: usize = 0;
    while i < entries.len()
        invariant
            i <= entries@.len(),
            e == entries_view(entries@),
            e.len() == entries@.len(),
            forall|j: int| 0 <= j < entries@.len() ==> #[trigger] e[j] == (entries@[j].0@, json_view(entries@[j].1)),
            forall|j: int| 0 <= j < i ==> e[j].0 != k@,
        decreases entries@.len() - i,
    {
        assert(e[i as int].0 == entries@[i as int].0@);
        if str_equal(entries[i].0.as_str(), k) {
            proof {
                lemma_obj_find(e, k@, i as int);
            }
            return Some(i);
        }
        i = i + 1;
    }
    proof {
        lemma_obj_find(e, k@, i as int);
    }
    None
}

/// Whether two texts are equal.
pub fn str_equal(a: &str, b: &str) -> (r: bool)
    ensures
        r == (a@ == b@),
{
    let x = chars_of(a);
    let y = chars_of(b);
    if x.len() != y.len() {
        return false;
    }
    let mut i: usize = 0;
    while i < x.len()
        invariant
            x@ == a@,
            y@ == b@,
            x@.len() == y@.len(),
            i <= x@.len(),
            forall|j: int| 0 <= j < i ==> x@[j] == y@[j],
        decreases x@.len() - i,
    {
        if x[i] != y[i] {
            return false;
        }
        i = i + 1;
    }
    assert(x@ =~= y@);
    true
}

/// The value of key `k`.
pub fn object_get<'a>(entries: &'a Vec<(String, Json)>, k: &str) -> (r: Option<&'a Json>)
    ensures
        match obj_get(entries_view(entries@), k@) {
            Some(v) => r matches Some(x) && json_view(*x) == v,
            None => r is None,
        },
{
    proof {
        lemma_entries_view(entries@);
    }
    match find_entry(entries, k) {
        Some(i) => Some(&entries[i].1),
        None => None,
    }
}

/// Sets `k` to `v`: an existing key keeps its place, a new one goes last.
pub fn object_insert(entries: &mut Vec<(String, Json)>, k: String, v: Json)
    ensures
        entries_view(final(entries)@) == obj_insert(entries_view(old(entries)@), k@, json_view(v)),
{
    let ghost kv = (k@, json_view(v));
    proof {
        lemma_entries_view(entries@);
    }
    match find_entry(entries, k.as_str()) {
        Some(i) => {
            let ghost before = entries@;
            entries.set(i, (k, v));
            proof {
                lemma_entries_view(entries@);
                assert(entries_view(entries@) =~= entries_view(before).update(i as int, kv));
            }
        },
        None => {
            let ghost before = entries@;
            entries.push((k, v));
            proof {
                assert(entries@.drop_last() =~= before);
            }
        },
    }
}

/// Removes key `k`, returning its value.
pub fn object_remove(entries: &mut Vec<(String, Json)>, k: &str) -> (r: Option<Json>)
    ensures
        entries_view(final(entries)@) == obj_remove(entries_view(old(entries)@), k@),
        match obj_get(entries_view(old(entries)@), k@) {
            Some(x) => r matches Some(y) && json_view(y) == x,
            None => r is None,
        },
{
    proof {
        lemma_entries_view(entries@);
    }
    match find_entry(entries, k) {
        Some(i) => {
            let ghost before = entries@;
            let (_, value) = entries.remove(i);
            proof {
                lemma_entries_view(entries@);
                assert(entries_view(entries@) =~= entries_view(before).remove(i as int));
            }
            Some(value)
        },
        None => None,
    }
}

/// Sets `k` to `v` unless `k` is present (`entry(k).or_insert(v)`).
pub fn object_insert_absent(entries: &mut Vec<(String, Json)>, k: String, v: Json)
    ensures
        entries_view(final(entries)@) == (if obj_find(entries_view(old(entries)@), k@) is Some {
            entries_view(old(entries)@)
        } else {
            entries_view(old(entries)@).push((k@, json_view(v)))
        }),
{
    match find_entry(entries, k.as_str()) {
        Some(_) => {},
        None => {
            let ghost before = entries@;
            entries.push((k, v));
            proof {
                assert(entries@.drop_last() =~= before);
            }
        },
    }
}

/// A string value from text.
pub fn json_str(s: &str) -> (r: Json)
    ensures
        json_view(r) == JsonView::Str(s@),
{
    let mut t = String::new();
    push_str(&mut t, s);
    assert(t@ =~= s@);
    Json::Str(t)
}

/// A text as a `String`.
pub fn owned(s: &str) -> (r: String)
    ensures
        r@ == s@,
{
    let mut t = String::new();
    push_str(&mut t, s);
    assert(t@ =~= s@);
    t
}

// ---------------------------------------------------------------------------------------
// Copies
// ---------------------------------------------------------------------------------------

/// A copy of a JSON value.
pub fn clone_json(j: &Json) -> (r: Json)
    ensures
        json_view(r) == json_view(*j),
    decreases j,
{
    match j {
        Json::Null => Json::Null,
        Json::Bool(b) => Json::Bool(*b),
        Json::Number(n) => Json::Number(n.clone()),
        Json::Str(s) => Json::Str(s.clone()),
        Json::Array(v) => {
            let mut out: Vec<Json> = Vec::new();
            let mut i: usize = 0;
            while i < v.len()
                invariant
                    *j == Json::Array(*v),
                    i <= v@.len(),
                    items_view(out@) == items_view(v@.take(i as int)),
                decreases v@.len() - i,
            {
                proof {
                    assert((*j)->Array_0 == *v);
                    assert(decreases_to!(*j => (*j)->Array_0));
                    assert(decreases_to!(*v => v@));
                    assert(decreases_to!(v@ => v@[i as int]));
                }
                let c = clone_json(&v[i]);
                let ghost before = out@;
                out.push(c);
                proof {
                    assert(out@.drop_last() =~= before);
                    assert(v@.take(i + 1).drop_last() =~= v@.take(i as int));
                }
                i = i + 1;
            }
            assert(v@.take(v@.len() as int) =~= v@);
            Json::Array(out)
        },
        Json::Object(v) => {
            let mut out: Vec<(String, Json)> = Vec::new();
            let mut i: usize = 0;
            while i < v.len()
                invariant
                    *j == Json::Object(*v),
                    i <= v@.len(),
                    entries_view(out@) == entries_view(v@.take(i as int)),
                decreases v@.len() - i,
            {
                proof {
                    assert((*j)->Object_0 == *v);
                    assert(decreases_to!(*j => (*j)->Object_0));
                    assert(decreases_to!(*v => v@));
                    assert(decreases_to!(v@ => v@[i as int]));
                    assert(decreases_to!(v@[i as int] => v@[i as int].1));
                }
                let c = clone_json(&v[i].1);
                let k = v[i].0.clone();
                let ghost before = out@;
                out.push((k, c));
                proof {
                    assert(out@.drop_last() =~= before);
                    assert(v@.take(i + 1).drop_last() =~= v@.take(i as int));
                }
                i = i + 1;
            }
            assert(v@.take(v@.len() as int) =~= v@);
            Json::Object(out)
        },
    }
}

} // verus!
