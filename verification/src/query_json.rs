//! Query parameters from a serialized value: the fields of a JSON object become query keys.
//!
//! The value is the serialized form of a typed query (the application layer serializes it
//! into a [`Json`]); strings are taken as they are, arrays become repeated keys, and other
//! values are written as their JSON text. `null` fields are skipped.

use vstd::prelude::*;
use indexmap::IndexMap;
use crate::json::{entries_view, items_view, json_view, lemma_entries_view, lemma_items_view, Json, JsonView};
use crate::json_text::{json_text, to_json_text};
use crate::path_params::strings_view;
use crate::url_build::{query_entries, query_map_insert, query_map_new, qv_view, upsert, QueryValue};

verus! {

/// How an array item is written as a query value: a string as it is, anything else as its
/// JSON text.
pub open spec fn item_text(x: JsonView) -> Seq<char> {
    match x {
        JsonView::Str(s) => s,
        _ => json_text(x),
    }
}

/// The query value of a serialized value: a string as it is, an array as repeated values,
/// anything else as a scalar holding its JSON text.
pub open spec fn query_value_of(v: JsonView) -> (bool, Seq<Seq<char>>) {
    match v {
        JsonView::Str(s) => (false, seq![s]),
        JsonView::Array(items) => (true, items.map_values(|x: JsonView| item_text(x))),
        _ => (false, seq![json_text(v)]),
    }
}

/// The query entries of object fields, in order, `null` fields skipped (a repeated key takes
/// the later value in place).
pub open spec fn query_entries_of(e: Seq<(Seq<char>, JsonView)>) -> Seq<
    (Seq<char>, (bool, Seq<Seq<char>>)),
>
    decreases e.len(),
{
    if e.len() == 0 {
        Seq::empty()
    } else {
        let prev = query_entries_of(e.drop_last());
        let (k, x) = e.last();
        if x is Null {
            prev
        } else {
            upsert(prev, k, query_value_of(x))
        }
    }
}

/// The query entries of a serialized value: those of its fields when it is an object, none
/// otherwise.
pub open spec fn query_map_of(v: JsonView) -> Seq<(Seq<char>, (bool, Seq<Seq<char>>))> {
    match v {
        JsonView::Object(e) => query_entries_of(e),
        _ => Seq::empty(),
    }
}

/// How an array item is written as a query value.
fn item_string(x: &Json) -> (r: String)
    ensures
        r@ == item_text(json_view(*x)),
{
    match x {
        Json::Str(s) => s.clone(),
        _ => to_json_text(x),
    }
}

impl QueryValue {
    /// Encodes a serialized value as a scalar or array query value: a string as it is, an
    /// array item by item (strings as they are, other items as JSON text), anything else as
    /// its JSON text.
    pub fn from_serializable(value: &Json) -> (r: QueryValue)
        ensures
            qv_view(r) == query_value_of(json_view(*value)),
    {
        match value {
            Json::Str(s) => QueryValue::Scalar(s.clone()),
            Json::Array(items) => {
                let ghost s = items_view(items@);
                proof {
                    lemma_items_view(items@);
                }
                let mut out: Vec<String> = Vec::new();
                let mut i: usize = 0;
                while i < items.len()
                    invariant
                        *value == Json::Array(*items),
                        i <= items@.len(),
                        s == items_view(items@),
                        s.len() == items@.len(),
                        forall|j: int| 0 <= j < items@.len() ==> #[trigger] s[j] == json_view(items@[j]),
                        strings_view(out@) == s.take(i as int).map_values(|x: JsonView| item_text(x)),
                    decreases items@.len() - i,
                {
                    let t = item_string(&items[i]);
                    let ghost before = out@;
                    out.push(t);
                    proof {
                        assert(strings_view(out@) =~= strings_view(before).push(t@));
                        assert(s.take(i + 1).map_values(|x: JsonView| item_text(x)) =~= s.take(
                            i as int,
                        ).map_values(|x: JsonView| item_text(x)).push(item_text(s[i as int])));
                    }
                    i = i + 1;
                }
                assert(s.take(items@.len() as int) =~= s);
                QueryValue::Array(out)
            },
            _ => QueryValue::Scalar(to_json_text(value)),
        }
    }
}

/// Converts a serialized value into query parameters keyed by its field names, in order;
/// `null` fields are skipped, and a value that is not an object gives no parameters.
pub fn serialize_to_query_map(value: &Json) -> (r: IndexMap<String, QueryValue>)
    ensures
        query_entries(r) == query_map_of(json_view(*value)),
{
    let mut map = query_map_new();
    match value {
        Json::Object(entries) => {
            let ghost e = entries_view(entries@);
            proof {
                lemma_entries_view(entries@);
            }
            let mut i: usize = 0;
            while i < entries.len()
                invariant
                    *value == Json::Object(*entries),
                    i <= entries@.len(),
                    e == entries_view(entries@),
                    e.len() == entries@.len(),
                    forall|j: int|
                        0 <= j < entries@.len() ==> #[trigger] e[j] == (
                            entries@[j].0@,
                            json_view(entries@[j].1),
                        ),
                    query_entries(map) == query_entries_of(e.take(i as int)),
                decreases entries@.len() - i,
            {
                assert(e.take(i + 1).drop_last() =~= e.take(i as int));
                assert(e.take(i + 1).last() == e[i as int]);
                match &entries[i].1 {
                    Json::Null => {},
                    x => {
                        let q = QueryValue::from_serializable(x);
                        query_map_insert(&mut map, entries[i].0.clone(), q);
                    },
                }
                i = i + 1;
            }
            assert(e.take(entries@.len() as int) =~= e);
        },
        _ => {},
    }
    map
}

} // verus!
