//! JSON Schema (draft-07) to OpenAPI 3.0 schema conversion.
//!
//! Schemas arrive as [`Json`] values. The conversions rewrite `#/definitions/` references
//! into `#/components/schemas/` ones, drop draft meta keys, and turn draft-07 nullability
//! (`"type": [.., "null"]`, `anyOf`/`oneOf` with a `{"type": "null"}` variant) into OpenAPI's
//! `nullable: true`.

use vstd::prelude::*;
use indexmap::IndexMap;
use crate::openapi::{capitalize, capitalize_spec, sanitize_component_name, spec_sanitize_component_name};
use crate::text::{chars_of, push_str};
use crate::path_params::{spec_path_param_names, strings_view};
use crate::schema::{method_as_str, opt_schema, EndpointSchema, SchemaRegistry};
use crate::url_build::method_text;
use crate::openapi::{
    lower_ascii_seq, operation_id, spec_operation_id, spec_to_openapi_path, to_openapi_path, OpenApiBuilder,
    OpenApiInfo, OpenApiServer, servers_view,
};
use crate::json::{
    clone_json, entries_view, items_view, json_view, jsize, entries_size, items_size, lemma_entries_size_elem,
    lemma_entries_view, lemma_items_size_elem, lemma_items_view, lemma_jsize_pos, lemma_obj_find_some,
    lemma_obj_get_size, lemma_obj_ops_below, obj_find, obj_get, obj_insert, obj_remove, object_get,
    str_equal, values_below, Json, JsonView, object_insert, object_remove, object_insert_absent,
    find_entry, owned, get_field,
};

verus! {

// ---------------------------------------------------------------------------------------
// Null variants
// ---------------------------------------------------------------------------------------

/// The string `null` (a `"null"` entry of a type list).
pub open spec fn is_null_str(v: JsonView) -> bool {
    v == JsonView::Str("null"@)
}

/// `{"type": "null"}`: an object with the single key `type` whose value is `"null"`.
pub open spec fn is_null_variant(v: JsonView) -> bool {
    match v {
        JsonView::Object(e) => e.len() == 1 && obj_get(e, "type"@) == Some(JsonView::Str("null"@)),
        _ => false,
    }
}

/// The null test of a type list (`variant == false`) or of a variant list (`true`).
pub open spec fn is_null_item(v: JsonView, variant: bool) -> bool {
    if variant {
        is_null_variant(v)
    } else {
        is_null_str(v)
    }
}

/// The items that are not null, in order.
pub open spec fn drop_nulls(s: Seq<JsonView>, variant: bool) -> Seq<JsonView>
    decreases s.len(),
{
    if s.len() == 0 {
        s
    } else {
        let r = drop_nulls(s.drop_last(), variant);
        if is_null_item(s.last(), variant) {
            r
        } else {
            r.push(s.last())
        }
    }
}

/// Whether some item is null.
pub open spec fn has_null(s: Seq<JsonView>, variant: bool) -> bool {
    exists|i: int| 0 <= i < s.len() && #[trigger] is_null_item(s[i], variant)
}

proof fn lemma_null_sizes(v: JsonView, variant: bool)
    ensures
        is_null_item(v, variant) ==> jsize(v) >= 1 + (if variant { 1nat } else { 0nat }),
{
    if variant && is_null_variant(v) {
        if let JsonView::Object(e) = v {
            assert(e.drop_last().len() == 0);
            lemma_jsize_pos(e.last().1);
        }
    }
}

proof fn lemma_drop_nulls_size(s: Seq<JsonView>, variant: bool)
    ensures
        items_size(drop_nulls(s, variant)) <= items_size(s),
        has_null(s, variant) ==> items_size(drop_nulls(s, variant)) + 1 + (if variant {
            1nat
        } else {
            0nat
        }) <= items_size(s),
        drop_nulls(s, variant).len() <= s.len(),
    decreases s.len(),
{
    if s.len() > 0 {
        let t = s.drop_last();
        lemma_drop_nulls_size(t, variant);
        lemma_null_sizes(s.last(), variant);
        let r = drop_nulls(t, variant);
        if !is_null_item(s.last(), variant) {
            assert(r.push(s.last()).drop_last() =~= r);
        }
        if has_null(s, variant) && !is_null_item(s.last(), variant) {
            let w = choose|i: int| 0 <= i < s.len() && #[trigger] is_null_item(s[i], variant);
            assert(t[w] == s[w]);
            assert(has_null(t, variant));
        }
    }
}

/// Filters out the null items, reporting whether there were any.
fn drop_null_items(items: &Vec<Json>, variant: bool) -> (r: (Vec<Json>, bool))
    ensures
        items_view(r.0@) == drop_nulls(items_view(items@), variant),
        r.1 == has_null(items_view(items@), variant),
{
    let ghost s = items_view(items@);
    proof {
        lemma_items_view(items@);
    }
    let mut out: Vec<Json> = Vec::new();
    let mut found = false;
    let mut i: usize = 0;
    while i < items.len()
        invariant
            i <= items@.len(),
            s == items_view(items@),
            s.len() == items@.len(),
            forall|j: int| 0 <= j < items@.len() ==> #[trigger] s[j] == json_view(items@[j]),
            items_view(out@) == drop_nulls(s.take(i as int), variant),
            found == has_null(s.take(i as int), variant),
        decreases items@.len() - i,
    {
        let null = null_item(&items[i], variant);
        assert(s.take(i + 1).drop_last() =~= s.take(i as int));
        assert(s.take(i + 1).last() == s[i as int]);
        if !null {
            let c = clone_json(&items[i]);
            let ghost before = out@;
            out.push(c);
            assert(out@.drop_last() =~= before);
        }
        proof {
            let t = s.take(i + 1);
            if has_null(t, variant) && !has_null(s.take(i as int), variant) {
                let w = choose|j: int| 0 <= j < t.len() && #[trigger] is_null_item(t[j], variant);
                if w < i {
                    assert(s.take(i as int)[w] == t[w]);
                }
            }
            if has_null(s.take(i as int), variant) {
                let w = choose|j: int|
                    0 <= j < i && #[trigger] is_null_item(s.take(i as int)[j], variant);
                assert(t[w] == s.take(i as int)[w]);
            }
            if null {
                assert(t[i as int] == s[i as int]);
            }
        }
        found = found || null;
        i = i + 1;
    }
    assert(s.take(items@.len() as int) =~= s);
    (out, found)
}

/// Whether a value is the null item of a type list or a variant list.
fn null_item(v: &Json, variant: bool) -> (b: bool)
    ensures
        b == is_null_item(json_view(*v), variant),
{
    if variant {
        match v {
            Json::Object(e) => {
                proof {
                    lemma_entries_view(e@);
                }
                if e.len() != 1 {
                    return false;
                }
                match object_get(e, "type") {
                    Some(Json::Str(t)) => str_equal(t.as_str(), "null"),
                    _ => false,
                }
            },
            _ => false,
        }
    } else {
        match v {
            Json::Str(t) => str_equal(t.as_str(), "null"),
            _ => false,
        }
    }
}

// ---------------------------------------------------------------------------------------
// Nullability
// ---------------------------------------------------------------------------------------

/// The `type` rule: a type list with `"null"` loses it (the key goes when nothing is left,
/// holds the single remaining type, or the remaining list) and `nullable: true` is set.
pub open spec fn type_step(e: Seq<(Seq<char>, JsonView)>) -> Seq<(Seq<char>, JsonView)> {
    match obj_get(e, "type"@) {
        Some(JsonView::Array(types)) => if has_null(types, false) {
            let rest = drop_nulls(types, false);
            let e1 = if rest.len() == 0 {
                obj_remove(e, "type"@)
            } else if rest.len() == 1 {
                obj_insert(e, "type"@, rest[0])
            } else {
                obj_insert(e, "type"@, JsonView::Array(rest))
            };
            obj_insert(e1, "nullable"@, JsonView::Bool(true))
        } else {
            e
        },
        _ => e,
    }
}

/// The entries after adding those of `inner` whose keys are absent, in order.
pub open spec fn merge_absent(e: Seq<(Seq<char>, JsonView)>, inner: Seq<(Seq<char>, JsonView)>) -> Seq<
    (Seq<char>, JsonView),
>
    decreases inner.len(),
{
    if inner.len() == 0 {
        e
    } else {
        let acc = merge_absent(e, inner.drop_last());
        if obj_find(acc, inner.last().0) is Some {
            acc
        } else {
            acc.push(inner.last())
        }
    }
}

/// The `anyOf`/`oneOf` rule for `key`: a variant list with a `{"type": "null"}` variant sets
/// `nullable: true` and loses the null variants; when one variant is left, the list goes
/// and that variant is wrapped in `allOf` when it is a `$ref` (OpenAPI ignores the siblings
/// of a `$ref`), or else its keys are added where absent.
pub open spec fn variants_step(e: Seq<(Seq<char>, JsonView)>, key: Seq<char>) -> Seq<
    (Seq<char>, JsonView),
> {
    match obj_get(e, key) {
        Some(JsonView::Array(variants)) => if has_null(variants, true) {
            let rest = drop_nulls(variants, true);
            let e1 = obj_insert(e, "nullable"@, JsonView::Bool(true));
            if rest.len() == 1 {
                let e2 = obj_remove(e1, key);
                match rest[0] {
                    JsonView::Object(inner) => if obj_find(inner, "$ref"@) is Some {
                        obj_insert(e2, "allOf"@, JsonView::Array(seq![rest[0]]))
                    } else {
                        merge_absent(e2, inner)
                    },
                    _ => e2,
                }
            } else {
                obj_insert(e1, key, JsonView::Array(rest))
            }
        } else {
            e
        },
        _ => e,
    }
}

/// The rules applied to an object's own keys, before its values are rewritten.
pub open spec fn local_rules(e: Seq<(Seq<char>, JsonView)>) -> Seq<(Seq<char>, JsonView)> {
    variants_step(variants_step(type_step(e), "anyOf"@), "oneOf"@)
}

/// The OpenAPI form of a draft-07 schema: at each object, the nullability rules apply to its
/// own keys, then to every value; arrays are rewritten item by item; other values stay.
pub open spec fn nullable_spec(v: JsonView) -> JsonView
    decreases jsize(v), 1int, 0int,
{
    match v {
        JsonView::Object(e) => JsonView::Object(nullable_entries(local_rules(e), jsize(v))),
        JsonView::Array(items) => JsonView::Array(nullable_items(items, jsize(v))),
        _ => v,
    }
}

/// Items rewritten (those smaller than `b`, which all are where it is used).
pub open spec fn nullable_items(s: Seq<JsonView>, b: nat) -> Seq<JsonView>
    decreases b, 0int, s.len(),
{
    if s.len() == 0 {
        s
    } else {
        let x = s.last();
        nullable_items(s.drop_last(), b).push(
            if jsize(x) < b {
                nullable_spec(x)
            } else {
                x
            },
        )
    }
}

/// Entry values rewritten (those smaller than `b`, which all are where it is used).
pub open spec fn nullable_entries(e: Seq<(Seq<char>, JsonView)>, b: nat) -> Seq<
    (Seq<char>, JsonView),
>
    decreases b, 0int, e.len(),
{
    if e.len() == 0 {
        e
    } else {
        let x = e.last().1;
        nullable_entries(e.drop_last(), b).push(
            (
                e.last().0,
                if jsize(x) < b {
                    nullable_spec(x)
                } else {
                    x
                },
            ),
        )
    }
}

proof fn lemma_merge_absent_below(
    e: Seq<(Seq<char>, JsonView)>,
    inner: Seq<(Seq<char>, JsonView)>,
    b: nat,
)
    requires
        values_below(e, b),
        values_below(inner, b),
    ensures
        values_below(merge_absent(e, inner), b),
    decreases inner.len(),
{
    if inner.len() > 0 {
        let t = inner.drop_last();
        assert forall|i: int| 0 <= i < t.len() implies #[trigger] jsize(t[i].1) < b by {
            assert(t[i] == inner[i]);
            assert(jsize(inner[i].1) < b);
        }
        lemma_merge_absent_below(e, t, b);
        let acc = merge_absent(e, t);
        assert(jsize(inner[inner.len() - 1].1) < b);
        lemma_obj_ops_below(acc, inner.last().0, inner.last().1, b);
    }
}

proof fn lemma_type_step_below(e: Seq<(Seq<char>, JsonView)>, b: nat)
    requires
        values_below(e, b),
        b == 1 + entries_size(e),
    ensures
        values_below(type_step(e), b),
{
    lemma_obj_get_size(e, "type"@);
    if let Some(JsonView::Array(types)) = obj_get(e, "type"@) {
        if has_null(types, false) {
            let rest = drop_nulls(types, false);
            lemma_drop_nulls_size(types, false);
            let e1 = if rest.len() == 0 {
                obj_remove(e, "type"@)
            } else if rest.len() == 1 {
                obj_insert(e, "type"@, rest[0])
            } else {
                obj_insert(e, "type"@, JsonView::Array(rest))
            };
            if rest.len() == 1 {
                lemma_items_size_elem(rest, 0);
            }
            lemma_obj_ops_below(e, "type"@, if rest.len() == 1 {
                rest[0]
            } else {
                JsonView::Array(rest)
            }, b);
            lemma_obj_ops_below(e1, "nullable"@, JsonView::Bool(true), b);
        }
    }
}

proof fn lemma_variants_step_below(e: Seq<(Seq<char>, JsonView)>, key: Seq<char>, b: nat)
    requires
        values_below(e, b),
        b >= 2,
    ensures
        values_below(variants_step(e, key), b),
{
    lemma_obj_find_some(e, key);
    if let Some(JsonView::Array(variants)) = obj_get(e, key) {
        if has_null(variants, true) {
            let i = obj_find(e, key)->0 as int;
            assert(jsize(e[i].1) < b);
            let rest = drop_nulls(variants, true);
            lemma_drop_nulls_size(variants, true);
            let e1 = obj_insert(e, "nullable"@, JsonView::Bool(true));
            lemma_obj_ops_below(e, "nullable"@, JsonView::Bool(true), b);
            if rest.len() == 1 {
                let e2 = obj_remove(e1, key);
                lemma_obj_ops_below(e1, key, JsonView::Bool(true), b);
                lemma_items_size_elem(rest, 0);
                assert(items_size(rest) == jsize(rest[0])) by {
                    assert(rest.drop_last().len() == 0);
                    assert(items_size(rest.drop_last()) == 0);
                    assert(rest.last() == rest[0]);
                }
                match rest[0] {
                    JsonView::Object(inner) => {
                        if obj_find(inner, "$ref"@) is Some {
                            let w = JsonView::Array(seq![rest[0]]);
                            let one = seq![rest[0]];
                            assert(one.drop_last().len() == 0);
                            assert(items_size(one.drop_last()) == 0);
                            assert(one.last() == rest[0]);
                            assert(jsize(w) == 1 + jsize(rest[0]));
                            lemma_obj_ops_below(e2, "allOf"@, w, b);
                        } else {
                            assert forall|j: int| 0 <= j < inner.len() implies #[trigger] jsize(
                                inner[j].1,
                            ) < b by {
                                lemma_entries_size_elem(inner, j);
                            }
                            lemma_merge_absent_below(e2, inner, b);
                        }
                    },
                    _ => {},
                }
            } else {
                lemma_obj_ops_below(e1, key, JsonView::Array(rest), b);
            }
        }
    }
}

/// After the local rules, every value of an object is smaller than the object.
proof fn lemma_local_rules_below(e: Seq<(Seq<char>, JsonView)>)
    ensures
        values_below(local_rules(e), 1 + entries_size(e)),
{
    let b = 1 + entries_size(e);
    assert forall|i: int| 0 <= i < e.len() implies #[trigger] jsize(e[i].1) < b by {
        lemma_entries_size_elem(e, i);
    }
    lemma_type_step_below(e, b);
    if e.len() == 0 {
        assert(local_rules(e) =~= e) by {
            assert(obj_get(e, "type"@) is None);
            assert(obj_get(e, "anyOf"@) is None);
            assert(obj_get(e, "oneOf"@) is None);
        }
    } else {
        lemma_entries_size_elem(e, 0);
        lemma_jsize_pos(e[0].1);
        lemma_variants_step_below(type_step(e), "anyOf"@, b);
        lemma_variants_step_below(variants_step(type_step(e), "anyOf"@), "oneOf"@, b);
    }
}


/// Applies the `type` rule to an object's entries.
fn apply_type_rule(map: &mut Vec<(String, Json)>)
    ensures
        entries_view(final(map)@) == type_step(entries_view(old(map)@)),
{
    let mut rest = match object_get(map, "type") {
        Some(Json::Array(types)) => {
            let (rest, found) = drop_null_items(types, false);
            if !found {
                return;
            }
            rest
        },
        _ => return,
    };
    proof {
        lemma_items_view(rest@);
    }
    if rest.len() == 0 {
        object_remove(map, "type");
    } else if rest.len() == 1 {
        let only = rest.pop().unwrap();
        object_insert(map, owned("type"), only);
    } else {
        object_insert(map, owned("type"), Json::Array(rest));
    }
    object_insert(map, owned("nullable"), Json::Bool(true));
}

/// Applies the `anyOf`/`oneOf` rule for `key` to an object's entries.
fn apply_variants_rule(map: &mut Vec<(String, Json)>, key: &str)
    ensures
        entries_view(final(map)@) == variants_step(entries_view(old(map)@), key@),
{
    let mut rest = match object_get(map, key) {
        Some(Json::Array(variants)) => {
            let (rest, found) = drop_null_items(variants, true);
            if !found {
                return;
            }
            rest
        },
        _ => return,
    };
    proof {
        lemma_items_view(rest@);
    }
    object_insert(map, owned("nullable"), Json::Bool(true));
    if rest.len() != 1 {
        object_insert(map, owned(key), Json::Array(rest));
        return;
    }
    object_remove(map, key);
    let only = rest.pop().unwrap();
    match only {
        Json::Object(inner) => {
            if find_entry(&inner, "$ref").is_some() {
                let mut wrapped: Vec<Json> = Vec::new();
                wrapped.push(Json::Object(inner));
                proof {
                    lemma_items_view(wrapped@);
                    assert(items_view(wrapped@) =~= seq![json_view(wrapped@[0])]);
                }
                object_insert(map, owned("allOf"), Json::Array(wrapped));
            } else {
                let ghost e2 = entries_view(map@);
                let ghost iv = entries_view(inner@);
                proof {
                    lemma_entries_view(inner@);
                }
                let mut i: usize = 0;
                assert(iv.take(0) =~= Seq::<(Seq<char>, JsonView)>::empty());
                while i < inner.len()
                    invariant
                        i <= inner@.len(),
                        iv == entries_view(inner@),
                        iv.len() == inner@.len(),
                        forall|j: int| 0 <= j < inner@.len() ==> #[trigger] iv[j] == (inner@[j].0@, json_view(inner@[j].1)),
                        entries_view(map@) == merge_absent(e2, iv.take(i as int)),
                    decreases inner@.len() - i,
                {
                    let k = inner[i].0.clone();
                    let v = clone_json(&inner[i].1);
                    object_insert_absent(map, k, v);
                    assert(iv.take(i + 1).drop_last() =~= iv.take(i as int));
                    assert(iv.take(i + 1).last() == iv[i as int]);
                    i = i + 1;
                }
                assert(iv.take(inner@.len() as int) =~= iv);
            }
        },
        _ => {},
    }
}

/// Converts draft-07 nullability into OpenAPI 3.0 `nullable: true`, at every level.
///
/// Handles both `"type": [..., "null"]` (an optional primitive) and `anyOf`/`oneOf`
/// variants containing `{"type": "null"}` (an optional `$ref` or struct).
pub fn nullable_rewrite(v: &Json) -> (r: Json)
    ensures
        json_view(r) == nullable_spec(json_view(*v)),
    decreases jsize(json_view(*v)),
{
    match v {
        Json::Object(entries) => {
            let ghost b = jsize(json_view(*v));
            let copy = clone_json(v);
            let mut map = match copy {
                Json::Object(m) => m,
                _ => Vec::new(),
            };
            apply_type_rule(&mut map);
            apply_variants_rule(&mut map, "anyOf");
            apply_variants_rule(&mut map, "oneOf");
            let ghost e3 = entries_view(map@);
            proof {
                lemma_local_rules_below(entries_view(entries@));
                lemma_entries_view(map@);
            }
            let mut out: Vec<(String, Json)> = Vec::new();
            let mut i: usize = 0;
            assert(e3.take(0) =~= Seq::<(Seq<char>, JsonView)>::empty());
            while i < map.len()
                invariant
                    i <= map@.len(),
                    e3 == entries_view(map@),
                    e3.len() == map@.len(),
                    forall|j: int| 0 <= j < map@.len() ==> #[trigger] e3[j] == (map@[j].0@, json_view(map@[j].1)),
                    values_below(e3, b),
                    b == jsize(json_view(*v)),
                    entries_view(out@) == nullable_entries(e3.take(i as int), b),
                decreases map@.len() - i,
            {
                assert(jsize(e3[i as int].1) < b);
                let x = nullable_rewrite(&map[i].1);
                let k = map[i].0.clone();
                let ghost before = out@;
                out.push((k, x));
                proof {
                    assert(out@.drop_last() =~= before);
                    assert(e3.take(i + 1).drop_last() =~= e3.take(i as int));
                    assert(e3.take(i + 1).last() == e3[i as int]);
                }
                i = i + 1;
            }
            assert(e3.take(map@.len() as int) =~= e3);
            Json::Object(out)
        },
        Json::Array(items) => {
            let ghost b = jsize(json_view(*v));
            let ghost s = items_view(items@);
            proof {
                lemma_items_view(items@);
            }
            let mut out: Vec<Json> = Vec::new();
            let mut i: usize = 0;
            assert(s.take(0) =~= Seq::<JsonView>::empty());
            while i < items.len()
                invariant
                    *v == Json::Array(*items),
                    i <= items@.len(),
                    s == items_view(items@),
                    s.len() == items@.len(),
                    forall|j: int| 0 <= j < items@.len() ==> #[trigger] s[j] == json_view(items@[j]),
                    b == jsize(json_view(*v)),
                    b == 1 + items_size(s),
                    items_view(out@) == nullable_items(s.take(i as int), b),
                decreases items@.len() - i,
            {
                proof {
                    lemma_items_size_elem(s, i as int);
                }
                let x = nullable_rewrite(&items[i]);
                let ghost before = out@;
                out.push(x);
                proof {
                    assert(out@.drop_last() =~= before);
                    assert(s.take(i + 1).drop_last() =~= s.take(i as int));
                    assert(s.take(i + 1).last() == s[i as int]);
                }
                i = i + 1;
            }
            assert(s.take(items@.len() as int) =~= s);
            Json::Array(out)
        },
        _ => clone_json(v),
    }
}


// ---------------------------------------------------------------------------------------
// References and meta keys
// ---------------------------------------------------------------------------------------

/// `#/definitions/`.
pub open spec fn definitions_prefix() -> Seq<char> {
    "#/definitions/"@
}

/// `#/components/schemas/`.
pub open spec fn components_prefix() -> Seq<char> {
    "#/components/schemas/"@
}

/// The component reference for a `#/definitions/` reference.
pub open spec fn ref_target(r: Seq<char>) -> Option<Seq<char>> {
    let p = definitions_prefix();
    if r.len() >= p.len() && r.take(p.len() as int) == p {
        Some(components_prefix() + spec_sanitize_component_name(r.skip(p.len() as int)))
    } else {
        None
    }
}

/// The schema with every `$ref` into `#/definitions/` pointing at `#/components/schemas/`
/// (the name sanitized), at every level.
pub open spec fn refs_spec(v: JsonView) -> JsonView
    decreases v,
{
    match v {
        JsonView::Object(e) => JsonView::Object(refs_entries(e)),
        JsonView::Array(s) => JsonView::Array(refs_items(s)),
        _ => v,
    }
}

/// Items with their references rewritten.
pub open spec fn refs_items(s: Seq<JsonView>) -> Seq<JsonView>
    decreases s,
{
    if s.len() == 0 {
        s
    } else {
        refs_items(s.drop_last()).push(refs_spec(s.last()))
    }
}

/// Entries with their references rewritten: a `$ref` string into `#/definitions/` is
/// replaced, every other value is rewritten in turn.
pub open spec fn refs_entries(e: Seq<(Seq<char>, JsonView)>) -> Seq<(Seq<char>, JsonView)>
    decreases e,
{
    if e.len() == 0 {
        e
    } else {
        let (k, x) = e.last();
        let y = match x {
            JsonView::Str(r) => if k == "$ref"@ && ref_target(r) is Some {
                JsonView::Str(ref_target(r)->0)
            } else {
                x
            },
            _ => refs_spec(x),
        };
        refs_entries(e.drop_last()).push((k, y))
    }
}

/// Appends `src` to `out`.
fn push_string(out: &mut String, src: &String)
    ensures
        final(out)@ == old(out)@ + src@,
{
    push_str(out, src.as_str());
}

/// The component reference for a `#/definitions/` reference.
fn component_ref(r: &str) -> (t: Option<String>)
    ensures
        match ref_target(r@) {
            Some(x) => t matches Some(y) && y@ == x,
            None => t is None,
        },
{
    let cs = chars_of(r);
    let p = chars_of("#/definitions/");
    if !crate::text::range_starts_with(cs.as_slice(), 0, cs.len(), p.as_slice()) {
        assert(cs@.subrange(0, cs@.len() as int) =~= cs@);
        return None;
    }
    assert(cs@.subrange(0, cs@.len() as int) =~= cs@);
    let rest = crate::text::string_of(cs.as_slice(), p.len(), cs.len());
    assert(cs@.subrange(p@.len() as int, cs@.len() as int) =~= r@.skip(p@.len() as int));
    let name = sanitize_component_name(rest.as_str());
    let mut t = owned("#/components/schemas/");
    push_string(&mut t, &name);
    Some(t)
}

/// Rewrites `#/definitions/` references into `#/components/schemas/` ones.
pub fn rewrite_schema_refs(v: &Json) -> (r: Json)
    ensures
        json_view(r) == refs_spec(json_view(*v)),
    decreases v,
{
    match v {
        Json::Object(entries) => {
            let mut out: Vec<(String, Json)> = Vec::new();
            let ghost e = entries_view(entries@);
            proof {
                lemma_entries_view(entries@);
            }
            let mut i: usize = 0;
            assert(e.take(0) =~= Seq::<(Seq<char>, JsonView)>::empty());
            while i < entries.len()
                invariant
                    *v == Json::Object(*entries),
                    i <= entries@.len(),
                    e == entries_view(entries@),
                    e.len() == entries@.len(),
                    forall|j: int| 0 <= j < entries@.len() ==> #[trigger] e[j] == (entries@[j].0@, json_view(entries@[j].1)),
                    entries_view(out@) == refs_entries(e.take(i as int)),
                decreases entries@.len() - i,
            {
                let k = entries[i].0.clone();
                let x = &entries[i].1;
                let y = match x {
                    Json::Str(r) => {
                        let is_ref = str_equal(k.as_str(), "$ref");
                        match component_ref(r.as_str()) {
                            Some(t) => if is_ref {
                                Json::Str(t)
                            } else {
                                clone_json(x)
                            },
                            None => clone_json(x),
                        }
                    },
                    _ => {
                        proof {
                            assert((*v)->Object_0 == *entries);
                            assert(decreases_to!(*v => (*v)->Object_0));
                            assert(decreases_to!(*entries => entries@));
                            assert(decreases_to!(entries@ => entries@[i as int]));
                            assert(decreases_to!(entries@[i as int] => entries@[i as int].1));
                        }
                        rewrite_schema_refs(x)
                    },
                };
                let ghost before = out@;
                out.push((k, y));
                proof {
                    assert(out@.drop_last() =~= before);
                    assert(e.take(i + 1).drop_last() =~= e.take(i as int));
                    assert(e.take(i + 1).last() == e[i as int]);
                }
                i = i + 1;
            }
            assert(e.take(entries@.len() as int) =~= e);
            Json::Object(out)
        },
        Json::Array(items) => {
            let mut out: Vec<Json> = Vec::new();
            let ghost s = items_view(items@);
            proof {
                lemma_items_view(items@);
            }
            let mut i: usize = 0;
            assert(s.take(0) =~= Seq::<JsonView>::empty());
            while i < items.len()
                invariant
                    *v == Json::Array(*items),
                    i <= items@.len(),
                    s == items_view(items@),
                    s.len() == items@.len(),
                    forall|j: int| 0 <= j < items@.len() ==> #[trigger] s[j] == json_view(items@[j]),
                    items_view(out@) == refs_items(s.take(i as int)),
                decreases items@.len() - i,
            {
                proof {
                    assert((*v)->Array_0 == *items);
                    assert(decreases_to!(*v => (*v)->Array_0));
                    assert(decreases_to!(*items => items@));
                    assert(decreases_to!(items@ => items@[i as int]));
                }
                let y = rewrite_schema_refs(&items[i]);
                let ghost before = out@;
                out.push(y);
                proof {
                    assert(out@.drop_last() =~= before);
                    assert(s.take(i + 1).drop_last() =~= s.take(i as int));
                    assert(s.take(i + 1).last() == s[i as int]);
                }
                i = i + 1;
            }
            assert(s.take(items@.len() as int) =~= s);
            Json::Array(out)
        },
        _ => clone_json(v),
    }
}

/// A schema without its draft meta keys (`$schema`, `definitions`).
pub open spec fn strip_meta_spec(v: JsonView) -> JsonView {
    match v {
        JsonView::Object(e) => JsonView::Object(
            obj_remove(obj_remove(e, "$schema"@), "definitions"@),
        ),
        _ => v,
    }
}

/// Removes the draft meta keys `$schema` and `definitions`.
pub fn strip_meta(v: Json) -> (r: Json)
    ensures
        json_view(r) == strip_meta_spec(json_view(v)),
{
    match v {
        Json::Object(mut e) => {
            object_remove(&mut e, "$schema");
            object_remove(&mut e, "definitions");
            Json::Object(e)
        },
        other => other,
    }
}

/// Whether a schema stands for no value (`"type": "null"`, or the title `Null`).
pub open spec fn is_null_schema_spec(v: JsonView) -> bool {
    get_field(v, "type"@) == Some(JsonView::Str("null"@)) || get_field(v, "title"@) == Some(
        JsonView::Str("Null"@),
    )
}

/// Whether a field of a value is the string `s`.
fn field_is_str(v: &Json, key: &str, s: &str) -> (b: bool)
    ensures
        b == (get_field(json_view(*v), key@) == Some(JsonView::Str(s@))),
{
    match v {
        Json::Object(e) => match object_get(e, key) {
            Some(Json::Str(t)) => str_equal(t.as_str(), s),
            _ => false,
        },
        _ => false,
    }
}

/// Whether a schema stands for no value (`"type": "null"`, or the title `Null`).
pub fn is_null_schema(v: &Json) -> (b: bool)
    ensures
        b == is_null_schema_spec(json_view(*v)),
{
    field_is_str(v, "type", "null") || field_is_str(v, "title", "Null")
}


// ---------------------------------------------------------------------------------------
// The component catalog
// ---------------------------------------------------------------------------------------

/// What a catalog holds: component names and schemas, in insertion order.
pub uninterp spec fn catalog_entries(m: IndexMap<String, Json>) -> Seq<(Seq<char>, JsonView)>;

/// Whether a catalog has a component named `k`.
pub open spec fn cat_has(e: Seq<(Seq<char>, JsonView)>, k: Seq<char>) -> bool {
    exists|i: int| 0 <= i < e.len() && #[trigger] e[i].0 == k
}

/// A new, empty catalog map (`IndexMap::new`).
///
/// Contract: it holds no entry.
#[verifier::external_body]
fn catalog_map_new() -> (m: IndexMap<String, Json>)
    ensures
        catalog_entries(m) == Seq::<(Seq<char>, JsonView)>::empty(),
{
    IndexMap::new()
}

/// Whether the catalog has key `k` (`IndexMap::contains_key`).
///
/// Contract: true exactly when an entry has key `k`.
#[verifier::external_body]
fn catalog_map_contains(m: &IndexMap<String, Json>, k: &str) -> (b: bool)
    ensures
        b == cat_has(catalog_entries(*m), k@),
{
    m.contains_key(k)
}

/// Appends a component with a new name (`IndexMap::insert` of an absent key).
///
/// Contract: the entry goes last.
#[verifier::external_body]
fn catalog_map_insert_new(m: &mut IndexMap<String, Json>, k: String, v: Json)
    requires
        !cat_has(catalog_entries(*old(m)), k@),
    ensures
        catalog_entries(*final(m)) == catalog_entries(*old(m)).push((k@, json_view(v))),
{
    m.insert(k, v);
}

/// The number of components (`IndexMap::len`).
///
/// Contract: the number of entries.
#[verifier::external_body]
pub(crate) fn catalog_map_len(m: &IndexMap<String, Json>) -> (n: usize)
    ensures
        n == catalog_entries(*m).len(),
{
    m.len()
}

/// Collected component schemas with stable `$ref` paths.
pub struct SchemaCatalog {
    pub schemas: IndexMap<String, Json>,
}

/// The catalog after adding `schema` under the (sanitized) `name`, unless taken: the
/// schema is stored without meta keys, with rewritten references and nullability.
pub open spec fn insert_component_spec(
    cat: Seq<(Seq<char>, JsonView)>,
    name: Seq<char>,
    schema: JsonView,
) -> Seq<(Seq<char>, JsonView)> {
    let n = spec_sanitize_component_name(name);
    if cat_has(cat, n) {
        cat
    } else {
        cat.push((n, nullable_spec(refs_spec(strip_meta_spec(schema)))))
    }
}

/// The catalog after adding each of `defs` in order.
pub open spec fn insert_components_spec(
    cat: Seq<(Seq<char>, JsonView)>,
    defs: Seq<(Seq<char>, JsonView)>,
) -> Seq<(Seq<char>, JsonView)>
    decreases defs.len(),
{
    if defs.len() == 0 {
        cat
    } else {
        let acc = insert_components_spec(cat, defs.drop_last());
        insert_component_spec(acc, defs.last().0, defs.last().1)
    }
}

/// What registering `root` under `preferred` does: nothing for a null schema; else its
/// `definitions` become components, the schema (without `definitions` and `$schema`)
/// becomes a component named by its title (unless `Null`) or `preferred`, and its
/// reference is returned.
pub open spec fn register_spec(
    cat: Seq<(Seq<char>, JsonView)>,
    preferred: Seq<char>,
    root: JsonView,
) -> (Seq<(Seq<char>, JsonView)>, Option<Seq<char>>) {
    if is_null_schema_spec(root) {
        (cat, None)
    } else {
        let (value1, cat1) = match root {
            JsonView::Object(e) => match obj_get(e, "definitions"@) {
                Some(d) => (
                    JsonView::Object(obj_remove(e, "definitions"@)),
                    match d {
                        JsonView::Object(dm) => insert_components_spec(cat, dm),
                        _ => cat,
                    },
                ),
                None => (root, cat),
            },
            _ => (root, cat),
        };
        let value2 = match value1 {
            JsonView::Object(e) => JsonView::Object(obj_remove(e, "$schema"@)),
            _ => value1,
        };
        let name = match get_field(value2, "title"@) {
            Some(JsonView::Str(t)) => if t != "Null"@ {
                spec_sanitize_component_name(t)
            } else {
                spec_sanitize_component_name(preferred)
            },
            _ => spec_sanitize_component_name(preferred),
        };
        (insert_component_spec(cat1, name, value2), Some(components_prefix() + name))
    }
}

impl SchemaCatalog {
    /// An empty catalog.
    pub fn new() -> (c: SchemaCatalog)
        ensures
            catalog_entries(c.schemas) == Seq::<(Seq<char>, JsonView)>::empty(),
    {
        SchemaCatalog { schemas: catalog_map_new() }
    }

    /// Adds `schema` under the sanitized `name` unless that name is taken.
    pub fn insert_component(&mut self, name: &str, schema: Json)
        ensures
            catalog_entries(final(self).schemas) == insert_component_spec(
                catalog_entries(old(self).schemas),
                name@,
                json_view(schema),
            ),
    {
        let n = sanitize_component_name(name);
        if catalog_map_contains(&self.schemas, n.as_str()) {
            return;
        }
        let stripped = strip_meta(schema);
        let refs = rewrite_schema_refs(&stripped);
        let cleaned = nullable_rewrite(&refs);
        catalog_map_insert_new(&mut self.schemas, n, cleaned);
    }

    /// Registers a schema and returns its component reference, or `None` for a null schema.
    pub fn register(&mut self, preferred_name: &str, root: &Json) -> (r: Option<String>)
        ensures
            ({
                let (c, t) = register_spec(
                    catalog_entries(old(self).schemas),
                    preferred_name@,
                    json_view(*root),
                );
                catalog_entries(final(self).schemas) == c && match t {
                    Some(x) => r matches Some(y) && y@ == x,
                    None => r is None,
                }
            }),
    {
        if is_null_schema(root) {
            return None;
        }
        let mut value = clone_json(root);
        let mut defs: Option<Json> = None;
        if let Json::Object(e) = &mut value {
            defs = object_remove(e, "definitions");
        }
        if let Some(Json::Object(dm)) = &defs {
            let ghost d = entries_view(dm@);
            let ghost c0 = catalog_entries(self.schemas);
            proof {
                lemma_entries_view(dm@);
            }
            let mut i: usize = 0;
            assert(d.take(0) =~= Seq::<(Seq<char>, JsonView)>::empty());
            while i < dm.len()
                invariant
                    i <= dm@.len(),
                    d == entries_view(dm@),
                    d.len() == dm@.len(),
                    forall|j: int| 0 <= j < dm@.len() ==> #[trigger] d[j] == (dm@[j].0@, json_view(dm@[j].1)),
                    catalog_entries(self.schemas) == insert_components_spec(c0, d.take(i as int)),
                decreases dm@.len() - i,
            {
                let schema = clone_json(&dm[i].1);
                self.insert_component(dm[i].0.as_str(), schema);
                assert(d.take(i + 1).drop_last() =~= d.take(i as int));
                assert(d.take(i + 1).last() == d[i as int]);
                i = i + 1;
            }
            assert(d.take(dm@.len() as int) =~= d);
        }
        if let Json::Object(e) = &mut value {
            object_remove(e, "$schema");
        }
        let titled = match &value {
            Json::Object(e) => match object_get(e, "title") {
                Some(Json::Str(t)) => if !str_equal(t.as_str(), "Null") {
                    Some(sanitize_component_name(t.as_str()))
                } else {
                    None
                },
                _ => None,
            },
            _ => None,
        };
        let name = match titled {
            Some(n) => n,
            None => sanitize_component_name(preferred_name),
        };
        let mut reference = owned("#/components/schemas/");
        push_string(&mut reference, &name);
        self.insert_component(name.as_str(), value);
        Some(reference)
    }
}


/// Cleaning keeps only ASCII letters and digits, the first one not lowercase, and says to
/// uppercase the next one exactly when nothing was kept yet or after a separator.
proof fn lemma_sanitize_state_shape(s: Seq<char>)
    ensures
        ({
            let (out, upper_next) = crate::openapi::sanitize_state(s);
            &&& forall|i: int| 0 <= i < out.len() ==> crate::openapi::is_ascii_alnum(#[trigger] out[i])
            &&& out.len() > 0 ==> !('a' <= out[0] && out[0] <= 'z')
            &&& out.len() == 0 ==> upper_next
        }),
    decreases s.len(),
{
    if s.len() > 0 {
        lemma_sanitize_state_shape(s.drop_last());
        let (out, upper_next) = crate::openapi::sanitize_state(s.drop_last());
        let c = s.last();
        if crate::openapi::is_ascii_alnum(c) {
            let d = if upper_next { crate::openapi::ascii_upper(c) } else { c };
            let o = out.push(d);
            assert forall|i: int| 0 <= i < o.len() implies crate::openapi::is_ascii_alnum(#[trigger] o[i]) by {
                if i < out.len() {
                    assert(o[i] == out[i]);
                }
            }
            if out.len() > 0 {
                assert(o[0] == out[0]);
            }
        }
    }
}

/// Cleaning a clean name keeps it.
proof fn lemma_sanitize_clean(t: Seq<char>)
    requires
        forall|i: int| 0 <= i < t.len() ==> crate::openapi::is_ascii_alnum(#[trigger] t[i]),
        t.len() > 0 ==> !('a' <= t[0] && t[0] <= 'z'),
    ensures
        crate::openapi::sanitize_state(t) == (t, t.len() == 0),
    decreases t.len(),
{
    if t.len() > 0 {
        let u = t.drop_last();
        assert forall|i: int| 0 <= i < u.len() implies crate::openapi::is_ascii_alnum(#[trigger] u[i]) by {
            assert(u[i] == t[i]);
        }
        if u.len() > 0 {
            assert(u[0] == t[0]);
        }
        lemma_sanitize_clean(u);
        assert(crate::openapi::is_ascii_alnum(t.last()));
        if u.len() == 0 {
            assert(t.last() == t[0]);
        }
        assert(u.push(t.last()) =~= t);
    }
}

/// Cleaning a component name twice is cleaning it once.
pub proof fn law_sanitize_idempotent(name: Seq<char>)
    ensures
        spec_sanitize_component_name(spec_sanitize_component_name(name)) == spec_sanitize_component_name(
            name,
        ),
{
    lemma_sanitize_state_shape(name);
    let out = crate::openapi::sanitize_state(name).0;
    if out.len() == 0 {
        let sch = seq!['S', 'c', 'h', 'e', 'm', 'a'];
        assert forall|i: int| 0 <= i < sch.len() implies crate::openapi::is_ascii_alnum(#[trigger] sch[i]) by {}
        lemma_sanitize_clean(sch);
    } else {
        lemma_sanitize_clean(out);
    }
}

/// A cleaned component name is never empty and holds only ASCII letters and digits.
pub proof fn law_sanitize_ascii_alnum(name: Seq<char>)
    ensures
        spec_sanitize_component_name(name).len() > 0,
        forall|i: int|
            0 <= i < spec_sanitize_component_name(name).len() ==> crate::openapi::is_ascii_alnum(
                #[trigger] spec_sanitize_component_name(name)[i],
            ),
{
    lemma_sanitize_state_shape(name);
}

/// Adding components only appends: the catalog before is a prefix of the catalog after.
proof fn lemma_insert_components_prefix(cat: Seq<(Seq<char>, JsonView)>, defs: Seq<(Seq<char>, JsonView)>)
    ensures
        insert_components_spec(cat, defs).len() >= cat.len(),
        insert_components_spec(cat, defs).take(cat.len() as int) == cat,
    decreases defs.len(),
{
    if defs.len() == 0 {
        assert(cat.take(cat.len() as int) =~= cat);
    } else {
        let acc = insert_components_spec(cat, defs.drop_last());
        lemma_insert_components_prefix(cat, defs.drop_last());
        let r = insert_component_spec(acc, defs.last().0, defs.last().1);
        if r != acc {
            assert(r.take(cat.len() as int) =~= acc.take(cat.len() as int));
        }
    }
}

/// Registering never changes a component that is already there: the first registration of
/// a name keeps its value, and earlier components keep their order. The catalog before is
/// a prefix of the catalog after.
pub proof fn law_register_keeps_existing(
    cat: Seq<(Seq<char>, JsonView)>,
    preferred: Seq<char>,
    root: JsonView,
)
    ensures
        ({
            let (c, _) = register_spec(cat, preferred, root);
            c.len() >= cat.len() && c.take(cat.len() as int) == cat
        }),
{
    if is_null_schema_spec(root) {
        assert(cat.take(cat.len() as int) =~= cat);
    } else {
        let cat1 = match root {
            JsonView::Object(e) => match obj_get(e, "definitions"@) {
                Some(JsonView::Object(dm)) => insert_components_spec(cat, dm),
                _ => cat,
            },
            _ => cat,
        };
        if let JsonView::Object(e) = root {
            if let Some(JsonView::Object(dm)) = obj_get(e, "definitions"@) {
                lemma_insert_components_prefix(cat, dm);
            }
        }
        assert(cat1.len() >= cat.len() && cat1.take(cat.len() as int) =~= cat);
        let (c, _) = register_spec(cat, preferred, root);
        assert(c == cat1 || c == cat1.push(c.last()));
        if c != cat1 {
            assert(c.take(cat.len() as int) =~= cat1.take(cat.len() as int));
        }
    }
}

proof fn lemma_insert_component_has(cat: Seq<(Seq<char>, JsonView)>, name: Seq<char>, schema: JsonView)
    ensures
        cat_has(insert_component_spec(cat, name, schema), spec_sanitize_component_name(name)),
        forall|k: Seq<char>| cat_has(cat, k) ==> #[trigger] cat_has(
            insert_component_spec(cat, name, schema),
            k,
        ),
{
    let n = spec_sanitize_component_name(name);
    let r = insert_component_spec(cat, name, schema);
    if !cat_has(cat, n) {
        assert(r[cat.len() as int].0 == n);
        assert forall|k: Seq<char>| cat_has(cat, k) implies #[trigger] cat_has(r, k) by {
            let w = choose|i: int| 0 <= i < cat.len() && #[trigger] cat[i].0 == k;
            assert(r[w] == cat[w]);
        }
    }
}

proof fn lemma_insert_components_keeps(cat: Seq<(Seq<char>, JsonView)>, defs: Seq<(Seq<char>, JsonView)>, k: Seq<char>)
    requires
        cat_has(cat, k),
    ensures
        cat_has(insert_components_spec(cat, defs), k),
    decreases defs.len(),
{
    if defs.len() > 0 {
        lemma_insert_components_keeps(cat, defs.drop_last(), k);
        lemma_insert_component_has(insert_components_spec(cat, defs.drop_last()), defs.last().0, defs.last().1);
    }
}

/// Every reference that registering a schema returns is `#/components/schemas/` followed by
/// the name of a component of the catalog afterwards, and registering never drops a
/// component.
pub proof fn law_registered_ref_resolves(
    cat: Seq<(Seq<char>, JsonView)>,
    preferred: Seq<char>,
    root: JsonView,
    k: Seq<char>,
)
    ensures
        ({
            let (c, r) = register_spec(cat, preferred, root);
            &&& r matches Some(x) ==> x.len() >= components_prefix().len() && x.take(
                components_prefix().len() as int,
            ) == components_prefix() && cat_has(c, x.skip(components_prefix().len() as int))
            &&& cat_has(cat, k) ==> cat_has(c, k)
        }),
{
    if !is_null_schema_spec(root) {
        let (value1, cat1) = match root {
            JsonView::Object(e) => match obj_get(e, "definitions"@) {
                Some(d) => (
                    JsonView::Object(obj_remove(e, "definitions"@)),
                    match d {
                        JsonView::Object(dm) => insert_components_spec(cat, dm),
                        _ => cat,
                    },
                ),
                None => (root, cat),
            },
            _ => (root, cat),
        };
        if cat_has(cat, k) {
            if let JsonView::Object(e) = root {
                if let Some(JsonView::Object(dm)) = obj_get(e, "definitions"@) {
                    lemma_insert_components_keeps(cat, dm, k);
                }
            }
        }
        let value2 = match value1 {
            JsonView::Object(e) => JsonView::Object(obj_remove(e, "$schema"@)),
            _ => value1,
        };
        let name = match get_field(value2, "title"@) {
            Some(JsonView::Str(t)) => if t != "Null"@ {
                spec_sanitize_component_name(t)
            } else {
                spec_sanitize_component_name(preferred)
            },
            _ => spec_sanitize_component_name(preferred),
        };
        lemma_insert_component_has(cat1, name, value2);
        let c = insert_component_spec(cat1, name, value2);
        assert(cat_has(c, spec_sanitize_component_name(name)));
        assert(register_spec(cat, preferred, root) == (c, Some(components_prefix() + name)));
        match get_field(value2, "title"@) {
            Some(JsonView::Str(t)) => if t != "Null"@ {
                law_sanitize_idempotent(t);
            } else {
                law_sanitize_idempotent(preferred);
            },
            _ => law_sanitize_idempotent(preferred),
        }
        assert(spec_sanitize_component_name(name) == name);
        assert(cat_has(c, name));
        let x = components_prefix() + name;
        assert(x.skip(components_prefix().len() as int) =~= name);
        assert(x.take(components_prefix().len() as int) =~= components_prefix());
        if cat_has(cat, k) {
            assert(cat_has(cat1, k));
            assert(cat_has(c, k));
        }
    }
}

// ---------------------------------------------------------------------------------------
// Parameters
// ---------------------------------------------------------------------------------------

/// A JSON Schema reference or an inline schema.
#[derive(Debug)]
pub enum OpenApiSchemaRef {
    Ref { ref_path: String },
    Inline(Json),
}

/// The mathematical value of an [`OpenApiSchemaRef`].
pub enum SchemaRefView {
    Ref(Seq<char>),
    Inline(JsonView),
}

/// The view of a schema reference.
pub open spec fn schema_ref_view(r: OpenApiSchemaRef) -> SchemaRefView {
    match r {
        OpenApiSchemaRef::Ref { ref_path } => SchemaRefView::Ref(ref_path@),
        OpenApiSchemaRef::Inline(j) => SchemaRefView::Inline(json_view(j)),
    }
}

/// A path or query parameter.
#[derive(Debug)]
pub struct OpenApiParameter {
    pub name: String,
    pub location: String,
    pub description: Option<String>,
    pub required: bool,
    pub schema: OpenApiSchemaRef,
}

/// The view of a parameter: name, location, description, whether required, schema.
pub open spec fn param_view(p: OpenApiParameter) -> (
    Seq<char>,
    Seq<char>,
    Option<Seq<char>>,
    bool,
    SchemaRefView,
) {
    (
        p.name@,
        p.location@,
        match p.description {
            Some(d) => Some(d@),
            None => None,
        },
        p.required,
        schema_ref_view(p.schema),
    )
}

/// The views of a list of parameters.
pub open spec fn params_view(v: Seq<OpenApiParameter>) -> Seq<
    (Seq<char>, Seq<char>, Option<Seq<char>>, bool, SchemaRefView),
> {
    v.map_values(|p: OpenApiParameter| param_view(p))
}

/// The definition name of a `#/definitions/` reference, sanitized.
pub open spec fn def_name(r: Seq<char>) -> Option<Seq<char>> {
    let p = definitions_prefix();
    if r.len() >= p.len() && r.take(p.len() as int) == p {
        Some(spec_sanitize_component_name(r.skip(p.len() as int)))
    } else {
        None
    }
}

/// Where an inline schema points: a lone `$ref` into `#/definitions/` points at its
/// component when that is registered (and nowhere otherwise); any other non-empty object is
/// registered (unless the name is taken) under `preferred` and referenced; anything else
/// stays inline.
pub open spec fn inline_ref_spec(
    schema: JsonView,
    cat: Seq<(Seq<char>, JsonView)>,
    preferred: Seq<char>,
) -> (Seq<(Seq<char>, JsonView)>, Option<Seq<char>>) {
    match schema {
        JsonView::Object(o) => {
            let lone_def = if o.len() == 1 {
                match obj_get(o, "$ref"@) {
                    Some(JsonView::Str(r)) => def_name(r),
                    _ => None,
                }
            } else {
                None
            };
            match lone_def {
                Some(n) => (cat, if cat_has(cat, n) {
                    Some(components_prefix() + n)
                } else {
                    None
                }),
                None => if o.len() > 0 {
                    let n = spec_sanitize_component_name(preferred);
                    (
                        if cat_has(cat, n) {
                            cat
                        } else {
                            cat.push((n, nullable_spec(refs_spec(schema))))
                        },
                        Some(components_prefix() + n),
                    )
                } else {
                    (cat, None)
                },
            }
        },
        _ => (cat, None),
    }
}

/// The definition name of a reference text, sanitized.
fn definition_name(r: &str) -> (t: Option<String>)
    ensures
        match def_name(r@) {
            Some(x) => t matches Some(y) && y@ == x,
            None => t is None,
        },
{
    let cs = chars_of(r);
    let p = chars_of("#/definitions/");
    assert(cs@.subrange(0, cs@.len() as int) =~= cs@);
    if !crate::text::range_starts_with(cs.as_slice(), 0, cs.len(), p.as_slice()) {
        return None;
    }
    let rest = crate::text::string_of(cs.as_slice(), p.len(), cs.len());
    assert(cs@.subrange(p@.len() as int, cs@.len() as int) =~= r@.skip(p@.len() as int));
    Some(sanitize_component_name(rest.as_str()))
}

impl SchemaCatalog {
    /// Points an inline schema at a component (see [`inline_ref_spec`]).
    pub fn inline_ref_to_component(&mut self, schema: &Json, preferred_name: &str) -> (r: Option<
        String,
    >)
        ensures
            ({
                let (c, t) = inline_ref_spec(
                    json_view(*schema),
                    catalog_entries(old(self).schemas),
                    preferred_name@,
                );
                catalog_entries(final(self).schemas) == c && match t {
                    Some(x) => r matches Some(y) && y@ == x,
                    None => r is None,
                }
            }),
    {
        let o = match schema {
            Json::Object(o) => o,
            _ => return None,
        };
        proof {
            lemma_entries_view(o@);
        }
        let lone = if o.len() == 1 {
            match object_get(o, "$ref") {
                Some(Json::Str(r)) => definition_name(r.as_str()),
                _ => None,
            }
        } else {
            None
        };
        if let Some(n) = lone {
            if !catalog_map_contains(&self.schemas, n.as_str()) {
                return None;
            }
            let mut full = owned("#/components/schemas/");
            push_string(&mut full, &n);
            return Some(full);
        }
        if o.len() == 0 {
            return None;
        }
        let n = sanitize_component_name(preferred_name);
        if !catalog_map_contains(&self.schemas, n.as_str()) {
            let refs = rewrite_schema_refs(schema);
            let cleaned = nullable_rewrite(&refs);
            let key = n.clone();
            catalog_map_insert_new(&mut self.schemas, key, cleaned);
        }
        let mut full = owned("#/components/schemas/");
        push_string(&mut full, &n);
        Some(full)
    }
}

/// Whether `a` comes before `b` in code point order.
pub open spec fn lex_lt(a: Seq<char>, b: Seq<char>) -> bool
    decreases a.len(),
{
    if a.len() == 0 {
        b.len() > 0
    } else if b.len() == 0 {
        false
    } else if a[0] != b[0] {
        a[0] < b[0]
    } else {
        lex_lt(a.drop_first(), b.drop_first())
    }
}

proof fn lemma_lex_lt_irreflexive(a: Seq<char>)
    ensures
        !lex_lt(a, a),
    decreases a.len(),
{
    if a.len() > 0 {
        lemma_lex_lt_irreflexive(a.drop_first());
    }
}

proof fn lemma_lex_lt_transitive(a: Seq<char>, b: Seq<char>, c: Seq<char>)
    requires
        lex_lt(a, b),
        lex_lt(b, c),
    ensures
        lex_lt(a, c),
    decreases a.len(),
{
    if a.len() > 0 && b.len() > 0 && c.len() > 0 && a[0] == b[0] && b[0] == c[0] {
        lemma_lex_lt_transitive(a.drop_first(), b.drop_first(), c.drop_first());
    }
}

/// Whether `a` comes before `b` in code point order (as `String` orders).
fn str_lt(a: &String, b: &String) -> (r: bool)
    ensures
        r == lex_lt(a@, b@),
{
    let x = chars_of(a.as_str());
    let y = chars_of(b.as_str());
    let mut i: usize = 0;
    assert(a@.skip(0) =~= a@);
    assert(b@.skip(0) =~= b@);
    while i < x.len() && i < y.len() && x[i] == y[i]
        invariant
            x@ == a@,
            y@ == b@,
            i <= x@.len(),
            i <= y@.len(),
            lex_lt(a@, b@) == lex_lt(a@.skip(i as int), b@.skip(i as int)),
        decreases x@.len() - i,
    {
        proof {
            assert(a@.skip(i as int).drop_first() =~= a@.skip(i + 1));
            assert(b@.skip(i as int).drop_first() =~= b@.skip(i + 1));
        }
        i = i + 1;
    }
    proof {
        if i < x@.len() {
            assert(a@.skip(i as int)[0] == a@[i as int]);
        }
        if i < y@.len() {
            assert(b@.skip(i as int)[0] == b@[i as int]);
        }
    }
    if i == x.len() {
        i < y.len()
    } else if i == y.len() {
        false
    } else {
        x[i] < y[i]
    }
}

/// Whether parameters are in name order.
pub open spec fn sorted_by_name(
    s: Seq<(Seq<char>, Seq<char>, Option<Seq<char>>, bool, SchemaRefView)>,
) -> bool {
    forall|i: int, j: int| 0 <= i < j < s.len() ==> !lex_lt(#[trigger] s[j].0, #[trigger] s[i].0)
}

/// The position before the first parameter whose name comes after `name`.
pub open spec fn first_greater(
    s: Seq<(Seq<char>, Seq<char>, Option<Seq<char>>, bool, SchemaRefView)>,
    name: Seq<char>,
) -> nat
    decreases s.len(),
{
    if s.len() == 0 {
        0
    } else if lex_lt(name, s[0].0) {
        0
    } else {
        1 + first_greater(s.drop_first(), name)
    }
}

/// Parameters sorted by name, equal names in their original order (an insertion sort).
pub open spec fn sort_params(s: Seq<(Seq<char>, Seq<char>, Option<Seq<char>>, bool, SchemaRefView)>) -> Seq<
    (Seq<char>, Seq<char>, Option<Seq<char>>, bool, SchemaRefView),
>
    decreases s.len(),
{
    if s.len() == 0 {
        s
    } else {
        let sorted = sort_params(s.drop_last());
        sorted.insert(first_greater(sorted, s.last().0) as int, s.last())
    }
}

proof fn lemma_first_greater(
    s: Seq<(Seq<char>, Seq<char>, Option<Seq<char>>, bool, SchemaRefView)>,
    name: Seq<char>,
    pos: int,
)
    requires
        0 <= pos <= s.len(),
        forall|j: int| 0 <= j < pos ==> !lex_lt(name, #[trigger] s[j].0),
        pos < s.len() ==> lex_lt(name, s[pos].0),
    ensures
        first_greater(s, name) == pos,
    decreases s.len(),
{
    if s.len() > 0 && pos > 0 {
        let t = s.drop_first();
        assert forall|j: int| 0 <= j < pos - 1 implies !lex_lt(name, #[trigger] t[j].0) by {
            assert(t[j] == s[j + 1]);
        }
        assert(!lex_lt(name, s[0].0));
        if pos < s.len() {
            assert(t[pos - 1] == s[pos]);
        }
        lemma_first_greater(t, name, pos - 1);
    }
}

/// Sorts parameters by name, keeping the order of equal names.
fn sort_by_name(v: Vec<OpenApiParameter>) -> (r: Vec<OpenApiParameter>)
    ensures
        params_view(r@) == sort_params(params_view(v@)),
        sorted_by_name(params_view(r@)),
        params_view(r@).to_multiset() == params_view(v@).to_multiset(),
{
    let mut v = v;
    let ghost orig = params_view(v@);
    let n = v.len();
    assert(orig.len() == n);
    let mut out: Vec<OpenApiParameter> = Vec::new();
    let mut taken: usize = 0;
    assert(params_view(out@) =~= Seq::empty());
    assert(orig.take(0) =~= Seq::empty());
    while v.len() > 0
        invariant
            taken + v@.len() == orig.len(),
            orig.len() <= usize::MAX,
            params_view(v@) == orig.skip(taken as int),
            sorted_by_name(params_view(out@)),
            params_view(out@).to_multiset() == orig.take(taken as int).to_multiset(),
            params_view(out@) == sort_params(orig.take(taken as int)),
        decreases v@.len(),
    {
        let ghost vv = params_view(v@);
        let p = v.remove(0);
        proof {
            assert(param_view(p) == vv[0]);
            assert(params_view(v@) =~= vv.drop_first());
            assert(orig.skip(taken + 1) =~= orig.skip(taken as int).drop_first());
            assert(orig.take(taken + 1) =~= orig.take(taken as int).push(vv[0]));
        }
        let mut pos: usize = 0;
        let ghost ov = params_view(out@);
        while pos < out.len() && !str_lt(&p.name, &out[pos].name)
            invariant
                pos <= out@.len(),
                ov == params_view(out@),
                forall|j: int| 0 <= j < pos ==> !lex_lt(p.name@, #[trigger] ov[j].0),
            decreases out@.len() - pos,
        {
            pos = pos + 1;
        }
        let ghost x = param_view(p);
        proof {
            if pos < ov.len() {
                assert(ov[pos as int].0 == out@[pos as int].name@);
            }
            lemma_first_greater(ov, x.0, pos as int);
            assert(orig.take(taken + 1).drop_last() =~= orig.take(taken as int));
            assert(orig.take(taken + 1).last() == x);
        }
        out.insert(pos, p);
        proof {
            let nv = params_view(out@);
            assert(nv =~= ov.insert(pos as int, x));
            vstd::seq_lib::to_multiset_insert(ov, pos as int, x);
            vstd::seq_lib::to_multiset_build(orig.take(taken as int), x);
            assert forall|i: int, j: int| 0 <= i < j < nv.len() implies !lex_lt(
                #[trigger] nv[j].0,
                #[trigger] nv[i].0,
            ) by {
                if j < pos {
                    assert(nv[i] == ov[i] && nv[j] == ov[j]);
                } else if j == pos {
                    assert(nv[i] == ov[i]);
                } else if i == pos {
                    assert(nv[j] == ov[j - 1]);
                    assert(lex_lt(x.0, ov[pos as int].0));
                    if lex_lt(ov[j - 1].0, x.0) {
                        lemma_lex_lt_transitive(ov[j - 1].0, x.0, ov[pos as int].0);
                        if j - 1 == pos {
                            lemma_lex_lt_irreflexive(ov[pos as int].0);
                        } else {
                            assert(!lex_lt(ov[j - 1].0, ov[pos as int].0));
                        }
                    }
                } else if i < pos {
                    assert(nv[i] == ov[i] && nv[j] == ov[j - 1]);
                } else {
                    assert(nv[i] == ov[i - 1] && nv[j] == ov[j - 1]);
                }
            }
        }
        taken = taken + 1;
    }
    assert(orig.take(taken as int) =~= orig);
    out
}


/// Whether a property is left out of the parameters at `location`: path parameters are the
/// properties named in the path, query parameters the others.
pub open spec fn param_excluded(location: Seq<char>, path_names: Seq<Seq<char>>, name: Seq<char>) -> bool {
    (location == "path"@ && !path_names.contains(name)) || (location == "query"@
        && path_names.contains(name))
}

/// Whether a JSON list holds the string `name`.
pub open spec fn has_str(req: Seq<JsonView>, name: Seq<char>) -> bool {
    exists|i: int| 0 <= i < req.len() && req[i] == JsonView::Str(name)
}

/// The parameters of the properties `props`, in order, and the catalog after registering
/// their schemas.
pub open spec fn collect_params(
    props: Seq<(Seq<char>, JsonView)>,
    location: Seq<char>,
    path_names: Seq<Seq<char>>,
    required: Seq<JsonView>,
    cat: Seq<(Seq<char>, JsonView)>,
    prefix: Seq<char>,
) -> (Seq<(Seq<char>, Seq<char>, Option<Seq<char>>, bool, SchemaRefView)>, Seq<(Seq<char>, JsonView)>)
    decreases props.len(),
{
    if props.len() == 0 {
        (Seq::empty(), cat)
    } else {
        let (acc, c) = collect_params(props.drop_last(), location, path_names, required, cat, prefix);
        let (name, prop) = props.last();
        if param_excluded(location, path_names, name) {
            (acc, c)
        } else {
            let inline = nullable_spec(refs_spec(prop));
            let (c2, r) = inline_ref_spec(inline, c, prefix + capitalize_spec(name));
            let schema = match r {
                Some(x) => SchemaRefView::Ref(x),
                None => SchemaRefView::Inline(inline),
            };
            (acc.push((name, location, None, location == "path"@ || has_str(required, name), schema)), c2)
        }
    }
}

/// The parameters of an object schema at `location` (before sorting by name), and the
/// catalog after registering their schemas: none for a null schema or one without an
/// object of `properties`.
pub open spec fn params_spec(
    root: JsonView,
    location: Seq<char>,
    path_names: Seq<Seq<char>>,
    cat: Seq<(Seq<char>, JsonView)>,
    prefix: Seq<char>,
) -> (Seq<(Seq<char>, Seq<char>, Option<Seq<char>>, bool, SchemaRefView)>, Seq<(Seq<char>, JsonView)>) {
    if is_null_schema_spec(root) {
        (Seq::empty(), cat)
    } else {
        match root {
            JsonView::Object(e) => match obj_get(e, "properties"@) {
                Some(JsonView::Object(props)) => collect_params(
                    props,
                    location,
                    path_names,
                    match obj_get(e, "required"@) {
                        Some(JsonView::Array(r)) => r,
                        _ => Seq::empty(),
                    },
                    cat,
                    prefix,
                ),
                _ => (Seq::empty(), cat),
            },
            _ => (Seq::empty(), cat),
        }
    }
}

/// Whether `names` holds `name`.
fn contains_name(names: &Vec<String>, name: &String) -> (b: bool)
    ensures
        b == strings_view(names@).contains(name@),
{
    let ghost sv = strings_view(names@);
    let mut i: usize = 0;
    while i < names.len()
        invariant
            i <= names@.len(),
            sv == strings_view(names@),
            sv.len() == names@.len(),
            forall|j: int| 0 <= j < i ==> sv[j] != name@,
        decreases names@.len() - i,
    {
        assert(sv[i as int] == names@[i as int]@);
        if str_equal(names[i].as_str(), name.as_str()) {
            assert(sv[i as int] == name@);
            return true;
        }
        i = i + 1;
    }
    false
}

/// Whether a JSON list holds the string `name`.
fn list_has_str(req: &Vec<Json>, name: &String) -> (b: bool)
    ensures
        b == has_str(items_view(req@), name@),
{
    let ghost s = items_view(req@);
    proof {
        lemma_items_view(req@);
    }
    let mut i: usize = 0;
    while i < req.len()
        invariant
            i <= req@.len(),
            s == items_view(req@),
            s.len() == req@.len(),
            forall|j: int| 0 <= j < req@.len() ==> #[trigger] s[j] == json_view(req@[j]),
            forall|j: int| 0 <= j < i ==> s[j] != JsonView::Str(name@),
        decreases req@.len() - i,
    {
        match &req[i] {
            Json::Str(t) => {
                if str_equal(t.as_str(), name.as_str()) {
                    assert(s[i as int] == JsonView::Str(name@));
                    return true;
                }
            },
            _ => {},
        }
        i = i + 1;
    }
    false
}

/// Builds the query or path parameters of an object schema, sorted by name; property
/// schemas that are objects become components named after `preferred_prefix` and the
/// capitalized property name.
pub fn parameters_from_schema(
    root: &Json,
    location: &str,
    path_names: &Vec<String>,
    catalog: &mut SchemaCatalog,
    preferred_prefix: &str,
) -> (r: Vec<OpenApiParameter>)
    ensures
        ({
            let (ps, c) = params_spec(
                json_view(*root),
                location@,
                strings_view(path_names@),
                catalog_entries(old(catalog).schemas),
                preferred_prefix@,
            );
            &&& catalog_entries(final(catalog).schemas) == c
            &&& params_view(r@) == sort_params(ps)
            &&& sorted_by_name(params_view(r@))
            &&& params_view(r@).to_multiset() == ps.to_multiset()
        }),
{
    if is_null_schema(root) {
        let r: Vec<OpenApiParameter> = Vec::new();
        assert(params_view(r@) =~= Seq::empty());
        return r;
    }
    let e = match root {
        Json::Object(e) => e,
        _ => {
            let r: Vec<OpenApiParameter> = Vec::new();
            assert(params_view(r@) =~= Seq::empty());
            return r;
        },
    };
    let props = match object_get(e, "properties") {
        Some(Json::Object(p)) => p,
        _ => {
            let r: Vec<OpenApiParameter> = Vec::new();
            assert(params_view(r@) =~= Seq::empty());
            return r;
        },
    };
    let empty: Vec<Json> = Vec::new();
    let required = match object_get(e, "required") {
        Some(Json::Array(r)) => r,
        _ => &empty,
    };
    assert(items_view(empty@) =~= Seq::<JsonView>::empty());
    let is_path = str_equal(location, "path");
    let is_query = str_equal(location, "query");
    let ghost pv = entries_view(props@);
    let ghost c0 = catalog_entries(catalog.schemas);
    proof {
        lemma_entries_view(props@);
    }
    let mut collected: Vec<OpenApiParameter> = Vec::new();
    let mut i: usize = 0;
    assert(pv.take(0) =~= Seq::<(Seq<char>, JsonView)>::empty());
    assert(params_view(collected@) =~= Seq::empty());
    while i < props.len()
        invariant
            i <= props@.len(),
            pv == entries_view(props@),
            pv.len() == props@.len(),
            forall|j: int| 0 <= j < props@.len() ==> #[trigger] pv[j] == (props@[j].0@, json_view(props@[j].1)),
            is_path == (location@ == "path"@),
            is_query == (location@ == "query"@),
            ({
                let (ps, c) = collect_params(
                    pv.take(i as int),
                    location@,
                    strings_view(path_names@),
                    items_view(required@),
                    c0,
                    preferred_prefix@,
                );
                params_view(collected@) == ps && catalog_entries(catalog.schemas) == c
            }),
        decreases props@.len() - i,
    {
        assert(pv.take(i + 1).drop_last() =~= pv.take(i as int));
        assert(pv.take(i + 1).last() == pv[i as int]);
        let name = &props[i].0;
        let named = contains_name(path_names, name);
        if (is_path && !named) || (is_query && named) {
            i = i + 1;
            continue;
        }
        let refs = rewrite_schema_refs(&props[i].1);
        let inline = nullable_rewrite(&refs);
        let mut preferred = owned(preferred_prefix);
        let cap = capitalize(name.as_str());
        push_string(&mut preferred, &cap);
        let target = catalog.inline_ref_to_component(&inline, preferred.as_str());
        let schema = match target {
            Some(x) => OpenApiSchemaRef::Ref { ref_path: x },
            None => OpenApiSchemaRef::Inline(inline),
        };
        let required_flag = is_path || list_has_str(required, name);
        let param = OpenApiParameter {
            name: name.clone(),
            location: owned(location),
            description: None,
            required: required_flag,
            schema,
        };
        let ghost before = collected@;
        collected.push(param);
        proof {
            assert(params_view(collected@) =~= params_view(before).push(param_view(collected@.last())));
        }
        i = i + 1;
    }
    assert(pv.take(props@.len() as int) =~= pv);
    sort_by_name(collected)
}


// ---------------------------------------------------------------------------------------
// Operations
// ---------------------------------------------------------------------------------------

/// Media type entry (`content.application/json`).
#[derive(Debug)]
pub struct OpenApiMediaType {
    pub schema: OpenApiSchemaRef,
}

/// Request body with JSON content.
#[derive(Debug)]
pub struct OpenApiRequestBody {
    pub description: Option<String>,
    pub required: bool,
    pub content: Vec<(String, OpenApiMediaType)>,
}

/// Single HTTP response.
#[derive(Debug)]
pub struct OpenApiResponse {
    pub description: String,
    pub content: Option<Vec<(String, OpenApiMediaType)>>,
}

/// Path operation (`get`, `post`, ...).
#[derive(Debug)]
pub struct OpenApiOperation {
    pub summary: Option<String>,
    pub description: Option<String>,
    pub operation_id: Option<String>,
    pub parameters: Vec<OpenApiParameter>,
    pub request_body: Option<OpenApiRequestBody>,
    /// Responses by status, in order.
    pub responses: Vec<(String, OpenApiResponse)>,
}

/// The view of a content map: media type names and schemas.
pub open spec fn content_view(c: Seq<(String, OpenApiMediaType)>) -> Seq<(Seq<char>, SchemaRefView)> {
    c.map_values(|m: (String, OpenApiMediaType)| (m.0@, schema_ref_view(m.1.schema)))
}

/// JSON content referring to `r`.
pub open spec fn json_content_spec(r: Seq<char>) -> Seq<(Seq<char>, SchemaRefView)> {
    seq![("application/json"@, SchemaRefView::Ref(r))]
}

/// The view of an optional text.
pub open spec fn opt_text(t: Option<String>) -> Option<Seq<char>> {
    match t {
        Some(s) => Some(s@),
        None => None,
    }
}

/// The view of an operation: summary, description, operation id, parameters, request body
/// (description, required, content) and responses (status, description, content).
pub open spec fn operation_view(op: OpenApiOperation) -> (
    Option<Seq<char>>,
    Option<Seq<char>>,
    Option<Seq<char>>,
    Seq<(Seq<char>, Seq<char>, Option<Seq<char>>, bool, SchemaRefView)>,
    Option<(Option<Seq<char>>, bool, Seq<(Seq<char>, SchemaRefView)>)>,
    Seq<(Seq<char>, Seq<char>, Option<Seq<(Seq<char>, SchemaRefView)>>)>,
) {
    (
        opt_text(op.summary),
        opt_text(op.description),
        opt_text(op.operation_id),
        params_view(op.parameters@),
        match op.request_body {
            Some(b) => Some((opt_text(b.description), b.required, content_view(b.content@))),
            None => None,
        },
        op.responses@.map_values(
            |r: (String, OpenApiResponse)|
                (
                    r.0@,
                    r.1.description@,
                    match r.1.content {
                        Some(c) => Some(content_view(c@)),
                        None => None,
                    },
                ),
        ),
    )
}

/// The operation of a registered route, and the catalog after registering its schemas:
/// summary `METHOD path`; operation id from the method and path; the path parameters then
/// the query parameters (each sorted by name); a required JSON request body and a `200`
/// JSON response referring to their components (a bare `200 Success` without a response
/// schema).
pub open spec fn operation_spec(
    path: Seq<char>,
    method: Seq<char>,
    request: Option<JsonView>,
    response: Option<JsonView>,
    query: Option<JsonView>,
    params: Option<JsonView>,
    cat: Seq<(Seq<char>, JsonView)>,
) -> (
    (
        Option<Seq<char>>,
        Option<Seq<char>>,
        Option<Seq<char>>,
        Seq<(Seq<char>, Seq<char>, Option<Seq<char>>, bool, SchemaRefView)>,
        Option<(Option<Seq<char>>, bool, Seq<(Seq<char>, SchemaRefView)>)>,
        Seq<(Seq<char>, Seq<char>, Option<Seq<(Seq<char>, SchemaRefView)>>)>,
    ),
    Seq<(Seq<char>, JsonView)>,
) {
    let names = spec_path_param_names(path);
    let prefix = spec_operation_id(method, path);
    let (pp, c1) = match params {
        Some(sch) => params_spec(sch, "path"@, names, cat, prefix + "Path"@),
        None => (Seq::empty(), cat),
    };
    let (qp, c2) = match query {
        Some(sch) => params_spec(sch, "query"@, names, c1, prefix + "Query"@),
        None => (Seq::empty(), c1),
    };
    let (c3, rq) = match request {
        Some(sch) => if is_null_schema_spec(sch) {
            (c2, None)
        } else {
            register_spec(c2, prefix + "Request"@, sch)
        },
        None => (c2, None),
    };
    let (c4, rs) = match response {
        Some(sch) => if is_null_schema_spec(sch) {
            (c3, None)
        } else {
            register_spec(c3, prefix + "Response"@, sch)
        },
        None => (c3, None),
    };
    (
        (
            Some(method + " "@ + path),
            None,
            Some(prefix),
            sort_params(pp) + sort_params(qp),
            match rq {
                Some(r) => Some((Some("Request body"@), true, json_content_spec(r))),
                None => None,
            },
            seq![
                (
                    "200"@,
                    "Success"@,
                    match rs {
                        Some(r) => Some(json_content_spec(r)),
                        None => None,
                    },
                ),
            ],
        ),
        c4,
    )
}

/// JSON content referring to `r`.
fn json_content(r: String) -> (c: Vec<(String, OpenApiMediaType)>)
    ensures
        content_view(c@) == json_content_spec(r@),
{
    let mut c: Vec<(String, OpenApiMediaType)> = Vec::new();
    c.push((owned("application/json"), OpenApiMediaType { schema: OpenApiSchemaRef::Ref { ref_path: r } }));
    assert(content_view(c@) =~= json_content_spec(r@));
    c
}

/// Appends all of `more` to `v`.
fn append_params(v: &mut Vec<OpenApiParameter>, more: Vec<OpenApiParameter>)
    ensures
        params_view(final(v)@) == params_view(old(v)@) + params_view(more@),
{
    let mut more = more;
    let ghost m0 = params_view(more@);
    let ghost v0 = params_view(v@);
    let mut k: usize = 0;
    let n = more.len();
    while more.len() > 0
        invariant
            k + more@.len() == n,
            n == m0.len(),
            params_view(more@) == m0.skip(k as int),
            params_view(v@) == v0 + m0.take(k as int),
        decreases more@.len(),
    {
        let ghost mv = params_view(more@);
        let p = more.remove(0);
        proof {
            assert(param_view(p) == mv[0]);
            assert(params_view(more@) =~= mv.drop_first());
            assert(m0.skip(k + 1) =~= m0.skip(k as int).drop_first());
            assert(m0.take(k + 1) =~= m0.take(k as int).push(mv[0]));
        }
        let ghost before = v@;
        v.push(p);
        proof {
            assert(params_view(v@) =~= params_view(before).push(param_view(p)));
        }
        k = k + 1;
    }
    assert(m0.take(n as int) =~= m0);
}

/// Builds the OpenAPI operation of a registered route, registering its schemas in
/// `catalog`.
pub fn build_operation(entry: &EndpointSchema, catalog: &mut SchemaCatalog) -> (op: OpenApiOperation)
    ensures
        ({
            let (v, c) = operation_spec(
                entry.path@,
                method_text(entry.method),
                opt_schema(entry.request_schema),
                opt_schema(entry.response_schema),
                opt_schema(entry.query_schema),
                opt_schema(entry.params_schema),
                catalog_entries(old(catalog).schemas),
            );
            operation_view(op) == v && catalog_entries(final(catalog).schemas) == c
        }),
{
    let path = entry.path.as_str();
    let method = method_as_str(&entry.method);
    let names = crate::path_params::path_param_names(path);
    let prefix = operation_id(method, path);
    let mut parameters: Vec<OpenApiParameter> = Vec::new();
    assert(params_view(parameters@) =~= Seq::empty());
    if let Some(sch) = &entry.params_schema {
        let mut pref = prefix.clone();
        push_str(&mut pref, "Path");
        let ps = parameters_from_schema(sch, "path", &names, catalog, pref.as_str());
        append_params(&mut parameters, ps);
    }
    if let Some(sch) = &entry.query_schema {
        let mut pref = prefix.clone();
        push_str(&mut pref, "Query");
        let qs = parameters_from_schema(sch, "query", &names, catalog, pref.as_str());
        append_params(&mut parameters, qs);
    }
    let request_body = match &entry.request_schema {
        Some(sch) => if is_null_schema(sch) {
            None
        } else {
            let mut pref = prefix.clone();
            push_str(&mut pref, "Request");
            match catalog.register(pref.as_str(), sch) {
                Some(r) => Some(
                    OpenApiRequestBody {
                        description: Some(owned("Request body")),
                        required: true,
                        content: json_content(r),
                    },
                ),
                None => None,
            }
        },
        None => None,
    };
    let response_ref = match &entry.response_schema {
        Some(sch) => if is_null_schema(sch) {
            None
        } else {
            let mut pref = prefix.clone();
            push_str(&mut pref, "Response");
            catalog.register(pref.as_str(), sch)
        },
        None => None,
    };
    let response = OpenApiResponse {
        description: owned("Success"),
        content: match response_ref {
            Some(r) => Some(json_content(r)),
            None => None,
        },
    };
    let mut responses: Vec<(String, OpenApiResponse)> = Vec::new();
    responses.push((owned("200"), response));
    let mut summary = owned(method);
    push_str(&mut summary, " ");
    push_str(&mut summary, path);
    let op = OpenApiOperation {
        summary: Some(summary),
        description: None,
        operation_id: Some(prefix),
        parameters,
        request_body,
        responses,
    };
    proof {
        let v = operation_view(op);
        assert(v.5 =~= seq![(
            "200"@,
            "Success"@,
            match response_ref {
                Some(r) => Some(json_content_spec(r@)),
                None => None,
            },
        )]);
    }
    op
}


// ---------------------------------------------------------------------------------------
// Documents
// ---------------------------------------------------------------------------------------

/// OpenAPI 3.0 document.
#[derive(Debug)]
pub struct OpenApiDocument {
    pub openapi: String,
    pub info: OpenApiInfo,
    pub servers: Option<Vec<OpenApiServer>>,
    /// Operations by path, then by lowercase method, in registration order.
    pub paths: Vec<(String, Vec<(String, OpenApiOperation)>)>,
    /// Component schemas, when any were registered.
    pub components: Option<IndexMap<String, Json>>,
}

/// The position of the first pair with key `k`.
pub open spec fn key_pos<V>(s: Seq<(Seq<char>, V)>, k: Seq<char>) -> Option<nat>
    decreases s.len(),
{
    if s.len() == 0 {
        None
    } else {
        match key_pos(s.drop_last(), k) {
            Some(i) => Some(i),
            None => if s.last().0 == k {
                Some((s.len() - 1) as nat)
            } else {
                None
            },
        }
    }
}

/// The pairs after setting `k` to `v` (in place, or appended).
pub open spec fn upsert_pair<V>(s: Seq<(Seq<char>, V)>, k: Seq<char>, v: V) -> Seq<(Seq<char>, V)> {
    match key_pos(s, k) {
        Some(i) => s.update(i as int, (k, v)),
        None => s.push((k, v)),
    }
}

proof fn lemma_key_pos<V>(s: Seq<(Seq<char>, V)>, k: Seq<char>, i: int)
    requires
        0 <= i <= s.len(),
        forall|j: int| 0 <= j < i ==> #[trigger] s[j].0 != k,
        i < s.len() ==> s[i].0 == k,
    ensures
        key_pos(s, k) == (if i < s.len() { Some(i as nat) } else { None::<nat> }),
    decreases s.len(),
{
    if s.len() > 0 {
        let t = s.drop_last();
        if i < s.len() - 1 {
            assert(t[i] == s[i]);
            assert forall|j: int| 0 <= j < i implies #[trigger] t[j].0 != k by {
                assert(t[j] == s[j]);
            }
            lemma_key_pos(t, k, i);
        } else {
            assert forall|j: int| 0 <= j < t.len() implies #[trigger] t[j].0 != k by {
                assert(t[j] == s[j]);
            }
            lemma_key_pos(t, k, t.len() as int);
        }
    }
}

proof fn lemma_key_pos_some<V>(s: Seq<(Seq<char>, V)>, k: Seq<char>)
    ensures
        key_pos(s, k) matches Some(i) ==> i < s.len() && s[i as int].0 == k,
    decreases s.len(),
{
    if s.len() > 0 {
        lemma_key_pos_some(s.drop_last(), k);
        if let Some(i) = key_pos(s.drop_last(), k) {
            assert(s.drop_last()[i as int] == s[i as int]);
        }
    }
}

/// The view of the operations of a path.
pub open spec fn methods_view(ms: Seq<(String, OpenApiOperation)>) -> Seq<
    (
        Seq<char>,
        (
            Option<Seq<char>>,
            Option<Seq<char>>,
            Option<Seq<char>>,
            Seq<(Seq<char>, Seq<char>, Option<Seq<char>>, bool, SchemaRefView)>,
            Option<(Option<Seq<char>>, bool, Seq<(Seq<char>, SchemaRefView)>)>,
            Seq<(Seq<char>, Seq<char>, Option<Seq<(Seq<char>, SchemaRefView)>>)>,
        ),
    ),
> {
    ms.map_values(|m: (String, OpenApiOperation)| (m.0@, operation_view(m.1)))
}

/// The view of the paths of a document.
pub open spec fn paths_view(ps: Seq<(String, Vec<(String, OpenApiOperation)>)>) -> Seq<
    (
        Seq<char>,
        Seq<
            (
                Seq<char>,
                (
                    Option<Seq<char>>,
                    Option<Seq<char>>,
                    Option<Seq<char>>,
                    Seq<(Seq<char>, Seq<char>, Option<Seq<char>>, bool, SchemaRefView)>,
                    Option<(Option<Seq<char>>, bool, Seq<(Seq<char>, SchemaRefView)>)>,
                    Seq<(Seq<char>, Seq<char>, Option<Seq<(Seq<char>, SchemaRefView)>>)>,
                ),
            ),
        >,
    ),
> {
    ps.map_values(|p: (String, Vec<(String, OpenApiOperation)>)| (p.0@, methods_view(p.1@)))
}

/// The paths and the catalog after the entries `entries`, in order: each entry's operation
/// goes under its OpenAPI path and lowercase method (a repeated route replaces the earlier
/// operation in place).
pub open spec fn paths_spec(entries: Seq<EndpointSchema>, cat: Seq<(Seq<char>, JsonView)>) -> (
    Seq<
        (
            Seq<char>,
            Seq<
                (
                    Seq<char>,
                    (
                        Option<Seq<char>>,
                        Option<Seq<char>>,
                        Option<Seq<char>>,
                        Seq<(Seq<char>, Seq<char>, Option<Seq<char>>, bool, SchemaRefView)>,
                        Option<(Option<Seq<char>>, bool, Seq<(Seq<char>, SchemaRefView)>)>,
                        Seq<(Seq<char>, Seq<char>, Option<Seq<(Seq<char>, SchemaRefView)>>)>,
                    ),
                ),
            >,
        ),
    >,
    Seq<(Seq<char>, JsonView)>,
)
    decreases entries.len(),
{
    if entries.len() == 0 {
        (Seq::empty(), cat)
    } else {
        let (ps, c) = paths_spec(entries.drop_last(), cat);
        let e = entries.last();
        let (op, c2) = operation_spec(
            e.path@,
            method_text(e.method),
            opt_schema(e.request_schema),
            opt_schema(e.response_schema),
            opt_schema(e.query_schema),
            opt_schema(e.params_schema),
            c,
        );
        let p = spec_to_openapi_path(e.path@);
        let m = lower_ascii_seq(method_text(e.method));
        let ms = match key_pos(ps, p) {
            Some(i) => ps[i as int].1,
            None => Seq::empty(),
        };
        (upsert_pair(ps, p, upsert_pair(ms, m, op)), c2)
    }
}

/// The lowercase of a method name.
fn lower_method(m: &str) -> (r: String)
    ensures
        r@ == lower_ascii_seq(m@),
{
    let cs = chars_of(m);
    let mut out = String::new();
    let mut i: usize = 0;
    while i < cs.len()
        invariant
            i <= cs@.len(),
            out@ == lower_ascii_seq(cs@.take(i as int)),
            cs@ == m@,
        decreases cs@.len() - i,
    {
        let c = cs[i];
        if 'A' <= c && c <= 'Z' {
            let l = ((c as u32) + 32) as u8 as char;
            assert(l == crate::openapi::ascii_lower(c)) by {
                assert((c as u32) + 32 < 128);
            }
            crate::text::push_char(&mut out, l);
        } else {
            crate::text::push_char(&mut out, c);
        }
        assert(lower_ascii_seq(cs@.take(i + 1)) =~= lower_ascii_seq(cs@.take(i as int)).push(
            crate::openapi::ascii_lower(c),
        ));
        i = i + 1;
    }
    assert(cs@.take(cs@.len() as int) =~= cs@);
    out
}

/// Finds the first pair with key `k` among the paths.
fn find_path(ps: &Vec<(String, Vec<(String, OpenApiOperation)>)>, k: &str) -> (r: Option<usize>)
    ensures
        match r {
            Some(i) => key_pos(paths_view(ps@), k@) == Some(i as nat) && i < ps@.len(),
            None => key_pos(paths_view(ps@), k@) is None,
        },
{
    let ghost pv = paths_view(ps@);
    let mut i: usize = 0;
    while i < ps.len()
        invariant
            i <= ps@.len(),
            pv == paths_view(ps@),
            pv.len() == ps@.len(),
            forall|j: int| 0 <= j < i ==> #[trigger] pv[j].0 != k@,
        decreases ps@.len() - i,
    {
        assert(pv[i as int].0 == ps@[i as int].0@);
        if str_equal(ps[i].0.as_str(), k) {
            proof {
                lemma_key_pos(pv, k@, i as int);
            }
            return Some(i);
        }
        i = i + 1;
    }
    proof {
        lemma_key_pos(pv, k@, i as int);
    }
    None
}

/// Sets method `m` of an operation list to `op`.
fn upsert_method(ms: &mut Vec<(String, OpenApiOperation)>, m: String, op: OpenApiOperation)
    ensures
        methods_view(final(ms)@) == upsert_pair(methods_view(old(ms)@), m@, operation_view(op)),
{
    let ghost mv = methods_view(ms@);
    let mut i: usize = 0;
    while i < ms.len()
        invariant
            i <= ms@.len(),
            ms@ == old(ms)@,
            mv == methods_view(ms@),
            mv.len() == ms@.len(),
            forall|j: int| 0 <= j < i ==> #[trigger] mv[j].0 != m@,
        decreases ms@.len() - i,
    {
        assert(mv[i as int].0 == ms@[i as int].0@);
        if str_equal(ms[i].0.as_str(), m.as_str()) {
            proof {
                lemma_key_pos(mv, m@, i as int);
            }
            let ghost kv = (m@, operation_view(op));
            ms.set(i, (m, op));
            assert(methods_view(ms@) =~= mv.update(i as int, kv));
            return;
        }
        i = i + 1;
    }
    proof {
        lemma_key_pos(mv, m@, i as int);
    }
    let ghost kv = (m@, operation_view(op));
    ms.push((m, op));
    assert(methods_view(ms@) =~= mv.push(kv));
}

impl OpenApiBuilder {
    /// Builds an OpenAPI 3.0 document from a [`SchemaRegistry`]: version `3.0.3`, the
    /// builder's info and servers, one operation per registered route, and the component
    /// schemas (none when no schema was registered).
    pub fn from_registry(&self, registry: &SchemaRegistry) -> (d: OpenApiDocument)
        ensures
            d.openapi@ == "3.0.3"@,
            d.info.title@ == self.spec_title(),
            d.info.version@ == self.spec_version(),
            d.info.description.deep_view() == self.spec_description(),
            match d.servers {
                None => self.spec_servers().len() == 0,
                Some(v) => self.spec_servers().len() > 0 && servers_view(v@)
                    == self.spec_servers(),
            },
            ({
                let (ps, c) = paths_spec(registry.spec_entries(), Seq::empty());
                &&& paths_view(d.paths@) == ps
                &&& match d.components {
                    None => c.len() == 0,
                    Some(m) => c.len() > 0 && catalog_entries(m) == c,
                }
            }),
    {
        let mut catalog = SchemaCatalog::new();
        let mut paths: Vec<(String, Vec<(String, OpenApiOperation)>)> = Vec::new();
        let entries = registry.entries();
        let ghost es = entries@;
        let mut i: usize = 0;
        assert(es.take(0) =~= Seq::<EndpointSchema>::empty());
        assert(paths_view(paths@) =~= Seq::empty());
        while i < entries.len()
            invariant
                i <= es.len(),
                es == entries@,
                es == registry.spec_entries(),
                ({
                    let (ps, c) = paths_spec(es.take(i as int), Seq::empty());
                    paths_view(paths@) == ps && catalog_entries(catalog.schemas) == c
                }),
            decreases es.len() - i,
        {
            let entry = &entries[i];
            assert(es.take(i + 1).drop_last() =~= es.take(i as int));
            assert(es.take(i + 1).last() == es[i as int]);
            let op = build_operation(entry, &mut catalog);
            let p = to_openapi_path(entry.path.as_str());
            let m = lower_method(method_as_str(&entry.method));
            let ghost pv = paths_view(paths@);
            match find_path(&paths, p.as_str()) {
                Some(j) => {
                    proof {
                        lemma_key_pos_some(pv, p@);
                    }
                    let (pk, mut ms) = paths.remove(j);
                    proof {
                        assert(pv[j as int] == (pk@, methods_view(ms@)));
                    }
                    upsert_method(&mut ms, m, op);
                    let ghost entry_view = (pk@, methods_view(ms@));
                    paths.insert(j, (pk, ms));
                    proof {
                        assert(paths_view(paths@) =~= pv.update(j as int, entry_view));
                    }
                },
                None => {
                    let mut ms: Vec<(String, OpenApiOperation)> = Vec::new();
                    assert(methods_view(ms@) =~= Seq::empty());
                    upsert_method(&mut ms, m, op);
                    let ghost entry_view = (p@, methods_view(ms@));
                    paths.push((p, ms));
                    proof {
                        assert(paths_view(paths@) =~= pv.push(entry_view));
                    }
                },
            }
            i = i + 1;
        }
        assert(es.take(es.len() as int) =~= es);
        let components = if catalog_map_len(&catalog.schemas) == 0 {
            None
        } else {
            Some(catalog.schemas)
        };
        OpenApiDocument {
            openapi: owned("3.0.3"),
            info: self.info(),
            servers: self.servers(),
            paths,
            components,
        }
    }
}

} // verus!
