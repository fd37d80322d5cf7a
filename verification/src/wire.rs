//! Query and path values as JSON, for schema validation.
//!
//! Values travel as strings; before validation they are read back as JSON: `true` and
//! `false` as booleans, integers as numbers, other numbers as the caller's float reading
//! gives them, and the rest as strings.

use vstd::prelude::*;
use indexmap::IndexMap;
use crate::json::{json_str, json_view, items_view, entries_view, Json, JsonView};
use crate::retry::{all_digits, decimal_value, is_digit, lemma_decimal_monotone, parse_u64_spec};
use crate::text::{chars_of, decimal_text, push_decimal, push_char};
use crate::url_build::{query_entries, query_map_entry, query_map_len, ParamMap, QueryValue};

verus! {

/// The value of a non-empty run of ASCII digits, if all are digits.
pub open spec fn digits_value(d: Seq<char>) -> Option<nat> {
    if d.len() == 0 || !all_digits(d) {
        None
    } else {
        Some(decimal_value(d))
    }
}

/// `str::parse::<i64>`: an optional sign, then digits, within range.
pub open spec fn parse_i64_spec(s: Seq<char>) -> Option<int> {
    if s.len() > 0 && s[0] == '-' {
        match digits_value(s.drop_first()) {
            Some(v) => if v <= 0x8000_0000_0000_0000 {
                Some(-v)
            } else {
                None
            },
            None => None,
        }
    } else {
        let d = if s.len() > 0 && s[0] == '+' {
            s.drop_first()
        } else {
            s
        };
        match digits_value(d) {
            Some(v) => if v <= 0x7fff_ffff_ffff_ffff {
                Some(v as int)
            } else {
                None
            },
            None => None,
        }
    }
}

/// How an integer prints (`-` then the digits of its magnitude when negative).
pub open spec fn int_text(n: int) -> Seq<char> {
    if n < 0 {
        seq!['-'] + decimal_text((-n) as nat)
    } else {
        decimal_text(n as nat)
    }
}

/// A wire string read as JSON: `true`/`false` as booleans; an `i64` or else a `u64` as a
/// number; else the float reading when there is one; else the string itself.
pub open spec fn wire_spec(s: Seq<char>, float: Option<Seq<char>>) -> JsonView {
    if s == "true"@ {
        JsonView::Bool(true)
    } else if s == "false"@ {
        JsonView::Bool(false)
    } else {
        match parse_i64_spec(s) {
            Some(n) => JsonView::Number(int_text(n)),
            None => match parse_u64_spec(s) {
                Some(v) => JsonView::Number(decimal_text(v as nat)),
                None => match float {
                    Some(t) => JsonView::Number(t),
                    None => JsonView::Str(s),
                },
            },
        }
    }
}

/// Reads `cs[lo..hi]` as digits: their value when all are digits (at least one) and the
/// value fits in a `u64`.
fn parse_digits(cs: &[char], lo: usize, hi: usize) -> (r: Option<u64>)
    requires
        lo <= hi <= cs@.len(),
    ensures
        match digits_value(cs@.subrange(lo as int, hi as int)) {
            Some(v) => if v <= u64::MAX {
                r == Some(v as u64)
            } else {
                r is None
            },
            None => r is None,
        },
{
    let ghost d = cs@.subrange(lo as int, hi as int);
    if lo == hi {
        return None;
    }
    let mut k = lo;
    while k < hi
        invariant
            lo <= k <= hi <= cs@.len(),
            d == cs@.subrange(lo as int, hi as int),
            forall|i: int| lo <= i < k ==> is_digit(#[trigger] cs@[i]),
        decreases hi - k,
    {
        if !('0' <= cs[k] && cs[k] <= '9') {
            assert(!is_digit(d[k - lo]));
            assert(!all_digits(d));
            return None;
        }
        k = k + 1;
    }
    assert forall|i: int| 0 <= i < d.len() implies is_digit(#[trigger] d[i]) by {
        assert(d[i] == cs@[lo + i]);
    }
    let mut v: u64 = 0;
    let mut k = lo;
    assert(d.take(0) =~= Seq::<char>::empty());
    while k < hi
        invariant
            lo <= k <= hi <= cs@.len(),
            d == cs@.subrange(lo as int, hi as int),
            forall|i: int| 0 <= i < d.len() ==> is_digit(#[trigger] d[i]),
            v == decimal_value(d.take(k - lo)),
        decreases hi - k,
    {
        let c = cs[k];
        assert(c == d[k - lo]);
        assert(is_digit(c));
        let dig = ((c as u32) - ('0' as u32)) as u64;
        assert(d.take(k - lo + 1).drop_last() =~= d.take(k - lo));
        assert(d.take(k - lo + 1).last() == c);
        assert(decimal_value(d.take(k - lo + 1)) == v * 10 + dig);
        if v > (u64::MAX - dig) / 10 {
            proof {
                lemma_decimal_monotone(d, k - lo + 1);
            }
            return None;
        }
        v = v * 10 + dig;
        k = k + 1;
    }
    assert(d.take(d.len() as int) =~= d);
    Some(v)
}

/// Whether the characters are exactly `t`.
fn chars_are(cs: &Vec<char>, t: &str) -> (b: bool)
    ensures
        b == (cs@ == t@),
{
    let tc = chars_of(t);
    if cs.len() != tc.len() {
        return false;
    }
    let mut i: usize = 0;
    while i < cs.len()
        invariant
            tc@ == t@,
            cs@.len() == tc@.len(),
            i <= cs@.len(),
            forall|j: int| 0 <= j < i ==> cs@[j] == tc@[j],
        decreases cs@.len() - i,
    {
        if cs[i] != tc[i] {
            return false;
        }
        i = i + 1;
    }
    assert(cs@ =~= tc@);
    true
}

/// Reads a wire string as JSON; `float_text` is the float reading of `s` (its JSON number
/// text), when `s` reads as a finite float.
pub fn wire_scalar_to_json(s: &str, float_text: Option<String>) -> (r: Json)
    ensures
        json_view(r) == wire_spec(
            s@,
            match float_text {
                Some(t) => Some(t@),
                None => None,
            },
        ),
{
    let cs = chars_of(s);
    if chars_are(&cs, "true") {
        return Json::Bool(true);
    }
    if chars_are(&cs, "false") {
        return Json::Bool(false);
    }
    let n = cs.len();
    assert(cs@.subrange(0, n as int) =~= cs@);
    if n > 0 && cs[0] == '-' {
        assert(cs@.subrange(1, n as int) =~= cs@.drop_first());
        match parse_digits(cs.as_slice(), 1, n) {
            Some(v) => {
                if v <= 0x8000_0000_0000_0000 {
                    let mut t = String::new();
                    if v > 0 {
                        push_char(&mut t, '-');
                    }
                    push_decimal(&mut t, v);
                    proof {
                        if v == 0 {
                            assert(t@ =~= decimal_text(0));
                        } else {
                            assert(t@ =~= seq!['-'] + decimal_text(v as nat));
                        }
                    }
                    return Json::Number(t);
                }
            },
            None => {},
        }
    } else {
        let a: usize = if n > 0 && cs[0] == '+' {
            1
        } else {
            0
        };
        assert(cs@.subrange(a as int, n as int) =~= (if n > 0 && cs@[0] == '+' {
            cs@.drop_first()
        } else {
            cs@
        }));
        match parse_digits(cs.as_slice(), a, n) {
            Some(v) => {
                let mut t = String::new();
                push_decimal(&mut t, v);
                assert(t@ =~= decimal_text(v as nat));
                return Json::Number(t);
            },
            None => {},
        }
    }
    match float_text {
        Some(t) => Json::Number(t),
        None => json_str(s),
    }
}


/// The view of an optional text.
pub open spec fn opt_view(t: Option<String>) -> Option<Seq<char>> {
    match t {
        Some(s) => Some(s@),
        None => None,
    }
}

/// The JSON object of path parameters: each value read as JSON (with the float reading at
/// the same position), keys set in order.
pub open spec fn params_object(
    es: Seq<(Seq<char>, Seq<char>)>,
    floats: Seq<Option<Seq<char>>>,
) -> Seq<(Seq<char>, JsonView)>
    decreases es.len(),
{
    if es.len() == 0 {
        Seq::empty()
    } else {
        let i = es.len() - 1;
        crate::json::obj_insert(
            params_object(es.drop_last(), floats),
            es[i].0,
            wire_spec(es[i].1, floats[i]),
        )
    }
}

/// Path parameters as a JSON object for schema validation; `floats[i]` is the float
/// reading of the `i`-th value.
pub fn params_to_json(params: &ParamMap, floats: &Vec<Option<String>>) -> (r: Json)
    requires
        floats@.len() == params.entries().len(),
    ensures
        json_view(r) == JsonView::Object(
            params_object(params.entries(), floats@.map_values(|t: Option<String>| opt_view(t))),
        ),
{
    let ghost fl = floats@.map_values(|t: Option<String>| opt_view(t));
    let ghost es = params.entries();
    let mut map: Vec<(String, Json)> = Vec::new();
    let n = params.len();
    let mut i: usize = 0;
    assert(es.take(0) =~= Seq::<(Seq<char>, Seq<char>)>::empty());
    while i < n
        invariant
            n == es.len(),
            es == params.entries(),
            fl == floats@.map_values(|t: Option<String>| opt_view(t)),
            floats@.len() == n,
            i <= n,
            entries_view(map@) == params_object(es.take(i as int), fl),
        decreases n - i,
    {
        let (k, v) = params.entry(i);
        let ft = match &floats[i] {
            Some(t) => Some(t.clone()),
            None => None,
        };
        assert(opt_view(ft) == fl[i as int]);
        let value = wire_scalar_to_json(v.as_str(), ft);
        crate::json::object_insert(&mut map, k.clone(), value);
        proof {
            let t = es.take(i + 1);
            assert(t.drop_last() =~= es.take(i as int));
            assert(t[i as int] == es[i as int]);
        }
        i = i + 1;
    }
    assert(es.take(n as int) =~= es);
    Json::Object(map)
}

/// The JSON of a query value: a scalar read as JSON, an array item by item (with the float
/// readings at the same positions).
pub open spec fn query_value_json(v: (bool, Seq<Seq<char>>), floats: Seq<Option<Seq<char>>>) -> JsonView {
    if v.0 {
        JsonView::Array(Seq::new(v.1.len(), |j: int| wire_spec(v.1[j], floats[j])))
    } else {
        wire_spec(v.1[0], floats[0])
    }
}

/// The JSON object of a query map, keys set in order.
pub open spec fn query_object(
    es: Seq<(Seq<char>, (bool, Seq<Seq<char>>))>,
    floats: Seq<Seq<Option<Seq<char>>>>,
) -> Seq<(Seq<char>, JsonView)>
    decreases es.len(),
{
    if es.len() == 0 {
        Seq::empty()
    } else {
        let i = es.len() - 1;
        crate::json::obj_insert(
            query_object(es.drop_last(), floats),
            es[i].0,
            query_value_json(es[i].1, floats[i]),
        )
    }
}

/// Query parameters as a JSON object for schema validation; `floats[i][j]` is the float
/// reading of the `j`-th value of the `i`-th entry.
pub fn query_to_json(query: &IndexMap<String, QueryValue>, floats: &Vec<Vec<Option<String>>>) -> (r:
    Json)
    requires
        floats@.len() == query_entries(*query).len(),
        forall|i: int|
            0 <= i < floats@.len() ==> #[trigger] floats@[i]@.len() == query_entries(
                *query,
            )[i].1.1.len(),
    ensures
        json_view(r) == JsonView::Object(
            query_object(
                query_entries(*query),
                floats@.map_values(
                    |v: Vec<Option<String>>| v@.map_values(|t: Option<String>| opt_view(t)),
                ),
            ),
        ),
{
    let ghost fl = floats@.map_values(
        |v: Vec<Option<String>>| v@.map_values(|t: Option<String>| opt_view(t)),
    );
    let ghost es = query_entries(*query);
    let mut map: Vec<(String, Json)> = Vec::new();
    let n = query_map_len(query);
    let mut i: usize = 0;
    assert(es.take(0) =~= Seq::<(Seq<char>, (bool, Seq<Seq<char>>))>::empty());
    while i < n
        invariant
            n == es.len(),
            es == query_entries(*query),
            fl == floats@.map_values(
                |v: Vec<Option<String>>| v@.map_values(|t: Option<String>| opt_view(t)),
            ),
            floats@.len() == n,
            forall|j: int| 0 <= j < floats@.len() ==> #[trigger] floats@[j]@.len() == es[j].1.1.len(),
            i <= n,
            entries_view(map@) == query_object(es.take(i as int), fl),
        decreases n - i,
    {
        let (k, v) = query_map_entry(query, i);
        let fs = &floats[i];
        let ghost fi = fl[i as int];
        assert(fi == fs@.map_values(|t: Option<String>| opt_view(t)));
        let value = match v {
            QueryValue::Scalar(s) => {
                let ft = match &fs[0] {
                    Some(t) => Some(t.clone()),
                    None => None,
                };
                assert(opt_view(ft) == fi[0]);
                wire_scalar_to_json(s.as_str(), ft)
            },
            QueryValue::Array(vs) => {
                let mut items: Vec<Json> = Vec::new();
                let mut j: usize = 0;
                while j < vs.len()
                    invariant
                        j <= vs@.len(),
                        fs@.len() == vs@.len(),
                        fi == fs@.map_values(|t: Option<String>| opt_view(t)),
                        items_view(items@) == Seq::new(
                            j as nat,
                            |x: int| wire_spec(vs@[x]@, fi[x]),
                        ),
                    decreases vs@.len() - j,
                {
                    let ft = match &fs[j] {
                        Some(t) => Some(t.clone()),
                        None => None,
                    };
                    assert(opt_view(ft) == fi[j as int]);
                    let x = wire_scalar_to_json(vs[j].as_str(), ft);
                    let ghost before = items@;
                    items.push(x);
                    proof {
                        assert(items@.drop_last() =~= before);
                        assert(items_view(items@) =~= Seq::new(
                            (j + 1) as nat,
                            |x: int| wire_spec(vs@[x]@, fi[x]),
                        ));
                    }
                    j = j + 1;
                }
                proof {
                    assert(crate::path_params::strings_view(vs@).len() == vs@.len());
                    assert(Seq::new(vs@.len(), |x: int| wire_spec(vs@[x]@, fi[x])) =~= Seq::new(
                        crate::path_params::strings_view(vs@).len(),
                        |x: int| wire_spec(crate::path_params::strings_view(vs@)[x], fi[x]),
                    ));
                }
                Json::Array(items)
            },
        };
        crate::json::object_insert(&mut map, k.clone(), value);
        proof {
            let t = es.take(i + 1);
            assert(t.drop_last() =~= es.take(i as int));
            assert(t[i as int] == es[i as int]);
        }
        i = i + 1;
    }
    assert(es.take(n as int) =~= es);
    Json::Object(map)
}

} // verus!
