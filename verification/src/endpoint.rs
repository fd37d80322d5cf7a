//! Type-states of typed endpoint builders, and the check that a path template and the
//! fields of a path-parameter struct name the same parameters.

use vstd::prelude::*;
use crate::json::str_equal;
use crate::path_params::{path_param_names, spec_path_param_names, strings_view};

verus! {

/// Type-state: path parameters still required before send.
#[derive(Debug, Clone, Copy, Default)]
pub struct NeedsParams;

/// Type-state: request body required before send.
#[derive(Debug, Clone, Copy, Default)]
pub struct NeedsBody;

/// Type-state: ready to configure query/headers and send.
#[derive(Debug, Clone, Copy, Default)]
pub struct Ready;

/// Why a path template and the parameter keys of a struct do not match.
#[derive(Debug, Clone, PartialEq, Eq)]
pub enum ParamsMismatch {
    /// Two fields use this parameter key.
    DuplicateKey(String),
    /// The path has this `:param` segment twice.
    DuplicateSegment(String),
    /// The path has `segments` parameters but the struct has `fields` fields.
    CountMismatch { segments: usize, fields: usize },
    /// No field has the key of this `:param` segment.
    MissingField(String),
}

/// The first item of `s` that repeats an earlier one, at its second occurrence.
pub open spec fn first_duplicate(s: Seq<Seq<char>>) -> Option<Seq<char>>
    decreases s.len(),
{
    if s.len() == 0 {
        None
    } else {
        match first_duplicate(s.drop_last()) {
            Some(x) => Some(x),
            None => if s.drop_last().contains(s.last()) {
                Some(s.last())
            } else {
                None
            },
        }
    }
}

/// The first of `names` that is not among `keys`.
pub open spec fn first_missing(names: Seq<Seq<char>>, keys: Seq<Seq<char>>) -> Option<Seq<char>>
    decreases names.len(),
{
    if names.len() == 0 {
        None
    } else {
        match first_missing(names.drop_last(), keys) {
            Some(x) => Some(x),
            None => if keys.contains(names.last()) {
                None
            } else {
                Some(names.last())
            },
        }
    }
}

/// The outcome of checking `path` against the parameter keys `keys`: a repeated key, then a
/// repeated segment, then a different count, then a segment without a field, in that order;
/// `None` when they match.
pub open spec fn params_mismatch_spec(path: Seq<char>, keys: Seq<Seq<char>>) -> Option<
    (nat, Seq<char>, nat, nat),
> {
    let names = spec_path_param_names(path);
    match first_duplicate(keys) {
        Some(k) => Some((0, k, 0, 0)),
        None => match first_duplicate(names) {
            Some(s) => Some((1, s, 0, 0)),
            None => if names.len() != keys.len() {
                Some((2, Seq::<char>::empty(), names.len(), keys.len()))
            } else {
                match first_missing(names, keys) {
                    Some(s) => Some((3, s, 0, 0)),
                    None => None,
                }
            },
        },
    }
}

/// The outcome of a check as the tuple that [`params_mismatch_spec`] gives.
pub open spec fn mismatch_view(r: Result<(), ParamsMismatch>) -> Option<(nat, Seq<char>, nat, nat)> {
    match r {
        Ok(_) => None,
        Err(ParamsMismatch::DuplicateKey(k)) => Some((0, k@, 0, 0)),
        Err(ParamsMismatch::DuplicateSegment(s)) => Some((1, s@, 0, 0)),
        Err(ParamsMismatch::CountMismatch { segments, fields }) => Some(
            (2, Seq::<char>::empty(), segments as nat, fields as nat),
        ),
        Err(ParamsMismatch::MissingField(s)) => Some((3, s@, 0, 0)),
    }
}

/// Whether `x` is among `v[..hi]`.
fn contains_before(v: &Vec<String>, hi: usize, x: &str) -> (b: bool)
    requires
        hi <= v@.len(),
    ensures
        b == strings_view(v@).take(hi as int).contains(x@),
{
    let ghost sv = strings_view(v@);
    let mut i: usize = 0;
    while i < hi
        invariant
            hi <= v@.len(),
            sv == strings_view(v@),
            forall|j: int| 0 <= j < i ==> sv[j] != x@,
        decreases hi - i,
    {
        if str_equal(v[i].as_str(), x) {
            assert(sv.take(hi as int)[i as int] == x@);
            return true;
        }
        i = i + 1;
    }
    assert forall|j: int| 0 <= j < hi implies sv.take(hi as int)[j] != x@ by {}
    false
}

/// The first item of `v` that repeats an earlier one.
fn find_duplicate(v: &Vec<String>) -> (r: Option<String>)
    ensures
        match first_duplicate(strings_view(v@)) {
            Some(x) => r matches Some(y) && y@ == x,
            None => r is None,
        },
{
    let ghost sv = strings_view(v@);
    let mut j: usize = 0;
    assert(sv.take(0) =~= Seq::<Seq<char>>::empty());
    while j < v.len()
        invariant
            j <= v@.len(),
            sv == strings_view(v@),
            first_duplicate(sv.take(j as int)) is None,
        decreases v@.len() - j,
    {
        let ghost t = sv.take(j + 1);
        assert(t.drop_last() =~= sv.take(j as int));
        assert(t.last() == sv[j as int]);
        if contains_before(v, j, v[j].as_str()) {
            proof {
                lemma_first_duplicate_prefix(sv, j as int + 1);
            }
            return Some(v[j].clone());
        }
        j = j + 1;
    }
    assert(sv.take(v@.len() as int) =~= sv);
    None
}

/// A duplicate found in a prefix is the first duplicate of the whole.
proof fn lemma_first_duplicate_prefix(s: Seq<Seq<char>>, n: int)
    requires
        0 <= n <= s.len(),
        first_duplicate(s.take(n)) is Some,
    ensures
        first_duplicate(s) == first_duplicate(s.take(n)),
    decreases s.len() - n,
{
    if n < s.len() {
        let t = s.take(n + 1);
        assert(t.drop_last() =~= s.take(n));
        lemma_first_duplicate_prefix(s, n + 1);
    } else {
        assert(s.take(n) =~= s);
    }
}

/// A missing name found in a prefix is the first missing name of the whole.
proof fn lemma_first_missing_prefix(s: Seq<Seq<char>>, keys: Seq<Seq<char>>, n: int)
    requires
        0 <= n <= s.len(),
        first_missing(s.take(n), keys) is Some,
    ensures
        first_missing(s, keys) == first_missing(s.take(n), keys),
    decreases s.len() - n,
{
    if n < s.len() {
        let t = s.take(n + 1);
        assert(t.drop_last() =~= s.take(n));
        lemma_first_missing_prefix(s, keys, n + 1);
    } else {
        assert(s.take(n) =~= s);
    }
}

/// Checks that the `:param` segments of `path` and the parameter keys of a struct's fields
/// match: no key twice, no segment twice, as many segments as fields, and a field for every
/// segment. The first failure found, in that order, is the error.
pub fn check_endpoint_params(path: &str, keys: &Vec<String>) -> (r: Result<(), ParamsMismatch>)
    ensures
        mismatch_view(r) == params_mismatch_spec(path@, strings_view(keys@)),
{
    let ghost kv = strings_view(keys@);
    if let Some(k) = find_duplicate(keys) {
        return Err(ParamsMismatch::DuplicateKey(k));
    }
    let names = path_param_names(path);
    let ghost nv = strings_view(names@);
    if let Some(s) = find_duplicate(&names) {
        return Err(ParamsMismatch::DuplicateSegment(s));
    }
    if names.len() != keys.len() {
        return Err(ParamsMismatch::CountMismatch { segments: names.len(), fields: keys.len() });
    }
    let mut i: usize = 0;
    assert(nv.take(0) =~= Seq::<Seq<char>>::empty());
    while i < names.len()
        invariant
            i <= names@.len(),
            nv == strings_view(names@),
            kv == strings_view(keys@),
            nv == spec_path_param_names(path@),
            first_duplicate(kv) is None,
            first_duplicate(nv) is None,
            names@.len() == keys@.len(),
            first_missing(nv.take(i as int), kv) is None,
        decreases names@.len() - i,
    {
        let ghost t = nv.take(i + 1);
        assert(t.drop_last() =~= nv.take(i as int));
        assert(t.last() == nv[i as int]);
        assert(keys@.len() == kv.len());
        assert(kv.take(keys@.len() as int) =~= kv);
        if !contains_before(keys, keys.len(), names[i].as_str()) {
            proof {
                lemma_first_missing_prefix(nv, kv, i as int + 1);
            }
            return Err(ParamsMismatch::MissingField(names[i].clone()));
        }
        i = i + 1;
    }
    assert(nv.take(names@.len() as int) =~= nv);
    Ok(())
}

} // verus!
