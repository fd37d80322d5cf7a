//! Building request URLs from a base URL, a path template, path parameters and a query.
//!
//! A path may carry a `@method/` prefix (a method override), `:name` parameters
//! (percent-encoded from the parameter map) and an embedded `?query` (merged first; the
//! builder's query entries override its keys). Query keys are serialized in insertion order
//! as `application/x-www-form-urlencoded`.

use vstd::prelude::*;
use indexmap::IndexMap;
use url::Url;
use vstd::utf8::encode_utf8;
use crate::path_params::{param_segment_names, spec_path_param_names, strings_view};
use crate::text::{
    after_first, append_range, before_first, chars_of, find_char, lemma_first_occurrence, push_char,
    push_str, split_char, string_of,
};
use crate::error::Error;

verus! {

// ---------------------------------------------------------------------------------------
// Query values and the query map
// ---------------------------------------------------------------------------------------

/// Query parameter value (scalar or repeated).
#[derive(Debug)]
pub enum QueryValue {
    /// Single query value.
    Scalar(String),
    /// Repeated query key (`key=a&key=b`).
    Array(Vec<String>),
}

/// What a query value holds: whether it is an array, and its values in order (one for a
/// scalar).
pub open spec fn qv_view(v: QueryValue) -> (bool, Seq<Seq<char>>) {
    match v {
        QueryValue::Scalar(s) => (false, seq![s@]),
        QueryValue::Array(vs) => (true, strings_view(vs@)),
    }
}

/// A copy of the strings of `v`.
pub fn clone_strings(v: &Vec<String>) -> (r: Vec<String>)
    ensures
        strings_view(r@) == strings_view(v@),
{
    let mut r: Vec<String> = Vec::new();
    let mut i: usize = 0;
    while i < v.len()
        invariant
            i <= v@.len(),
            strings_view(r@) == strings_view(v@.take(i as int)),
        decreases v@.len() - i,
    {
        let s = v[i].clone();
        assert(s@ == v@[i as int]@);
        let ghost r0 = r@;
        r.push(s);
        assert(v@.take(i + 1) =~= v@.take(i as int).push(v@[i as int]));
        assert(strings_view(r@) =~= strings_view(r0).push(s@));
        assert(strings_view(v@.take(i + 1)) =~= strings_view(v@.take(i as int)).push(v@[i as int]@));
        i = i + 1;
    }
    assert(v@.take(v@.len() as int) =~= v@);
    r
}

impl QueryValue {
    /// A copy of the value.
    pub fn clone_value(&self) -> (r: QueryValue)
        ensures
            qv_view(r) == qv_view(*self),
    {
        match self {
            QueryValue::Scalar(s) => QueryValue::Scalar(s.clone()),
            QueryValue::Array(vs) => QueryValue::Array(clone_strings(vs)),
        }
    }
}

#[verifier::external_type_specification]
#[verifier::external_body]
#[verifier::reject_recursive_types(K)]
#[verifier::reject_recursive_types(V)]
#[verifier::reject_recursive_types(S)]
pub struct ExIndexMap<K, V, S>(IndexMap<K, V, S>);

/// What a query map holds: its entries in order, each key with the view of its value.
pub uninterp spec fn query_entries(m: IndexMap<String, QueryValue>) -> Seq<
    (Seq<char>, (bool, Seq<Seq<char>>)),
>;

/// Whether no key occurs twice among the entries.
pub open spec fn keys_unique(e: Seq<(Seq<char>, (bool, Seq<Seq<char>>))>) -> bool {
    forall|i: int, j: int| 0 <= i < j < e.len() ==> #[trigger] e[i].0 != #[trigger] e[j].0
}

/// Whether an entry has key `k`.
pub open spec fn has_key(e: Seq<(Seq<char>, (bool, Seq<Seq<char>>))>, k: Seq<char>) -> bool {
    exists|i: int| 0 <= i < e.len() && #[trigger] e[i].0 == k
}

/// The position of the entry with key `k` (when there is one).
pub open spec fn key_index(e: Seq<(Seq<char>, (bool, Seq<Seq<char>>))>, k: Seq<char>) -> int {
    choose|i: int| 0 <= i < e.len() && #[trigger] e[i].0 == k
}

/// The entries after inserting `(k, v)`: an existing key keeps its place and takes the new
/// value; a new key goes last.
pub open spec fn upsert(
    e: Seq<(Seq<char>, (bool, Seq<Seq<char>>))>,
    k: Seq<char>,
    v: (bool, Seq<Seq<char>>),
) -> Seq<(Seq<char>, (bool, Seq<Seq<char>>))> {
    if has_key(e, k) {
        e.update(key_index(e, k), (k, v))
    } else {
        e.push((k, v))
    }
}

/// A new, empty query map (`IndexMap::new`).
///
/// Contract: it holds no entry.
#[verifier::external_body]
pub(crate) fn query_map_new() -> (m: IndexMap<String, QueryValue>)
    ensures
        query_entries(m) == Seq::<(Seq<char>, (bool, Seq<Seq<char>>))>::empty(),
{
    IndexMap::new()
}

/// The number of entries (`IndexMap::len`).
///
/// Contract: the number of entries.
#[verifier::external_body]
pub(crate) fn query_map_len(m: &IndexMap<String, QueryValue>) -> (n: usize)
    ensures
        n == query_entries(*m).len(),
{
    m.len()
}

/// The entry at position `i` (`IndexMap::get_index`).
///
/// Contract: the key and value of the `i`-th entry in order.
#[verifier::external_body]
pub(crate) fn query_map_entry(m: &IndexMap<String, QueryValue>, i: usize) -> (r: (&String, &QueryValue))
    requires
        i < query_entries(*m).len(),
    ensures
        r.0@ == query_entries(*m)[i as int].0,
        qv_view(*r.1) == query_entries(*m)[i as int].1,
{
    m.get_index(i).unwrap()
}

/// The position of the entry with key `k` (`IndexMap::get_index_of`).
///
/// Contract: the position of the entry whose key is `k`, or `None` when no key is `k`.
#[verifier::external_body]
pub(crate) fn query_map_index_of(m: &IndexMap<String, QueryValue>, k: &str) -> (r: Option<usize>)
    ensures
        match r {
            Some(i) => i < query_entries(*m).len() && query_entries(*m)[i as int].0 == k@,
            None => !has_key(query_entries(*m), k@),
        },
{
    m.get_index_of(k)
}

/// Inserts `(k, v)` (`IndexMap::insert`).
///
/// Contract: an existing key keeps its place and takes the new value, whose old value is
/// returned; a new key goes last and `None` is returned.
#[verifier::external_body]
pub(crate) fn query_map_insert(m: &mut IndexMap<String, QueryValue>, k: String, v: QueryValue) -> (r:
    Option<QueryValue>)
    ensures
        query_entries(*final(m)) == upsert(query_entries(*old(m)), k@, qv_view(v)),
        r is Some == has_key(query_entries(*old(m)), k@),
{
    m.insert(k, v)
}

/// The entries after merging `builder` into `embedded`, in order: builder keys override
/// embedded ones in place, new keys go last.
pub open spec fn merged_entries(
    embedded: Seq<(Seq<char>, (bool, Seq<Seq<char>>))>,
    builder: Seq<(Seq<char>, (bool, Seq<Seq<char>>))>,
) -> Seq<(Seq<char>, (bool, Seq<Seq<char>>))>
    decreases builder.len(),
{
    if builder.len() == 0 {
        embedded
    } else {
        let prev = merged_entries(embedded, builder.drop_last());
        upsert(prev, builder.last().0, builder.last().1)
    }
}

/// Merges the builder's query into the query embedded in the path; builder keys win.
pub fn merge_queries(
    embedded: IndexMap<String, QueryValue>,
    builder: &IndexMap<String, QueryValue>,
) -> (r: IndexMap<String, QueryValue>)
    ensures
        query_entries(r) == merged_entries(query_entries(embedded), query_entries(*builder)),
{
    let mut merged = embedded;
    let n = query_map_len(builder);
    let mut i: usize = 0;
    while i < n
        invariant
            n == query_entries(*builder).len(),
            i <= n,
            query_entries(merged) == merged_entries(
                query_entries(embedded),
                query_entries(*builder).take(i as int),
            ),
        decreases n - i,
    {
        let (k, v) = query_map_entry(builder, i);
        let key = k.clone();
        let value = v.clone_value();
        query_map_insert(&mut merged, key, value);
        assert(query_entries(*builder).take(i + 1).drop_last() =~= query_entries(*builder).take(
            i as int,
        ));
        i = i + 1;
    }
    assert(query_entries(*builder).take(n as int) =~= query_entries(*builder));
    merged
}

/// The entries after adding a parsed `(k, v)` pair: a new key becomes a scalar, a repeated
/// key becomes (or stays) an array with `v` appended.
pub open spec fn add_pair(
    e: Seq<(Seq<char>, (bool, Seq<Seq<char>>))>,
    k: Seq<char>,
    v: Seq<char>,
) -> Seq<(Seq<char>, (bool, Seq<Seq<char>>))> {
    if has_key(e, k) {
        e.update(key_index(e, k), (k, (true, e[key_index(e, k)].1.1.push(v))))
    } else {
        e.push((k, (false, seq![v])))
    }
}

/// The query map of a sequence of decoded pairs.
pub open spec fn parsed_entries(pairs: Seq<(Seq<char>, Seq<char>)>) -> Seq<
    (Seq<char>, (bool, Seq<Seq<char>>)),
>
    decreases pairs.len(),
{
    if pairs.len() == 0 {
        Seq::empty()
    } else {
        add_pair(parsed_entries(pairs.drop_last()), pairs.last().0, pairs.last().1)
    }
}

/// The pairs of an `application/x-www-form-urlencoded` text (`form_urlencoded::parse`):
/// split at `&`, each piece at its first `=`, `+` read as a space, percent-decoded and
/// read as UTF-8 with invalid sequences replaced.
pub uninterp spec fn form_decoded_pairs(input: Seq<u8>) -> Seq<(Seq<char>, Seq<char>)>;

/// Decodes an `application/x-www-form-urlencoded` text (`form_urlencoded::parse`).
///
/// Contract: the named pairs, in order.
#[verifier::external_body]
fn form_decode(input: &str) -> (r: Vec<(String, String)>)
    ensures
        r@.map_values(|p: (String, String)| (p.0@, p.1@)) == form_decoded_pairs(
            encode_utf8(input@),
        ),
{
    url::form_urlencoded::parse(input.as_bytes()).map(
        |(k, v)| (k.into_owned(), v.into_owned()),
    ).collect()
}

proof fn lemma_has_key_index(e: Seq<(Seq<char>, (bool, Seq<Seq<char>>))>, k: Seq<char>, i: int)
    requires
        keys_unique(e),
        0 <= i < e.len(),
        e[i].0 == k,
    ensures
        has_key(e, k),
        key_index(e, k) == i,
{
    assert(has_key(e, k));
    let j = key_index(e, k);
    if j != i {
        if j < i {
            assert(e[j].0 != e[i].0);
        } else {
            assert(e[i].0 != e[j].0);
        }
    }
}

proof fn lemma_add_pair_unique(e: Seq<(Seq<char>, (bool, Seq<Seq<char>>))>, k: Seq<char>, v: Seq<
    char,
>)
    requires
        keys_unique(e),
    ensures
        keys_unique(add_pair(e, k, v)),
{
    let r = add_pair(e, k, v);
    if has_key(e, k) {
        let idx = key_index(e, k);
        assert forall|i: int, j: int| 0 <= i < j < r.len() implies #[trigger] r[i].0
            != #[trigger] r[j].0 by {
            assert(r[i].0 == e[i].0);
            assert(r[j].0 == e[j].0);
        }
    } else {
        assert forall|i: int, j: int| 0 <= i < j < r.len() implies #[trigger] r[i].0
            != #[trigger] r[j].0 by {
            if j == e.len() {
                assert(r[i].0 == e[i].0);
            } else {
                assert(r[i].0 == e[i].0);
                assert(r[j].0 == e[j].0);
            }
        }
    }
}

/// Parses a query string into a map, in order; repeated keys become arrays.
pub fn parse_query_string(query: &str) -> (r: IndexMap<String, QueryValue>)
    ensures
        query_entries(r) == parsed_entries(form_decoded_pairs(encode_utf8(query@))),
{
    let pairs = form_decode(query);
    let ghost ps = pairs@.map_values(|p: (String, String)| (p.0@, p.1@));
    let mut map = query_map_new();
    let mut i: usize = 0;
    while i < pairs.len()
        invariant
            i <= pairs@.len(),
            ps == pairs@.map_values(|p: (String, String)| (p.0@, p.1@)),
            ps == form_decoded_pairs(encode_utf8(query@)),
            query_entries(map) == parsed_entries(ps.take(i as int)),
            keys_unique(query_entries(map)),
        decreases pairs@.len() - i,
    {
        let ghost before = query_entries(map);
        let key = pairs[i].0.clone();
        let value = pairs[i].1.clone();
        assert(ps.take(i + 1).drop_last() =~= ps.take(i as int));
        assert(ps.take(i + 1).last() == ps[i as int]);
        proof {
            lemma_add_pair_unique(before, ps[i as int].0, ps[i as int].1);
        }
        let found = query_map_index_of(&map, key.as_str());
        match found {
            None => {
                query_map_insert(&mut map, key, QueryValue::Scalar(value));
            },
            Some(j) => {
                proof {
                    lemma_has_key_index(before, key@, j as int);
                }
                let (_, existing) = query_map_entry(&map, j);
                let mut values = match existing {
                    QueryValue::Scalar(prev) => {
                        let mut vs: Vec<String> = Vec::new();
                        vs.push(prev.clone());
                        assert(strings_view(vs@) =~= seq![prev@]);
                        vs
                    },
                    QueryValue::Array(prev) => clone_strings(prev),
                };
                let ghost old_values = strings_view(values@);
                values.push(value);
                assert(strings_view(values@) =~= old_values.push(ps[i as int].1));
                query_map_insert(&mut map, key, QueryValue::Array(values));
            },
        }
        i = i + 1;
    }
    assert(ps.take(pairs@.len() as int) =~= ps);
    map
}

/// The `(key, value)` pairs a query map serializes to: each entry's values in order, under
/// its key.
pub open spec fn query_pairs(e: Seq<(Seq<char>, (bool, Seq<Seq<char>>))>) -> Seq<
    (Seq<char>, Seq<char>),
>
    decreases e.len(),
{
    if e.len() == 0 {
        Seq::empty()
    } else {
        query_pairs(e.drop_last()) + e.last().1.1.map_values(|v: Seq<char>| (e.last().0, v))
    }
}

// ---------------------------------------------------------------------------------------
// Encodings
// ---------------------------------------------------------------------------------------

/// Whether the form encoding keeps a byte as it is (`*`, `-`, `.`, `_`, ASCII digits and
/// letters).
pub open spec fn form_unchanged(b: u8) -> bool {
    b == 42 || b == 45 || b == 46 || (48 <= b <= 57) || (65 <= b <= 90) || b == 95 || (97 <= b
        <= 122)
}

/// Whether a path parameter keeps a byte as it is (RFC 3986 unreserved: ASCII letters and
/// digits, `-`, `_`, `.`, `~`).
pub open spec fn path_unreserved(b: u8) -> bool {
    (48 <= b <= 57) || (65 <= b <= 90) || (97 <= b <= 122) || b == 45 || b == 95 || b == 46
        || b == 126
}

/// An uppercase hexadecimal digit.
pub open spec fn hex_upper(n: nat) -> char {
    if n < 10 {
        ((n + 48) as u8) as char
    } else {
        ((n + 55) as u8) as char
    }
}

/// `%XX` for a byte.
pub open spec fn percent_byte(b: u8) -> Seq<char> {
    seq!['%', hex_upper((b / 16) as nat), hex_upper((b % 16) as nat)]
}

/// How a byte is written: as a form value (`form`: space as `+`, see [`form_unchanged`])
/// or as a path parameter (see [`path_unreserved`]); other bytes as `%XX`.
pub open spec fn byte_text(b: u8, form: bool) -> Seq<char> {
    if form {
        if form_unchanged(b) {
            seq![b as char]
        } else if b == 32 {
            seq!['+']
        } else {
            percent_byte(b)
        }
    } else {
        if path_unreserved(b) {
            seq![b as char]
        } else {
            percent_byte(b)
        }
    }
}

/// The encoding of a byte sequence, byte by byte.
pub open spec fn encoded_bytes(bs: Seq<u8>, form: bool) -> Seq<char>
    decreases bs.len(),
{
    if bs.len() == 0 {
        Seq::empty()
    } else {
        encoded_bytes(bs.drop_last(), form) + byte_text(bs.last(), form)
    }
}

/// Whether `c` is a hexadecimal digit (either case).
pub open spec fn is_hex_digit(c: char) -> bool {
    ('0' <= c && c <= '9') || ('A' <= c && c <= 'F') || ('a' <= c && c <= 'f')
}

/// The value of a hexadecimal digit.
pub open spec fn hex_value(c: char) -> int {
    if '0' <= c && c <= '9' {
        (c as u32) as int - 48
    } else if 'A' <= c && c <= 'F' {
        (c as u32) as int - 55
    } else {
        (c as u32) as int - 87
    }
}

/// The bytes that `application/x-www-form-urlencoded` decoding gives for a text: `+` is a
/// space, `%` followed by two hexadecimal digits is the byte they spell, and any other
/// (ASCII) character is its own byte.
pub open spec fn form_unescape(s: Seq<char>) -> Seq<u8>
    decreases s.len(),
{
    if s.len() == 0 {
        Seq::<u8>::empty()
    } else if s[0] == '+' {
        seq![32u8] + form_unescape(s.drop_first())
    } else if s[0] == '%' && s.len() >= 3 && is_hex_digit(s[1]) && is_hex_digit(s[2]) {
        seq![(hex_value(s[1]) * 16 + hex_value(s[2])) as u8] + form_unescape(s.skip(3))
    } else {
        seq![(s[0] as u32) as u8] + form_unescape(s.drop_first())
    }
}

/// Encoding a byte and then the rest is encoding them together.
proof fn lemma_encoded_cons(b: u8, bs: Seq<u8>, form: bool)
    ensures
        encoded_bytes(seq![b] + bs, form) == byte_text(b, form) + encoded_bytes(bs, form),
    decreases bs.len(),
{
    let x = seq![b] + bs;
    if bs.len() == 0 {
        assert(x.drop_last() =~= Seq::<u8>::empty());
        assert(bs =~= Seq::<u8>::empty());
        assert(encoded_bytes(Seq::<u8>::empty(), form) == Seq::<char>::empty());
        assert(x.last() == b);
        assert(Seq::<char>::empty() + byte_text(b, form) =~= byte_text(b, form));
        assert(byte_text(b, form) + Seq::<char>::empty() =~= byte_text(b, form));
    } else {
        lemma_encoded_cons(b, bs.drop_last(), form);
        assert(x.drop_last() =~= seq![b] + bs.drop_last());
        assert(x.last() == bs.last());
        assert(byte_text(b, form) + encoded_bytes(bs.drop_last(), form) + byte_text(bs.last(), form)
            =~= byte_text(b, form) + (encoded_bytes(bs.drop_last(), form) + byte_text(bs.last(), form)));
    }
}

/// A hexadecimal digit written by [`hex_upper`] reads back as its value.
proof fn lemma_hex_round_trip(n: nat)
    requires
        n < 16,
    ensures
        is_hex_digit(hex_upper(n)),
        hex_value(hex_upper(n)) == n,
{
    if n < 10 {
        assert(((n + 48) as u8) as char as u32 == n + 48);
    } else {
        assert(((n + 55) as u8) as char as u32 == n + 55);
    }
}

/// Decoding the form encoding of one byte followed by any text gives the byte, then the
/// decoding of that text.
proof fn lemma_unescape_byte(b: u8, t: Seq<char>)
    ensures
        form_unescape(byte_text(b, true) + t) == seq![b] + form_unescape(t),
{
    let x = byte_text(b, true) + t;
    if form_unchanged(b) {
        assert((b as char) as u32 == b);
        assert(x[0] == b as char);
        assert(x.drop_first() =~= t);
    } else if b == 32 {
        assert(x.drop_first() =~= t);
    } else {
        lemma_hex_round_trip((b / 16) as nat);
        lemma_hex_round_trip((b % 16) as nat);
        assert(x[1] == hex_upper((b / 16) as nat));
        assert(x[2] == hex_upper((b % 16) as nat));
        assert(x.skip(3) =~= t);
        assert((hex_value(x[1]) * 16 + hex_value(x[2])) as u8 == b) by (nonlinear_arith)
            requires
                hex_value(x[1]) == (b / 16) as int,
                hex_value(x[2]) == (b % 16) as int,
        {}
    }
}

/// Form encoding round-trips: decoding the form encoding of any bytes by the
/// `application/x-www-form-urlencoded` rules gives the bytes back. So every byte that would
/// decode differently (`+`, `%`, and any byte outside `A-Z a-z 0-9 * - . _` but the space)
/// is escaped.
pub proof fn law_form_encoding_round_trips(bs: Seq<u8>)
    ensures
        form_unescape(encoded_bytes(bs, true)) == bs,
    decreases bs.len(),
{
    if bs.len() == 0 {
        assert(encoded_bytes(bs, true) =~= Seq::<char>::empty());
    } else {
        let rest = bs.drop_first();
        assert(bs =~= seq![bs[0]] + rest);
        lemma_encoded_cons(bs[0], rest, true);
        lemma_unescape_byte(bs[0], encoded_bytes(rest, true));
        law_form_encoding_round_trips(rest);
    }
}

fn hex_char(n: u8) -> (c: char)
    requires
        n < 16,
    ensures
        c == hex_upper(n as nat),
{
    if n < 10 {
        (n + 48) as char
    } else {
        (n + 55) as char
    }
}

/// Appends the encoding of `bytes` to `s`.
fn push_encoded(s: &mut String, bytes: &[u8], form: bool)
    ensures
        final(s)@ == old(s)@ + encoded_bytes(bytes@, form),
{
    let ghost s0 = s@;
    let mut i: usize = 0;
    while i < bytes.len()
        invariant
            i <= bytes@.len(),
            s@ == s0 + encoded_bytes(bytes@.take(i as int), form),
        decreases bytes@.len() - i,
    {
        let b = bytes[i];
        let ghost before = s@;
        let keep = if form {
            b == 42 || b == 45 || b == 46 || (48 <= b && b <= 57) || (65 <= b && b <= 90) || b
                == 95 || (97 <= b && b <= 122)
        } else {
            (48 <= b && b <= 57) || (65 <= b && b <= 90) || (97 <= b && b <= 122) || b == 45 || b
                == 95 || b == 46 || b == 126
        };
        if keep {
            crate::text::push_char(s, b as char);
        } else if form && b == 32 {
            crate::text::push_char(s, '+');
        } else {
            crate::text::push_char(s, '%');
            crate::text::push_char(s, hex_char(b / 16));
            crate::text::push_char(s, hex_char(b % 16));
        }
        assert(s@ =~= before + byte_text(b, form));
        assert(bytes@.take(i + 1).drop_last() =~= bytes@.take(i as int));
        i = i + 1;
    }
    assert(bytes@.take(bytes@.len() as int) =~= bytes@);
}

/// The percent-encoding of a path parameter value (`utf8_percent_encode` with the RFC 3986
/// unreserved set): the UTF-8 bytes, unreserved ones kept, others as `%XX`.
pub open spec fn encode_path_param(value: Seq<char>) -> Seq<char> {
    encoded_bytes(encode_utf8(value), false)
}

/// Percent-encodes a path parameter value.
pub fn percent_encode_param(value: &str) -> (r: String)
    ensures
        r@ == encode_path_param(value@),
{
    let mut r = String::new();
    push_encoded(&mut r, value.as_bytes(), false);
    proof {
        assert(Seq::<char>::empty() + encoded_bytes(encode_utf8(value@), false) =~= r@);
    }
    r
}

/// One serialized pair: `key=value`, both form-encoded from their UTF-8 bytes.
pub open spec fn form_pair(k: Seq<char>, v: Seq<char>) -> Seq<char> {
    encoded_bytes(encode_utf8(k), true) + seq!['='] + encoded_bytes(encode_utf8(v), true)
}

/// The `application/x-www-form-urlencoded` serialization of pairs (as
/// `form_urlencoded::Serializer` writes them into an empty string): pairs joined by `&`.
pub open spec fn form_serialize(pairs: Seq<(Seq<char>, Seq<char>)>) -> Seq<char>
    decreases pairs.len(),
{
    if pairs.len() == 0 {
        Seq::empty()
    } else if pairs.len() == 1 {
        form_pair(pairs[0].0, pairs[0].1)
    } else {
        form_serialize(pairs.drop_last()) + seq!['&'] + form_pair(pairs.last().0, pairs.last().1)
    }
}

/// Appends a pair to a form serialization in progress (`Serializer::append_pair`).
fn append_pair(s: &mut String, first: bool, k: &str, v: &str)
    ensures
        final(s)@ == old(s)@ + (if first {
            Seq::<char>::empty()
        } else {
            seq!['&']
        }) + form_pair(k@, v@),
{
    let ghost s0 = s@;
    if !first {
        crate::text::push_char(s, '&');
    }
    let ghost s1 = s@;
    push_encoded(s, k.as_bytes(), true);
    crate::text::push_char(s, '=');
    push_encoded(s, v.as_bytes(), true);
    assert(s@ =~= s1 + form_pair(k@, v@));
}

/// The `application/x-www-form-urlencoded` body of form fields, in order.
pub fn form_body(fields: &Vec<(String, String)>) -> (r: String)
    ensures
        r@ == form_serialize(fields@.map_values(|p: (String, String)| (p.0@, p.1@))),
{
    let ghost fs = fields@.map_values(|p: (String, String)| (p.0@, p.1@));
    let mut out = String::new();
    let mut i: usize = 0;
    assert(fs.take(0) =~= Seq::<(Seq<char>, Seq<char>)>::empty());
    while i < fields.len()
        invariant
            i <= fields@.len(),
            fs == fields@.map_values(|p: (String, String)| (p.0@, p.1@)),
            out@ == form_serialize(fs.take(i as int)),
        decreases fields@.len() - i,
    {
        append_pair(&mut out, i == 0, fields[i].0.as_str(), fields[i].1.as_str());
        proof {
            let t = fs.take(i + 1);
            assert(t.drop_last() =~= fs.take(i as int));
            assert(t.last() == fs[i as int]);
            if i == 0 {
                assert(t =~= seq![fs[0]]);
            }
        }
        i = i + 1;
    }
    assert(fs.take(fields@.len() as int) =~= fs);
    out
}

/// Serializes a query map's pairs, in order.
pub fn serialize_query(query: &IndexMap<String, QueryValue>) -> (r: String)
    ensures
        r@ == form_serialize(query_pairs(query_entries(*query))),
{
    let mut out = String::new();
    let n = query_map_len(query);
    let ghost e = query_entries(*query);
    let mut started = false;
    let mut i: usize = 0;
    while i < n
        invariant
            n == e.len(),
            e == query_entries(*query),
            i <= n,
            started == (query_pairs(e.take(i as int)).len() > 0),
            out@ == form_serialize(query_pairs(e.take(i as int))),
        decreases n - i,
    {
        let (k, v) = query_map_entry(query, i);
        let ghost prefix = query_pairs(e.take(i as int));
        assert(e.take(i + 1).drop_last() =~= e.take(i as int));
        assert(e.take(i + 1).last() == e[i as int]);
        let ghost values = e[i as int].1.1;
        let ghost added = values.map_values(|w: Seq<char>| (e[i as int].0, w));
        assert(query_pairs(e.take(i + 1)) == prefix + added);
        match v {
            QueryValue::Scalar(s) => {
                append_pair(&mut out, !started, k.as_str(), s.as_str());
                proof {
                    assert(values =~= seq![s@]);
                    assert(added =~= seq![(k@, s@)]);
                    let all = prefix + added;
                    assert(all.drop_last() =~= prefix);
                    assert(all.last() == (k@, s@));
                    if prefix.len() == 0 {
                        assert(all =~= seq![(k@, s@)]);
                    }
                }
                started = true;
            },
            QueryValue::Array(vs) => {
                let mut j: usize = 0;
                while j < vs.len()
                    invariant
                        j <= vs@.len(),
                        values == strings_view(vs@),
                        added == values.map_values(|w: Seq<char>| (k@, w)),
                        started == (prefix.len() + j > 0),
                        out@ == form_serialize(prefix + added.take(j as int)),
                    decreases vs@.len() - j,
                {
                    append_pair(&mut out, !started, k.as_str(), vs[j].as_str());
                    proof {
                        let all = prefix + added.take(j + 1);
                        assert(all.drop_last() =~= prefix + added.take(j as int));
                        assert(added[j as int] == (k@, vs@[j as int]@));
                        assert(all.last() == (k@, vs@[j as int]@));
                        if prefix.len() + j == 0 {
                            assert(all =~= seq![(k@, vs@[j as int]@)]);
                        }
                    }
                    started = true;
                    j = j + 1;
                }
                assert(added.take(vs@.len() as int) =~= added);
            },
        }
        i = i + 1;
    }
    assert(e.take(n as int) =~= e);
    out
}


// ---------------------------------------------------------------------------------------
// Method modifiers
// ---------------------------------------------------------------------------------------

/// The methods a `@method/` path prefix can name.
#[derive(Clone, Copy, Debug, PartialEq, Eq, Structural)]
pub enum MethodKind {
    Get,
    Post,
    Put,
    Patch,
    Delete,
    Head,
}

#[verifier::external_type_specification]
#[verifier::external_body]
pub struct ExMethod(http::Method);

/// The name of an HTTP method (`Method::as_str`).
pub uninterp spec fn method_text(m: http::Method) -> Seq<char>;

/// The upper-case name of a method kind.
pub open spec fn kind_text(k: MethodKind) -> Seq<char> {
    match k {
        MethodKind::Get => seq!['G', 'E', 'T'],
        MethodKind::Post => seq!['P', 'O', 'S', 'T'],
        MethodKind::Put => seq!['P', 'U', 'T'],
        MethodKind::Patch => seq!['P', 'A', 'T', 'C', 'H'],
        MethodKind::Delete => seq!['D', 'E', 'L', 'E', 'T', 'E'],
        MethodKind::Head => seq!['H', 'E', 'A', 'D'],
    }
}

/// The `http` method of a kind (`Method::GET`, `Method::POST`, ...).
///
/// Contract: the method's name is the kind's upper-case name.
#[verifier::external_body]
pub(crate) fn standard_method(k: MethodKind) -> (m: http::Method)
    ensures
        method_text(m) == kind_text(k),
{
    match k {
        MethodKind::Get => http::Method::GET,
        MethodKind::Post => http::Method::POST,
        MethodKind::Put => http::Method::PUT,
        MethodKind::Patch => http::Method::PATCH,
        MethodKind::Delete => http::Method::DELETE,
        MethodKind::Head => http::Method::HEAD,
    }
}

/// ASCII lower case of a character.
pub open spec fn ascii_lower(c: char) -> char {
    if 'A' <= c && c <= 'Z' {
        ((c as u32) + 32) as char
    } else {
        c
    }
}

/// The method a modifier name spells, compared case-insensitively (ASCII).
pub open spec fn method_of_name(name: Seq<char>) -> Option<MethodKind> {
    let l = name.map_values(|c: char| ascii_lower(c));
    if l == seq!['g', 'e', 't'] {
        Some(MethodKind::Get)
    } else if l == seq!['p', 'o', 's', 't'] {
        Some(MethodKind::Post)
    } else if l == seq!['p', 'u', 't'] {
        Some(MethodKind::Put)
    } else if l == seq!['p', 'a', 't', 'c', 'h'] {
        Some(MethodKind::Patch)
    } else if l == seq!['d', 'e', 'l', 'e', 't', 'e'] {
        Some(MethodKind::Delete)
    } else if l == seq!['h', 'e', 'a', 'd'] {
        Some(MethodKind::Head)
    } else {
        None
    }
}

/// `s` without all its leading `c` (`str::trim_start_matches` with a `char`).
pub open spec fn trim_start_char(s: Seq<char>, c: char) -> Seq<char>
    decreases s.len(),
{
    if s.len() > 0 && s[0] == c {
        trim_start_char(s.drop_first(), c)
    } else {
        s
    }
}

/// `s` without all its trailing `c` (`str::trim_end_matches` with a `char`).
pub open spec fn trim_end_char(s: Seq<char>, c: char) -> Seq<char>
    decreases s.len(),
{
    if s.len() > 0 && s.last() == c {
        trim_end_char(s.drop_last(), c)
    } else {
        s
    }
}

/// A `@method/rest` prefix: the path without it (and without the slashes that follow) and
/// the method, when the path starts with `@`, has a `/` and names a known method; else the
/// path unchanged and no method.
pub open spec fn method_modifier(path: Seq<char>) -> (Seq<char>, Option<MethodKind>) {
    if path.len() > 0 && path[0] == '@' {
        let rest = path.drop_first();
        match after_first(rest, '/') {
            Some(remainder) => match method_of_name(before_first(rest, '/')) {
                Some(k) => (trim_start_char(remainder, '/'), Some(k)),
                None => (path, None),
            },
            None => (path, None),
        }
    } else {
        (path, None)
    }
}

/// Position of the first `c` in `cs[lo..]`, or the length.
fn find_char_from(cs: &[char], lo: usize, c: char) -> (k: usize)
    requires
        lo <= cs@.len(),
    ensures
        lo <= k <= cs@.len(),
        forall|j: int| lo <= j < k ==> cs@[j] != c,
        k < cs@.len() ==> cs@[k as int] == c,
{
    let mut k = lo;
    while k < cs.len()
        invariant
            lo <= k <= cs@.len(),
            forall|j: int| lo <= j < k ==> cs@[j] != c,
        decreases cs@.len() - k,
    {
        if cs[k] == c {
            return k;
        }
        k = k + 1;
    }
    k
}

/// Whether `cs[lo..hi]`, lower-cased, is `target`.
fn lower_equals(cs: &[char], lo: usize, hi: usize, target: &[char]) -> (b: bool)
    requires
        lo <= hi <= cs@.len(),
    ensures
        b == (cs@.subrange(lo as int, hi as int).map_values(|c: char| ascii_lower(c))
            == target@),
{
    let ghost l = cs@.subrange(lo as int, hi as int).map_values(|c: char| ascii_lower(c));
    if hi - lo != target.len() {
        return false;
    }
    let mut i: usize = 0;
    while i < target.len()
        invariant
            lo <= hi <= cs@.len(),
            hi - lo == target@.len(),
            i <= target@.len(),
            l == cs@.subrange(lo as int, hi as int).map_values(|c: char| ascii_lower(c)),
            forall|j: int| 0 <= j < i ==> l[j] == target@[j],
        decreases target@.len() - i,
    {
        let c = cs[lo + i];
        let lc = if 'A' <= c && c <= 'Z' {
            ((c as u8) + 32) as char
        } else {
            c
        };
        assert(l[i as int] == ascii_lower(cs@[lo + i]));
        if lc != target[i] {
            return false;
        }
        i = i + 1;
    }
    assert(l =~= target@);
    true
}

/// The method that `cs[lo..hi]` names.
fn method_named(cs: &[char], lo: usize, hi: usize) -> (r: Option<MethodKind>)
    requires
        lo <= hi <= cs@.len(),
    ensures
        r == method_of_name(cs@.subrange(lo as int, hi as int)),
{
    let ghost l = cs@.subrange(lo as int, hi as int).map_values(|c: char| ascii_lower(c));
    let get = vec!['g', 'e', 't'];
    let post = vec!['p', 'o', 's', 't'];
    let put = vec!['p', 'u', 't'];
    let patch = vec!['p', 'a', 't', 'c', 'h'];
    let delete = vec!['d', 'e', 'l', 'e', 't', 'e'];
    let head = vec!['h', 'e', 'a', 'd'];
    assert(get@ =~= seq!['g', 'e', 't']);
    assert(post@ =~= seq!['p', 'o', 's', 't']);
    assert(put@ =~= seq!['p', 'u', 't']);
    assert(patch@ =~= seq!['p', 'a', 't', 'c', 'h']);
    assert(delete@ =~= seq!['d', 'e', 'l', 'e', 't', 'e']);
    assert(head@ =~= seq!['h', 'e', 'a', 'd']);
    if lower_equals(cs, lo, hi, &get) {
        Some(MethodKind::Get)
    } else if lower_equals(cs, lo, hi, &post) {
        Some(MethodKind::Post)
    } else if lower_equals(cs, lo, hi, &put) {
        Some(MethodKind::Put)
    } else if lower_equals(cs, lo, hi, &patch) {
        Some(MethodKind::Patch)
    } else if lower_equals(cs, lo, hi, &delete) {
        Some(MethodKind::Delete)
    } else if lower_equals(cs, lo, hi, &head) {
        Some(MethodKind::Head)
    } else {
        None
    }
}

/// The lower-case name of a method kind.
pub open spec fn kind_lower(k: MethodKind) -> Seq<char> {
    match k {
        MethodKind::Get => seq!['g', 'e', 't'],
        MethodKind::Post => seq!['p', 'o', 's', 't'],
        MethodKind::Put => seq!['p', 'u', 't'],
        MethodKind::Patch => seq!['p', 'a', 't', 'c', 'h'],
        MethodKind::Delete => seq!['d', 'e', 'l', 'e', 't', 'e'],
        MethodKind::Head => seq!['h', 'e', 'a', 'd'],
    }
}

/// A path `@name/rest`, where `name` spells GET, POST, PUT, PATCH, DELETE or HEAD in any mix
/// of ASCII cases, overrides the method with that one and leaves `rest` without its leading
/// slashes.
pub proof fn law_method_modifier_names(name: Seq<char>, rest: Seq<char>, k: MethodKind)
    requires
        name.len() == kind_text(k).len(),
        forall|i: int| 0 <= i < name.len() ==> name[i] == kind_text(k)[i] || name[i] == kind_lower(k)[i],
    ensures
        method_modifier(seq!['@'] + name + seq!['/'] + rest) == (trim_start_char(rest, '/'), Some(k)),
{
    let path = seq!['@'] + name + seq!['/'] + rest;
    let tail = path.drop_first();
    assert(tail =~= name + seq!['/'] + rest);
    assert forall|j: int| 0 <= j < name.len() implies tail[j] != '/' by {
        assert(tail[j] == name[j]);
    }
    assert(tail[name.len() as int] == '/');
    crate::text::lemma_first_occurrence(tail, '/', name.len() as int);
    assert(tail.take(name.len() as int) =~= name);
    assert(tail.skip(name.len() as int + 1) =~= rest);
    let l = name.map_values(|c: char| ascii_lower(c));
    assert forall|i: int| 0 <= i < name.len() implies l[i] == kind_lower(k)[i] by {
        match k {
            MethodKind::Get => {},
            MethodKind::Post => {},
            MethodKind::Put => {},
            MethodKind::Patch => {},
            MethodKind::Delete => {},
            MethodKind::Head => {},
        }
    }
    assert(l =~= kind_lower(k));
}

proof fn lemma_trim_start_char_skip(s: Seq<char>, c: char, k: int)
    requires
        0 <= k <= s.len(),
        forall|j: int| 0 <= j < k ==> s[j] == c,
        k < s.len() ==> s[k] != c,
    ensures
        trim_start_char(s, c) == s.skip(k),
    decreases k,
{
    if k == 0 {
        assert(s.skip(0) =~= s);
    } else {
        let t = s.drop_first();
        assert forall|j: int| 0 <= j < k - 1 implies t[j] == c by {
            assert(t[j] == s[j + 1]);
        }
        lemma_trim_start_char_skip(t, c, k - 1);
        assert(t.skip(k - 1) =~= s.skip(k));
    }
}

/// Splits a `@method/` prefix off the characters of a path.
fn split_method_modifier(cs: &Vec<char>) -> (r: (usize, Option<MethodKind>))
    ensures
        r.0 <= cs@.len(),
        method_modifier(cs@) == (cs@.skip(r.0 as int), r.1),
{
    if cs.len() == 0 || cs[0] != '@' {
        assert(cs@.skip(0) =~= cs@);
        return (0, None);
    }
    let ghost rest = cs@.drop_first();
    let k = find_char_from(cs.as_slice(), 1, '/');
    proof {
        assert forall|j: int| 0 <= j < k - 1 implies rest[j] != '/' by {
            assert(rest[j] == cs@[j + 1]);
        }
        lemma_first_occurrence(rest, '/', k - 1);
        assert(rest.take(k - 1) =~= cs@.subrange(1, k as int));
    }
    if k == cs.len() {
        assert(cs@.skip(0) =~= cs@);
        return (0, None);
    }
    let m = method_named(cs.as_slice(), 1, k);
    match m {
        None => {
            assert(cs@.skip(0) =~= cs@);
            (0, None)
        },
        Some(kind) => {
            let ghost remainder = rest.skip(k as int);
            let a = find_first_not(cs.as_slice(), k + 1, '/');
            proof {
                assert(remainder =~= cs@.skip(k + 1));
                assert forall|j: int| 0 <= j < a - (k + 1) implies remainder[j] == '/' by {
                    assert(remainder[j] == cs@[k + 1 + j]);
                }
                lemma_trim_start_char_skip(remainder, '/', a - (k + 1));
                assert(remainder.skip(a - (k + 1)) =~= cs@.skip(a as int));
            }
            (a, Some(kind))
        },
    }
}

/// Position of the first character of `cs[lo..]` that is not `c`, or the length.
fn find_first_not(cs: &[char], lo: usize, c: char) -> (k: usize)
    requires
        lo <= cs@.len(),
    ensures
        lo <= k <= cs@.len(),
        forall|j: int| lo <= j < k ==> cs@[j] == c,
        k < cs@.len() ==> cs@[k as int] != c,
{
    let mut k = lo;
    while k < cs.len() && cs[k] == c
        invariant
            lo <= k <= cs@.len(),
            forall|j: int| lo <= j < k ==> cs@[j] == c,
        decreases cs@.len() - k,
    {
        k = k + 1;
    }
    k
}

/// Parses a `@put/foo` style path modifier: returns the path without it and the method.
pub fn parse_method_modifier(path: &str) -> (r: (String, Option<http::Method>))
    ensures
        r.0@ == method_modifier(path@).0,
        match method_modifier(path@).1 {
            Some(k) => r.1 matches Some(m) && method_text(m) == kind_text(k),
            None => r.1 is None,
        },
{
    let cs = chars_of(path);
    let (a, kind) = split_method_modifier(&cs);
    let rest = string_of(cs.as_slice(), a, cs.len());
    assert(cs@.subrange(a as int, cs@.len() as int) =~= cs@.skip(a as int));
    let method = match kind {
        Some(k) => Some(standard_method(k)),
        None => None,
    };
    (rest, method)
}


// ---------------------------------------------------------------------------------------
// Path parameters
// ---------------------------------------------------------------------------------------

/// Path parameter values by name.
#[derive(Debug)]
pub struct ParamMap {
    entries: Vec<(String, String)>,
}

/// The value of `k` among `e`: that of its first entry.
pub open spec fn lookup(e: Seq<(Seq<char>, Seq<char>)>, k: Seq<char>) -> Option<Seq<char>>
    decreases e.len(),
{
    if e.len() == 0 {
        None
    } else if e[0].0 == k {
        Some(e[0].1)
    } else {
        lookup(e.drop_first(), k)
    }
}

/// The first position of key `k` among `e`.
pub open spec fn first_index(e: Seq<(Seq<char>, Seq<char>)>, k: Seq<char>) -> Option<nat>
    decreases e.len(),
{
    if e.len() == 0 {
        None
    } else if e[0].0 == k {
        Some(0)
    } else {
        match first_index(e.drop_first(), k) {
            Some(i) => Some(i + 1),
            None => None,
        }
    }
}

proof fn lemma_first_index(e: Seq<(Seq<char>, Seq<char>)>, k: Seq<char>, i: int)
    requires
        0 <= i <= e.len(),
        forall|j: int| 0 <= j < i ==> e[j].0 != k,
        i < e.len() ==> e[i].0 == k,
    ensures
        first_index(e, k) == (if i < e.len() { Some(i as nat) } else { None::<nat> }),
        lookup(e, k) == (if i < e.len() { Some(e[i].1) } else { None::<Seq<char>> }),
    decreases e.len(),
{
    if e.len() > 0 && i > 0 {
        let t = e.drop_first();
        assert forall|j: int| 0 <= j < i - 1 implies t[j].0 != k by {
            assert(t[j] == e[j + 1]);
        }
        lemma_first_index(t, k, i - 1);
        if i < e.len() {
            assert(t[i - 1] == e[i]);
        }
    }
}

proof fn lemma_first_index_some(e: Seq<(Seq<char>, Seq<char>)>, k: Seq<char>)
    ensures
        match first_index(e, k) {
            Some(i) => i < e.len() && e[i as int].0 == k && (i > 0 ==> (e[0].0 != k
                && first_index(e.drop_first(), k) == Some((i - 1) as nat))),
            None => e.len() > 0 ==> (e[0].0 != k && first_index(e.drop_first(), k) is None),
        },
    decreases e.len(),
{
    if e.len() > 0 && e[0].0 != k {
        lemma_first_index_some(e.drop_first(), k);
    }
}

proof fn lemma_lookup_update(e: Seq<(Seq<char>, Seq<char>)>, k: Seq<char>, v: Seq<char>, i: int, q: Seq<char>)
    requires
        0 <= i,
        first_index(e, k) == Some(i as nat),
    ensures
        lookup(e.update(i, (k, v)), q) == (if q == k { Some(v) } else { lookup(e, q) }),
    decreases e.len(),
{
    lemma_first_index_some(e, k);
    let u = e.update(i, (k, v));
    if i == 0 {
        assert(u.drop_first() =~= e.drop_first());
    } else {
        let t = e.drop_first();
        assert(u.drop_first() =~= t.update(i - 1, (k, v)));
        assert(u[0] == e[0]);
        lemma_lookup_update(t, k, v, i - 1, q);
    }
}

proof fn lemma_lookup_push(e: Seq<(Seq<char>, Seq<char>)>, k: Seq<char>, v: Seq<char>, q: Seq<char>)
    requires
        first_index(e, k) is None,
    ensures
        lookup(e.push((k, v)), q) == (if q == k { Some(v) } else { lookup(e, q) }),
    decreases e.len(),
{
    lemma_first_index_some(e, k);
    let u = e.push((k, v));
    if e.len() > 0 {
        assert(u.drop_first() =~= e.drop_first().push((k, v)));
        assert(u[0] == e[0]);
        lemma_lookup_push(e.drop_first(), k, v, q);
    } else {
        assert(u.drop_first() =~= e);
    }
}

/// The entries after setting `k` to `v`: the first entry of `k` takes the value, or the
/// pair goes last.
pub open spec fn param_set(e: Seq<(Seq<char>, Seq<char>)>, k: Seq<char>, v: Seq<char>) -> Seq<
    (Seq<char>, Seq<char>),
> {
    match first_index(e, k) {
        Some(i) => e.update(i as int, (k, v)),
        None => e.push((k, v)),
    }
}

impl ParamMap {
    /// The entries, in insertion order.
    pub closed spec fn entries(self) -> Seq<(Seq<char>, Seq<char>)> {
        self.entries@.map_values(|p: (String, String)| (p.0@, p.1@))
    }

    /// The value of `k`, if set.
    pub open spec fn spec_get(self, k: Seq<char>) -> Option<Seq<char>> {
        lookup(self.entries(), k)
    }

    /// An empty map.
    pub fn new() -> (r: ParamMap)
        ensures
            r.entries() == Seq::<(Seq<char>, Seq<char>)>::empty(),
            forall|k: Seq<char>| #[trigger] r.spec_get(k) is None,
    {
        let r = ParamMap { entries: Vec::new() };
        assert(r.entries() =~= Seq::<(Seq<char>, Seq<char>)>::empty());
        r
    }

    fn position(&self, k: &str) -> (r: Option<usize>)
        ensures
            match r {
                Some(i) => first_index(self.entries(), k@) == Some(i as nat),
                None => first_index(self.entries(), k@) is None,
            },
            r is Some ==> r->0 < self.entries().len(),
            self.spec_get(k@) == match r {
                Some(i) => Some(self.entries()[i as int].1),
                None => None::<Seq<char>>,
            },
    {
        let ghost e = self.entries();
        let mut i: usize = 0;
        while i < self.entries.len()
            invariant
                i <= self.entries@.len(),
                e == self.entries(),
                e.len() == self.entries@.len(),
                forall|j: int| 0 <= j < i ==> e[j].0 != k@,
            decreases self.entries@.len() - i,
        {
            assert(e[i as int] == (self.entries@[i as int].0@, self.entries@[i as int].1@));
            if string_eq(&self.entries[i].0, k) {
                proof {
                    lemma_first_index(e, k@, i as int);
                }
                return Some(i);
            }
            i = i + 1;
        }
        proof {
            lemma_first_index(e, k@, i as int);
        }
        None
    }

    /// Sets `k` to `v`; a later `get(k)` gives `v` and every other key keeps its value.
    pub fn insert(&mut self, k: String, v: String)
        ensures
            final(self).entries() == param_set(old(self).entries(), k@, v@),
            forall|q: Seq<char>| #[trigger] final(self).spec_get(q) == (if q == k@ {
                Some(v@)
            } else {
                old(self).spec_get(q)
            }),
    {
        let ghost e = self.entries();
        match self.position(k.as_str()) {
            Some(i) => {
                let ghost kv = (k@, v@);
                self.entries.set(i, (k, v));
                assert(self.entries() =~= e.update(i as int, kv));
                proof {
                    assert forall|q: Seq<char>| #[trigger] self.spec_get(q) == (if q == kv.0 {
                        Some(kv.1)
                    } else {
                        lookup(e, q)
                    }) by {
                        lemma_lookup_update(e, kv.0, kv.1, i as int, q);
                    }
                }
            },
            None => {
                let ghost kv = (k@, v@);
                self.entries.push((k, v));
                assert(self.entries() =~= e.push(kv));
                proof {
                    assert forall|q: Seq<char>| #[trigger] self.spec_get(q) == (if q == kv.0 {
                        Some(kv.1)
                    } else {
                        lookup(e, q)
                    }) by {
                        lemma_lookup_push(e, kv.0, kv.1, q);
                    }
                }
            },
        }
    }

    /// The value of `k`, if set.
    pub fn get(&self, k: &str) -> (r: Option<&String>)
        ensures
            match self.spec_get(k@) {
                Some(v) => r matches Some(s) && s@ == v,
                None => r is None,
            },
    {
        match self.position(k) {
            Some(i) => {
                assert(self.entries()[i as int] == (self.entries@[i as int].0@, self.entries@[
                    i as int
                ].1@));
                Some(&self.entries[i].1)
            },
            None => None,
        }
    }

    /// The number of distinct keys set.
    pub fn len(&self) -> (n: usize)
        ensures
            n == self.entries().len(),
    {
        self.entries.len()
    }

    /// The `i`-th entry, in insertion order.
    pub fn entry(&self, i: usize) -> (r: (&String, &String))
        requires
            i < self.entries().len(),
        ensures
            (r.0@, r.1@) == self.entries()[i as int],
    {
        (&self.entries[i].0, &self.entries[i].1)
    }
}

/// Whether two strings are equal (`String == str`).
fn string_eq(a: &String, b: &str) -> (r: bool)
    ensures
        r == (a@ == b@),
{
    let x = chars_of(a.as_str());
    let y = chars_of(b);
    if x.len() != y.len() {
        return false;
    }
    let mut i: usize = 0;
    while i < x.len()
        invariant
            x@ == a@,
            y@ == b@,
            x@.len() == y@.len(),
            i <= x@.len(),
            forall|j: int| 0 <= j < i ==> x@[j] == y@[j],
        decreases x@.len() - i,
    {
        if x[i] != y[i] {
            return false;
        }
        i = i + 1;
    }
    assert(x@ =~= y@);
    true
}

/// One path segment after substitution: a `:name` segment becomes the percent-encoded value
/// of `name`, or `Err(name)` when `name` has no value; any other segment stays as it is.
pub open spec fn substituted_segment(seg: Seq<char>, params: Seq<(Seq<char>, Seq<char>)>) -> Result<
    Seq<char>,
    Seq<char>,
> {
    if seg.len() > 0 && seg[0] == ':' {
        match lookup(params, seg.drop_first()) {
            Some(v) => Ok(encode_path_param(v)),
            None => Err(seg.drop_first()),
        }
    } else {
        Ok(seg)
    }
}

/// The segments `segs`, each substituted, joined again with `/`; or the name of the first
/// `:name` segment without a value.
pub open spec fn substituted_segments(
    segs: Seq<Seq<char>>,
    params: Seq<(Seq<char>, Seq<char>)>,
) -> Result<Seq<char>, Seq<char>>
    decreases segs.len(),
{
    if segs.len() == 0 {
        Ok(Seq::<char>::empty())
    } else {
        match substituted_segments(segs.drop_last(), params) {
            Err(name) => Err(name),
            Ok(t) => match substituted_segment(segs.last(), params) {
                Err(name) => Err(name),
                Ok(s) => Ok(
                    if segs.len() == 1 {
                        s
                    } else {
                        t + seq!['/'] + s
                    },
                ),
            },
        }
    }
}

/// The path template with each `:name` segment of its path part (before any `?`) replaced
/// by the percent-encoded value of `name`, the `?query` suffix kept as it is; or the name of
/// the first `:name` segment without a value.
#[verifier::opaque]
pub open spec fn substitute_spec(path: Seq<char>, params: Seq<(Seq<char>, Seq<char>)>) -> Result<
    Seq<char>,
    Seq<char>,
> {
    match substituted_segments(split_char(before_first(path, '?'), '/'), params) {
        Err(name) => Err(name),
        Ok(t) => Ok(
            match after_first(path, '?') {
                Some(q) => t + seq!['?'] + q,
                None => t,
            },
        ),
    }
}

/// The segment `cs[lo..hi]` after substitution, or the name that has no value.
fn substitute_segment(cs: &Vec<char>, lo: usize, hi: usize, params: &ParamMap) -> (r: Result<
    String,
    String,
>)
    requires
        lo <= hi <= cs@.len(),
    ensures
        match substituted_segment(cs@.subrange(lo as int, hi as int), params.entries()) {
            Ok(t) => r matches Ok(x) && x@ == t,
            Err(n) => r matches Err(x) && x@ == n,
        },
{
    let ghost seg = cs@.subrange(lo as int, hi as int);
    if lo < hi && cs[lo] == ':' {
        let name = string_of(cs.as_slice(), lo + 1, hi);
        assert(seg.drop_first() =~= cs@.subrange(lo + 1, hi as int));
        match params.get(name.as_str()) {
            Some(v) => Ok(percent_encode_param(v.as_str())),
            None => Err(name),
        }
    } else {
        Ok(string_of(cs.as_slice(), lo, hi))
    }
}

/// Replaces each `:name` segment of the path by the percent-encoded value of `name`; the
/// first such segment without a value is `MissingPathParam` with its name.
pub fn substitute_params(path: &str, params: &ParamMap) -> (r: Result<String, Error>)
    ensures
        match substitute_spec(path@, params.entries()) {
            Ok(t) => r matches Ok(s) && s@ == t,
            Err(name) => r matches Err(Error::MissingPathParam(n)) && n@ == name,
        },
{
    reveal(substitute_spec);
    let cs = chars_of(path);
    let k = find_char(&cs, '?');
    proof {
        lemma_first_occurrence(cs@, '?', k as int);
    }
    let ghost pe = params.entries();
    let mut out = String::new();
    let mut seg_start: usize = 0;
    let mut i: usize = 0;
    proof {
        assert(cs@.take(0) =~= Seq::<char>::empty());
        assert(cs@.subrange(0, 0) =~= Seq::<char>::empty());
    }
    while i < k
        invariant
            k <= cs@.len(),
            cs@ == path@,
            before_first(cs@, '?') == cs@.take(k as int),
            pe == params.entries(),
            seg_start <= i <= k,
            split_char(cs@.take(i as int), '/').len() >= 1,
            split_char(cs@.take(i as int), '/').last() == cs@.subrange(seg_start as int, i as int),
            match substituted_segments(split_char(cs@.take(i as int), '/').drop_last(), pe) {
                Ok(t) => if split_char(cs@.take(i as int), '/').len() == 1 {
                    out@ == Seq::<char>::empty()
                } else {
                    out@ == t + seq!['/']
                },
                Err(_) => false,
            },
        decreases k - i,
    {
        let ghost t = cs@.take(i as int);
        let ghost r = split_char(t, '/');
        assert(cs@.take(i + 1).drop_last() =~= t);
        assert(cs@.take(i + 1).last() == cs@[i as int]);
        if cs[i] == '/' {
            assert(r.drop_last().push(r.last()) =~= r);
            match substitute_segment(&cs, seg_start, i, params) {
                Ok(x) => {
                    push_str(&mut out, x.as_str());
                    push_char(&mut out, '/');
                },
                Err(n) => {
                    proof {
                        assert(substituted_segments(r, pe) == Err::<Seq<char>, Seq<char>>(n@));
                        assert(cs@.take(k as int).take(i as int) =~= t);
                        assert(cs@.take(k as int)[i as int] == '/');
                        lemma_substituted_segments_err(cs@.take(k as int), '/', i as int + 1, k as int, pe, n@);
                        assert(cs@.take(k as int).take(k as int) =~= cs@.take(k as int));
                        reveal(substitute_spec);

                    }
                    return Err(Error::MissingPathParam(n));
                },
            }
            assert(split_char(cs@.take(i + 1), '/') == r.push(Seq::<char>::empty()));
            assert(r.push(Seq::<char>::empty()).drop_last() =~= r);
            seg_start = i + 1;
            assert(cs@.subrange(seg_start as int, i + 1) =~= Seq::<char>::empty());
        } else {
            let ghost ns = r.update(r.len() - 1, r.last().push(cs@[i as int]));
            assert(split_char(cs@.take(i + 1), '/') == ns);
            assert(ns.drop_last() =~= r.drop_last());
            assert(cs@.subrange(seg_start as int, i + 1) =~= cs@.subrange(seg_start as int, i as int).push(cs@[i as int]));
        }
        i = i + 1;
    }
    let ghost r = split_char(cs@.take(k as int), '/');
    assert(r.drop_last().push(r.last()) =~= r);
    assert(cs@.take(k as int) =~= before_first(cs@, '?'));
    match substitute_segment(&cs, seg_start, k, params) {
        Err(n) => Err(Error::MissingPathParam(n)),
        Ok(x) => {
            push_str(&mut out, x.as_str());
            let ghost t = out@;
            append_range(&mut out, cs.as_slice(), k, cs.len());
            proof {
                if k < cs@.len() {
                    assert(cs@.subrange(k as int, cs@.len() as int) =~= seq!['?'] + cs@.skip(k + 1));
                    assert(out@ =~= t + seq!['?'] + cs@.skip(k + 1));
                } else {
                    assert(out@ =~= t);
                }
            }
            Ok(out)
        },
    }
}

/// Once the segments of `s[..n - 1]` fail with `name` at a `/`, so do those of `s[..m]`.
proof fn lemma_substituted_segments_err(
    s: Seq<char>,
    sep: char,
    n: int,
    m: int,
    params: Seq<(Seq<char>, Seq<char>)>,
    name: Seq<char>,
)
    requires
        0 < n <= m <= s.len(),
        s[n - 1] == sep,
        substituted_segments(split_char(s.take(n - 1), sep), params) == Err::<Seq<char>, Seq<char>>(
            name,
        ),
    ensures
        split_char(s.take(m), sep).len() >= 1,
        substituted_segments(split_char(s.take(m), sep).drop_last(), params) == Err::<
            Seq<char>,
            Seq<char>,
        >(name),
        substituted_segments(split_char(s.take(m), sep), params) == Err::<Seq<char>, Seq<char>>(
            name,
        ),
    decreases m - n,
{
    crate::text::lemma_split_char_nonempty(s.take(m), sep);
    if m == n {
        assert(s.take(n).drop_last() =~= s.take(n - 1));
        assert(s.take(n).last() == s[n - 1]);
        let r = split_char(s.take(n - 1), sep);
        assert(split_char(s.take(n), sep) == r.push(Seq::<char>::empty()));
        assert(r.push(Seq::<char>::empty()).drop_last() =~= r);
    } else {
        lemma_substituted_segments_err(s, sep, n, m - 1, params, name);
        let r = split_char(s.take(m - 1), sep);
        assert(s.take(m).drop_last() =~= s.take(m - 1));
        assert(s.take(m).last() == s[m - 1]);
        crate::text::lemma_split_char_nonempty(s.take(m - 1), sep);
        if s[m - 1] == sep {
            assert(split_char(s.take(m), sep) == r.push(Seq::<char>::empty()));
            assert(r.push(Seq::<char>::empty()).drop_last() =~= r);
        } else {
            let ns = r.update(r.len() - 1, r.last().push(s[m - 1]));
            assert(split_char(s.take(m), sep) == ns);
            assert(ns.drop_last() =~= r.drop_last());
        }
    }
}

// ---------------------------------------------------------------------------------------
// URLs
// ---------------------------------------------------------------------------------------

#[verifier::external_type_specification]
#[verifier::external_body]
pub struct ExUrl(Url);

/// The serialization of a URL (`Url::as_str`).
pub uninterp spec fn url_text(u: url::Url) -> Seq<char>;

/// What `Url::parse` makes of a text: the serialization of the parsed URL, or the error.
pub uninterp spec fn url_parse(s: Seq<char>) -> Result<Seq<char>, url::ParseError>;

/// The serialization of a URL after `set_query(Some(q))`.
pub uninterp spec fn url_with_query(u: Seq<char>, q: Seq<char>) -> Seq<char>;

/// Parses an absolute URL (`Url::parse`).
///
/// Contract: the named outcome.
#[verifier::external_body]
pub(crate) fn parse_url(s: &str) -> (r: Result<url::Url, url::ParseError>)
    ensures
        match r {
            Ok(u) => url_parse(s@) == Ok::<Seq<char>, url::ParseError>(url_text(u)),
            Err(e) => url_parse(s@) == Err::<Seq<char>, url::ParseError>(e),
        },
{
    url::Url::parse(s)
}

/// The serialization of a URL (`Url::as_str`).
///
/// Contract: the named text.
#[verifier::external_body]
pub(crate) fn url_as_str(u: &url::Url) -> (r: &str)
    ensures
        r@ == url_text(*u),
{
    u.as_str()
}

/// Sets the query of a URL (`Url::set_query(Some(q))`).
///
/// Contract: the URL afterwards is the named result.
#[verifier::external_body]
fn set_url_query(u: &mut url::Url, q: &str)
    ensures
        url_text(*final(u)) == url_with_query(url_text(*old(u)), q@),
{
    u.set_query(Some(q));
}

/// The text of `base` joined with `path`: the base without trailing slashes, then, when the
/// path has more than slashes, `/` and the path without leading slashes.
pub open spec fn joined_url_text(base: Seq<char>, path: Seq<char>) -> Seq<char> {
    let p = trim_start_char(path, '/');
    let b = trim_end_char(base, '/');
    if p.len() == 0 {
        b
    } else {
        b + seq!['/'] + p
    }
}

proof fn lemma_trim_end_char_take(s: Seq<char>, c: char, m: int)
    requires
        0 <= m <= s.len(),
        forall|j: int| m <= j < s.len() ==> s[j] == c,
        m > 0 ==> s[m - 1] != c,
    ensures
        trim_end_char(s, c) == s.take(m),
    decreases s.len(),
{
    if m == s.len() {
        assert(s.take(m) =~= s);
    } else {
        let t = s.drop_last();
        assert forall|j: int| m <= j < t.len() implies t[j] == c by {
            assert(t[j] == s[j]);
        }
        lemma_trim_end_char_take(t, c, m);
        assert(t.take(m) =~= s.take(m));
    }
}

/// The error of an unparsable URL text.
pub open spec fn url_error(e: url::ParseError) -> Error {
    Error::InvalidBaseUrl(e)
}

/// Parses `text`, mapping a failure to `InvalidBaseUrl`.
fn parse_url_chars(text: &Vec<char>) -> (r: Result<url::Url, Error>)
    ensures
        match url_parse(text@) {
            Ok(t) => r matches Ok(u) && url_text(u) == t,
            Err(e) => r == Err::<url::Url, Error>(url_error(e)),
        },
{
    let s = string_of(text.as_slice(), 0, text.len());
    assert(text@.subrange(0, text@.len() as int) =~= text@);
    match parse_url(s.as_str()) {
        Ok(u) => Ok(u),
        Err(e) => Err(Error::InvalidBaseUrl(e)),
    }
}

/// Joins `path` onto `base` and parses the result.
pub fn join_path(base: &url::Url, path: &Vec<char>) -> (r: Result<url::Url, Error>)
    ensures
        match url_parse(joined_url_text(url_text(*base), path@)) {
            Ok(t) => r matches Ok(u) && url_text(u) == t,
            Err(e) => r == Err::<url::Url, Error>(url_error(e)),
        },
{
    let a = find_first_not(path.as_slice(), 0, '/');
    proof {
        lemma_trim_start_char_skip(path@, '/', a as int);
    }
    let bs = chars_of(url_as_str(base));
    let mut b = bs.len();
    while b > 0 && bs[b - 1] == '/'
        invariant
            b <= bs@.len(),
            forall|j: int| b <= j < bs@.len() ==> bs@[j] == '/',
        decreases b,
    {
        b = b - 1;
    }
    proof {
        lemma_trim_end_char_take(bs@, '/', b as int);
    }
    let mut joined: Vec<char> = Vec::new();
    let mut i: usize = 0;
    while i < b
        invariant
            b <= bs@.len(),
            i <= b,
            joined@ == bs@.take(i as int),
        decreases b - i,
    {
        joined.push(bs[i]);
        assert(bs@.take(i + 1) =~= bs@.take(i as int).push(bs@[i as int]));
        i = i + 1;
    }
    if a < path.len() {
        joined.push('/');
        let ghost j0 = joined@;
        let mut k = a;
        while k < path.len()
            invariant
                a <= k <= path@.len(),
                joined@ == j0 + path@.subrange(a as int, k as int),
            decreases path@.len() - k,
        {
            joined.push(path[k]);
            assert(path@.subrange(a as int, k + 1) =~= path@.subrange(a as int, k as int).push(
                path@[k as int],
            ));
            k = k + 1;
        }
        assert(path@.subrange(a as int, path@.len() as int) =~= path@.skip(a as int));
    }
    assert(joined@ =~= joined_url_text(url_text(*base), path@));
    parse_url_chars(&joined)
}

/// Sets the serialized query of a URL, unless the query map is empty.
pub fn apply_query(url: &mut url::Url, query: &IndexMap<String, QueryValue>)
    ensures
        query_entries(*query).len() == 0 ==> *final(url) == *old(url),
        query_entries(*query).len() > 0 ==> url_text(*final(url)) == url_with_query(
            url_text(*old(url)),
            form_serialize(query_pairs(query_entries(*query))),
        ),
{
    if query_map_len(query) == 0 {
        return;
    }
    let q = serialize_query(query);
    set_url_query(url, q.as_str());
}

/// Result of building a request URL.
#[derive(Debug)]
pub struct BuiltUrl {
    pub url: url::Url,
    pub method_override: Option<http::Method>,
}

/// Whether a path is an absolute URL (`http://` or `https://`).
pub open spec fn is_absolute(path: Seq<char>) -> bool {
    (path.len() >= 7 && path.take(7) == seq!['h', 't', 't', 'p', ':', '/', '/']) || (path.len()
        >= 8 && path.take(8) == seq!['h', 't', 't', 'p', 's', ':', '/', '/'])
}

/// The query entries embedded in a path after its first `?` (none without one).
pub open spec fn embedded_entries(path: Seq<char>) -> Seq<(Seq<char>, (bool, Seq<Seq<char>>))> {
    match after_first(path, '?') {
        Some(q) => parsed_entries(form_decoded_pairs(encode_utf8(q))),
        None => Seq::empty(),
    }
}

/// Whether `r` is the URL that `build_url` owes for a base URL serialized as `base`, the
/// path `path`, the parameters `params` and the builder query `query`.
pub open spec fn built_url_matches(
    r: Result<BuiltUrl, Error>,
    base: Seq<char>,
    path: Seq<char>,
    params: Seq<(Seq<char>, Seq<char>)>,
    query: Seq<(Seq<char>, (bool, Seq<Seq<char>>))>,
) -> bool {
    let (stripped, method) = method_modifier(path);
    let template = before_first(stripped, '?');
    let merged = merged_entries(embedded_entries(stripped), query);
    match substitute_spec(template, params) {
        Err(name) => r matches Err(Error::MissingPathParam(n)) && n@ == name,
        Ok(resolved) => {
            let target = if is_absolute(path) {
                resolved
            } else {
                joined_url_text(base, resolved)
            };
            match url_parse(target) {
                Err(e) => r == Err::<BuiltUrl, Error>(url_error(e)),
                Ok(t) => r matches Ok(b) && url_text(b.url) == (if merged.len() == 0 {
                    t
                } else {
                    url_with_query(t, form_serialize(query_pairs(merged)))
                }) && match method {
                    Some(k) => b.method_override matches Some(m) && method_text(m) == kind_text(
                        k,
                    ),
                    None => b.method_override is None,
                },
            }
        },
    }
}

/// Builds a request URL from a base URL, a path template, path parameters and a query.
///
/// Query keys are serialized in insertion order. A `?foo=bar` suffix on `path` is merged
/// first; explicit `query` entries override embedded keys. A path that is itself an
/// `http://` or `https://` URL ignores the base.
pub fn build_url(
    base: &url::Url,
    path: &str,
    params: &ParamMap,
    query: &IndexMap<String, QueryValue>,
) -> (r: Result<BuiltUrl, Error>)
    ensures
        built_url_matches(r, url_text(*base), path@, params.entries(), query_entries(*query)),
{
    let cs = chars_of(path);
    let http = vec!['h', 't', 't', 'p', ':', '/', '/'];
    let https = vec!['h', 't', 't', 'p', 's', ':', '/', '/'];
    let absolute = crate::text::range_starts_with(cs.as_slice(), 0, cs.len(), http.as_slice())
        || crate::text::range_starts_with(cs.as_slice(), 0, cs.len(), https.as_slice());
    proof {
        assert(cs@.subrange(0, cs@.len() as int) =~= cs@);
        assert(http@ =~= seq!['h', 't', 't', 'p', ':', '/', '/']);
        assert(https@ =~= seq!['h', 't', 't', 'p', 's', ':', '/', '/']);
    }
    let (a, kind) = split_method_modifier(&cs);
    let ghost stripped = cs@.skip(a as int);
    let q = find_char_from(cs.as_slice(), a, '?');
    proof {
        assert forall|j: int| 0 <= j < q - a implies stripped[j] != '?' by {
            assert(stripped[j] == cs@[a + j]);
        }
        lemma_first_occurrence(stripped, '?', q - a);
    }
    let template = string_of(cs.as_slice(), a, q);
    assert(stripped.take(q - a) =~= cs@.subrange(a as int, q as int));
    let embedded = if q < cs.len() {
        let qs = string_of(cs.as_slice(), q + 1, cs.len());
        assert(stripped.skip(q - a + 1) =~= cs@.subrange(q + 1, cs@.len() as int));
        parse_query_string(qs.as_str())
    } else {
        query_map_new()
    };
    let resolved = match substitute_params(template.as_str(), params) {
        Ok(s) => s,
        Err(e) => return Err(e),
    };
    let rs = chars_of(resolved.as_str());
    let parsed = if absolute {
        parse_url_chars(&rs)
    } else {
        join_path(base, &rs)
    };
    let mut url = match parsed {
        Ok(u) => u,
        Err(e) => return Err(e),
    };
    let merged = merge_queries(embedded, query);
    apply_query(&mut url, &merged);
    let method_override = match kind {
        Some(k) => Some(standard_method(k)),
        None => None,
    };
    Ok(BuiltUrl { url, method_override })
}


/// The base URL of the fuzzing entry points.
pub open spec fn fuzz_base() -> Seq<char> {
    "https://api.example.com"@
}

/// Fuzzing entry point: builds `path` against `https://api.example.com` with no path
/// parameters and no builder query.
pub fn fuzz_build_url(path: &str) -> (r: Result<BuiltUrl, Error>)
    ensures
        match url_parse(fuzz_base()) {
            Err(e) => r == Err::<BuiltUrl, Error>(url_error(e)),
            Ok(b) => built_url_matches(
                r,
                b,
                path@,
                Seq::<(Seq<char>, Seq<char>)>::empty(),
                Seq::<(Seq<char>, (bool, Seq<Seq<char>>))>::empty(),
            ),
        },
{
    let base = match parse_url("https://api.example.com") {
        Ok(u) => u,
        Err(e) => return Err(Error::InvalidBaseUrl(e)),
    };
    let params = ParamMap::new();
    let query = query_map_new();
    build_url(&base, path, &params, &query)
}

/// Fuzzing entry point: merges an embedded `?query` suffix from `path` with an empty
/// builder query (see [`fuzz_build_url`]).
pub fn fuzz_parse_embedded_query(path: &str) -> (r: Result<BuiltUrl, Error>)
    ensures
        match url_parse(fuzz_base()) {
            Err(e) => r == Err::<BuiltUrl, Error>(url_error(e)),
            Ok(b) => built_url_matches(
                r,
                b,
                path@,
                Seq::<(Seq<char>, Seq<char>)>::empty(),
                Seq::<(Seq<char>, (bool, Seq<Seq<char>>))>::empty(),
            ),
        },
{
    fuzz_build_url(path)
}

/// Returns `:param` segment names in left-to-right path order (ignores an embedded
/// `?query`).
pub fn path_param_names(path: &str) -> (names: Vec<String>)
    ensures
        strings_view(names@) == spec_path_param_names(path@),
{
    crate::path_params::path_param_names(path)
}

// ---------------------------------------------------------------------------------------
// Laws
// ---------------------------------------------------------------------------------------

proof fn lemma_upsert_unique(
    e: Seq<(Seq<char>, (bool, Seq<Seq<char>>))>,
    k: Seq<char>,
    v: (bool, Seq<Seq<char>>),
)
    requires
        keys_unique(e),
    ensures
        keys_unique(upsert(e, k, v)),
        forall|q: Seq<char>| #[trigger] has_key(upsert(e, k, v), q) == (q == k || has_key(e, q)),
{
    let r = upsert(e, k, v);
    if has_key(e, k) {
        let idx = key_index(e, k);
        assert forall|i: int, j: int| 0 <= i < j < r.len() implies #[trigger] r[i].0
            != #[trigger] r[j].0 by {
            assert(r[i].0 == e[i].0);
            assert(r[j].0 == e[j].0);
        }
        assert forall|q: Seq<char>| #[trigger] has_key(r, q) == (q == k || has_key(e, q)) by {
            if has_key(e, q) {
                let w = choose|i: int| 0 <= i < e.len() && #[trigger] e[i].0 == q;
                assert(r[w].0 == q);
            }
            if has_key(r, q) {
                let w = choose|i: int| 0 <= i < r.len() && #[trigger] r[i].0 == q;
                assert(r[w].0 == e[w].0);
            }
            if q == k {
                assert(r[idx].0 == k);
            }
        }
    } else {
        assert forall|i: int, j: int| 0 <= i < j < r.len() implies #[trigger] r[i].0
            != #[trigger] r[j].0 by {
            assert(r[i].0 == e[i].0);
            if j < e.len() {
                assert(r[j].0 == e[j].0);
            }
        }
        assert forall|q: Seq<char>| #[trigger] has_key(r, q) == (q == k || has_key(e, q)) by {
            if has_key(e, q) {
                let w = choose|i: int| 0 <= i < e.len() && #[trigger] e[i].0 == q;
                assert(r[w].0 == q);
            }
            if has_key(r, q) {
                let w = choose|i: int| 0 <= i < r.len() && #[trigger] r[i].0 == q;
                if w < e.len() {
                    assert(r[w].0 == e[w].0);
                }
            }
            if q == k {
                assert(r[e.len() as int].0 == k);
            }
        }
    }
}

proof fn lemma_merged_unique(
    e: Seq<(Seq<char>, (bool, Seq<Seq<char>>))>,
    b: Seq<(Seq<char>, (bool, Seq<Seq<char>>))>,
)
    requires
        keys_unique(e),
    ensures
        keys_unique(merged_entries(e, b)),
    decreases b.len(),
{
    if b.len() > 0 {
        lemma_merged_unique(e, b.drop_last());
        lemma_upsert_unique(merged_entries(e, b.drop_last()), b.last().0, b.last().1);
    }
}

/// The value of key `k` among unique-keyed entries.
pub open spec fn value_of(e: Seq<(Seq<char>, (bool, Seq<Seq<char>>))>, k: Seq<char>) -> (
    bool,
    Seq<Seq<char>>,
) {
    e[key_index(e, k)].1
}

/// Builder query entries override the query embedded in the path: after merging, every key
/// of the builder's query holds the builder's value, and every embedded key that the
/// builder does not set keeps its embedded value.
pub proof fn law_builder_query_overrides(
    embedded: Seq<(Seq<char>, (bool, Seq<Seq<char>>))>,
    builder: Seq<(Seq<char>, (bool, Seq<Seq<char>>))>,
    k: Seq<char>,
)
    requires
        keys_unique(embedded),
        keys_unique(builder),
    ensures
        has_key(builder, k) ==> has_key(merged_entries(embedded, builder), k) && value_of(
            merged_entries(embedded, builder),
            k,
        ) == value_of(builder, k),
        !has_key(builder, k) && has_key(embedded, k) ==> has_key(
            merged_entries(embedded, builder),
            k,
        ) && value_of(merged_entries(embedded, builder), k) == value_of(embedded, k),
    decreases builder.len(),
{
    if builder.len() > 0 {
        let bl = builder.drop_last();
        assert forall|i: int, j: int| 0 <= i < j < bl.len() implies #[trigger] bl[i].0
            != #[trigger] bl[j].0 by {
            assert(bl[i] == builder[i]);
            assert(bl[j] == builder[j]);
        }
        law_builder_query_overrides(embedded, bl, k);
        lemma_merged_unique(embedded, bl);
        let prev = merged_entries(embedded, bl);
        let (lk, lv) = builder.last();
        lemma_upsert_unique(prev, lk, lv);
        let m = upsert(prev, lk, lv);
        assert(m == merged_entries(embedded, builder));
        let last = builder.len() - 1;
        if lk == k {
            let idx = if has_key(prev, k) {
                key_index(prev, k)
            } else {
                prev.len() as int
            };
            assert(m[idx].0 == k);
            lemma_has_key_index(m, k, idx);
            lemma_has_key_index(builder, k, last);
        } else {
            if has_key(builder, k) {
                let w = key_index(builder, k);
                assert(w != last);
                assert(bl[w].0 == k);
            }
            if has_key(bl, k) {
                let w = key_index(bl, k);
                assert(builder[w].0 == k);
                lemma_has_key_index(builder, k, w);
            }
            if has_key(prev, k) {
                let idx = key_index(prev, k);
                if has_key(prev, lk) {
                    let li = key_index(prev, lk);
                    assert(li != idx);
                }
                assert(m[idx] == prev[idx]);
                lemma_has_key_index(m, k, idx);
            }
        }
    }
}

/// The result of substituting `segs`: it succeeds exactly when every `:name` segment among
/// them has a value, and a failure names one such segment without a value.
proof fn lemma_substituted_segments(segs: Seq<Seq<char>>, params: Seq<(Seq<char>, Seq<char>)>)
    ensures
        substituted_segments(segs, params) is Ok <==> (forall|i: int|
            0 <= i < param_segment_names(segs).len() ==> #[trigger] lookup(
                params,
                param_segment_names(segs)[i],
            ) is Some),
        substituted_segments(segs, params) matches Err(n) ==> lookup(params, n) is None
            && param_segment_names(segs).contains(n),
    decreases segs.len(),
{
    if segs.len() > 0 {
        let p = segs.drop_last();
        lemma_substituted_segments(p, params);
        let np = param_segment_names(p);
        let n = param_segment_names(segs);
        let last = segs.last();
        if last.len() > 0 && last[0] == ':' {
            assert(n == np.push(last.drop_first()));
            assert(n[np.len() as int] == last.drop_first());
            assert forall|i: int| 0 <= i < np.len() implies n[i] == np[i] by {}
            if substituted_segments(p, params) is Ok && lookup(params, last.drop_first()) is None {
                assert(n.contains(last.drop_first()));
            }
            if let Err(m) = substituted_segments(p, params) {
                let j = choose|j: int| 0 <= j < np.len() && np[j] == m;
                assert(n[j] == m);
            }
        } else {
            assert(n == np);
        }
    }
}

/// A path template substitutes exactly when every `:name` of its path part has a value;
/// otherwise the error names a parameter of the template that has none.
pub proof fn law_substitution_needs_every_param(path: Seq<char>, params: Seq<(Seq<char>, Seq<char>)>)
    ensures
        substitute_spec(path, params) is Ok <==> (forall|i: int|
            0 <= i < spec_path_param_names(path).len() ==> #[trigger] lookup(
                params,
                spec_path_param_names(path)[i],
            ) is Some),
        substitute_spec(path, params) matches Err(n) ==> lookup(params, n) is None
            && spec_path_param_names(path).contains(n),
{
    reveal(substitute_spec);
    lemma_substituted_segments(split_char(before_first(path, '?'), '/'), params);
}

} // verus!
