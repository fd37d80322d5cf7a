//! Path template helpers shared by URL building and OpenAPI export.

use vstd::prelude::*;
use crate::text::{before_first, chars_of, find_char, lemma_first_occurrence, split_char, string_of};

verus! {

/// The names of the `:name` pieces among `segs`, in order, without their `:`.
pub open spec fn param_segment_names(segs: Seq<Seq<char>>) -> Seq<Seq<char>>
    decreases segs.len(),
{
    if segs.len() == 0 {
        Seq::<Seq<char>>::empty()
    } else {
        let r = param_segment_names(segs.drop_last());
        let last = segs.last();
        if last.len() > 0 && last[0] == ':' {
            r.push(last.drop_first())
        } else {
            r
        }
    }
}

/// The `:param` names of a path template: the part before any `?`, split at `/`, keeping
/// the pieces that start with `:`.
pub open spec fn spec_path_param_names(path: Seq<char>) -> Seq<Seq<char>> {
    param_segment_names(split_char(before_first(path, '?'), '/'))
}

/// The views of a sequence of strings.
pub open spec fn strings_view(v: Seq<String>) -> Seq<Seq<char>> {
    v.map_values(|s: String| s@)
}

/// Returns `:param` segment names in left-to-right order (ignores a `?query` suffix).
pub fn path_param_names(path: &str) -> (names: Vec<String>)
    ensures
        strings_view(names@) == spec_path_param_names(path@),
{
    let cs = chars_of(path);
    let k = find_char(&cs, '?');
    proof {
        lemma_first_occurrence(cs@, '?', k as int);
    }
    let ghost whole = cs@.take(k as int);
    let mut names: Vec<String> = Vec::new();
    let mut seg_start: usize = 0;
    let mut i: usize = 0;
    proof {
        assert(cs@.take(0) =~= Seq::<char>::empty());
        assert(cs@.subrange(0, 0) =~= Seq::<char>::empty());
    }
    while i < k
        invariant
            k <= cs@.len(),
            seg_start <= i <= k,
            split_char(cs@.take(i as int), '/').len() >= 1,
            split_char(cs@.take(i as int), '/').last() == cs@.subrange(seg_start as int, i as int),
            strings_view(names@) == param_segment_names(
                split_char(cs@.take(i as int), '/').drop_last(),
            ),
        decreases k - i,
    {
        let ghost t = cs@.take(i as int);
        let ghost r = split_char(t, '/');
        assert(cs@.take(i + 1).drop_last() =~= t);
        assert(cs@.take(i + 1).last() == cs@[i as int]);
        if cs[i] == '/' {
            assert(split_char(cs@.take(i + 1), '/') == r.push(Seq::<char>::empty()));
            assert(r.push(Seq::<char>::empty()).drop_last() =~= r);
            let ghost seg = r.last();
            if seg_start < i && cs[seg_start] == ':' {
                let s = string_of(&cs, seg_start + 1, i);
                assert(seg.drop_first() =~= cs@.subrange(seg_start + 1, i as int));
                names.push(s);
                assert(strings_view(names@) =~= strings_view(names@.drop_last()).push(s@));
            }
            seg_start = i + 1;
            assert(cs@.subrange(seg_start as int, i + 1) =~= Seq::<char>::empty());
        } else {
            let ghost ns = r.update(r.len() - 1, r.last().push(cs@[i as int]));
            assert(split_char(cs@.take(i + 1), '/') == ns);
            assert(ns.drop_last() =~= r.drop_last());
            assert(cs@.subrange(seg_start as int, i + 1) =~= cs@.subrange(seg_start as int, i as int).push(cs@[i as int]));
        }
        i = i + 1;
    }
    let ghost r = split_char(whole, '/');
    assert(r.drop_last().push(r.last()) =~= r);
    if seg_start < i && cs[seg_start] == ':' {
        let s = string_of(&cs, seg_start + 1, i);
        assert(r.last().drop_first() =~= cs@.subrange(seg_start + 1, i as int));
        names.push(s);
        assert(strings_view(names@) =~= strings_view(names@.drop_last()).push(s@));
    }
    names
}

/// Splitting `a / b` at `/` gives the pieces of `a` followed by those of `b`.
proof fn lemma_split_char_join(a: Seq<char>, b: Seq<char>, sep: char)
    ensures
        split_char(a + seq![sep] + b, sep) == split_char(a, sep) + split_char(b, sep),
    decreases b.len(),
{
    let s = a + seq![sep] + b;
    if b.len() == 0 {
        assert(s.drop_last() =~= a);
        assert(split_char(b, sep) =~= seq![Seq::<char>::empty()]);
        assert(split_char(a, sep).push(Seq::<char>::empty()) =~= split_char(a, sep) + seq![
            Seq::<char>::empty(),
        ]);
    } else {
        let b0 = b.drop_last();
        lemma_split_char_join(a, b0, sep);
        crate::text::lemma_split_char_nonempty(b0, sep);
        crate::text::lemma_split_char_nonempty(a, sep);
        assert(s.drop_last() =~= a + seq![sep] + b0);
        assert(s.last() == b.last());
        let ra = split_char(a, sep);
        let rb = split_char(b0, sep);
        if b.last() == sep {
            assert((ra + rb).push(Seq::<char>::empty()) =~= ra + rb.push(Seq::<char>::empty()));
        } else {
            let rr = ra + rb;
            assert(rr.last() == rb.last());
            assert(rr.update(rr.len() - 1, rr.last().push(b.last())) =~= ra + rb.update(
                rb.len() - 1,
                rb.last().push(b.last()),
            ));
        }
    }
}

/// The names among `x + y` are those among `x` followed by those among `y`.
proof fn lemma_param_segment_names_concat(x: Seq<Seq<char>>, y: Seq<Seq<char>>)
    ensures
        param_segment_names(x + y) == param_segment_names(x) + param_segment_names(y),
    decreases y.len(),
{
    if y.len() == 0 {
        assert(x + y =~= x);
        assert(param_segment_names(x) + Seq::<Seq<char>>::empty() =~= param_segment_names(x));
    } else {
        lemma_param_segment_names_concat(x, y.drop_last());
        assert((x + y).drop_last() =~= x + y.drop_last());
        assert((x + y).last() == y.last());
        let nx = param_segment_names(x);
        let ny = param_segment_names(y.drop_last());
        assert((nx + ny).push(y.last().drop_first()) =~= nx + ny.push(y.last().drop_first()));
    }
}

/// Text without `sep` is a single piece.
proof fn lemma_split_char_single(s: Seq<char>, sep: char)
    requires
        !s.contains(sep),
    ensures
        split_char(s, sep) == seq![s],
    decreases s.len(),
{
    if s.len() == 0 {
        assert(s =~= Seq::<char>::empty());
        assert(seq![Seq::<char>::empty()] =~= seq![s]);
    } else {
        let t = s.drop_last();
        assert(!t.contains(sep)) by {
            if t.contains(sep) {
                let j = choose|j: int| 0 <= j < t.len() && t[j] == sep;
                assert(s[j] == sep);
            }
        }
        lemma_split_char_single(t, sep);
        assert(s.last() != sep) by {
            assert(s[s.len() - 1] == s.last());
        }
        assert(t.push(s.last()) =~= s);
        assert(seq![t].update(0, t.push(s.last())) =~= seq![s]);
    }
}

/// Text without `c` is all before its first `c`, and `a ? q` is `a` before its first `?`.
proof fn lemma_before_first_absent(a: Seq<char>, q: Seq<char>, c: char)
    requires
        !a.contains(c),
    ensures
        before_first(a, c) == a,
        before_first(a + seq![c] + q, c) == a,
    decreases a.len(),
{
    if a.len() > 0 {
        let t = a.drop_first();
        assert(!t.contains(c)) by {
            if t.contains(c) {
                let j = choose|j: int| 0 <= j < t.len() && t[j] == c;
                assert(a[j + 1] == c);
            }
        }
        lemma_before_first_absent(t, q, c);
        assert(a[0] != c) by {
            assert(a.contains(a[0]));
        }
        assert((a + seq![c] + q).drop_first() =~= t + seq![c] + q);
        assert(seq![a[0]] + t =~= a);
    } else {
        assert((a + seq![c] + q)[0] == c);
        assert(before_first(a + seq![c] + q, c) =~= a);
    }
}

/// The parameter names of a path are found segment by segment: those of `a/b` are those
/// of `a` followed by those of `b`, a `?query` suffix adds none, and a single segment names
/// a parameter exactly when it starts with `:` (the name is the rest of it).
pub proof fn law_path_param_names_by_segment(a: Seq<char>, b: Seq<char>, q: Seq<char>)
    requires
        !a.contains('?'),
        !b.contains('?'),
    ensures
        spec_path_param_names(a + seq!['/'] + b) == spec_path_param_names(a)
            + spec_path_param_names(b),
        spec_path_param_names(a + seq!['?'] + q) == spec_path_param_names(a),
        !a.contains('/') ==> spec_path_param_names(a) == if a.len() > 0 && a[0] == ':' {
            seq![a.drop_first()]
        } else {
            Seq::<Seq<char>>::empty()
        },
{
    let ab = a + seq!['/'] + b;
    assert(!ab.contains('?')) by {
        if ab.contains('?') {
            let j = choose|j: int| 0 <= j < ab.len() && ab[j] == '?';
            if j < a.len() {
                assert(a[j] == '?');
            } else if j > a.len() {
                assert(b[j - a.len() - 1] == '?');
            }
        }
    }
    lemma_before_first_absent(ab, q, '?');
    lemma_before_first_absent(a, q, '?');
    lemma_before_first_absent(b, q, '?');
    lemma_split_char_join(a, b, '/');
    lemma_param_segment_names_concat(split_char(a, '/'), split_char(b, '/'));
    if !a.contains('/') {
        lemma_split_char_single(a, '/');
        let e = Seq::<Seq<char>>::empty();
        assert(seq![a].drop_last() =~= e);
        assert(seq![a].last() == a);
        assert(param_segment_names(e) == e);
        assert(before_first(a, '?') == a);
        if a.len() > 0 && a[0] == ':' {
            assert(e.push(a.drop_first()) =~= seq![a.drop_first()]);
        }
    }
}

} // verus!
