//! Server-Sent Events (`text/event-stream`) decoding.
//!
//! [`SseDecoder`] parses events incrementally from UTF-8 chunks; [`parse_sse_events`] parses a
//! complete buffer. Blocks are delimited by a blank line; line terminators may be LF, CR or
//! CRLF (normalized to LF), including a CRLF split across chunks.

use vstd::prelude::*;
use vstd::utf8::{decode_utf8, valid_utf8};
use crate::error::Error;
use crate::text::{
    is_white_space, trim_start, append_range, chars_of, push_char, range_starts_with, split_char,
    string_of, trim, trim_bounds,
};

verus! {

/// One SSE event (may aggregate multiple `data:` lines).
#[derive(Debug, Clone, PartialEq, Eq)]
pub struct SseEvent {
    /// Optional `event:` field.
    pub event: Option<String>,
    /// Concatenated `data:` lines joined with `\n`.
    pub data: String,
    /// Optional `id:` field.
    pub id: Option<String>,
}

/// The mathematical value of an [`SseEvent`].
pub struct SseEventView {
    pub event: Option<Seq<char>>,
    pub data: Seq<char>,
    pub id: Option<Seq<char>>,
}

impl View for SseEvent {
    type V = SseEventView;

    open spec fn view(&self) -> SseEventView {
        SseEventView { event: self.event.deep_view(), data: self.data@, id: self.id.deep_view() }
    }
}

/// The values of a sequence of events.
pub open spec fn events_view(v: Seq<SseEvent>) -> Seq<SseEventView> {
    v.map_values(|e: SseEvent| e@)
}

// ---------------------------------------------------------------------------------------
// Line normalization
// ---------------------------------------------------------------------------------------

/// `s` with CRLF and lone CR line terminators replaced by LF.
pub open spec fn normalize(s: Seq<char>) -> Seq<char>
    decreases s.len(),
{
    if s.len() == 0 {
        s
    } else {
        let p = normalize(s.drop_last());
        let c = s.last();
        if c == '\r' {
            p.push('\n')
        } else if c == '\n' && s.len() >= 2 && s[s.len() - 2] == '\r' {
            p
        } else {
            p.push(c)
        }
    }
}

/// What the decoder appends to its buffer for the next chunk `text`, and whether a lone
/// trailing `\r` is held back (it may pair with a leading `\n` of the chunk after).
pub open spec fn push_norm(pending_cr: bool, text: Seq<char>) -> (Seq<char>, bool) {
    let t = if pending_cr && text.len() > 0 && text[0] == '\n' {
        text.drop_first()
    } else {
        text
    };
    let pre = if pending_cr {
        seq!['\n']
    } else {
        Seq::<char>::empty()
    };
    let ends_cr = t.len() > 0 && t.last() == '\r';
    (pre + (if ends_cr {
        normalize(t).drop_last()
    } else {
        normalize(t)
    }), ends_cr)
}

proof fn lemma_normalize_len(s: Seq<char>)
    ensures
        normalize(s).len() <= s.len(),
        s.len() > 0 && s.last() == '\r' ==> normalize(s).len() > 0 && normalize(s).last()
            == '\n',
    decreases s.len(),
{
    if s.len() > 0 {
        lemma_normalize_len(s.drop_last());
    }
}

/// Appends the normalization of `text[from..]` to `out`. Returns whether `text` ends with a
/// lone `\r` that was held back.
fn normalize_into(out: &mut Vec<char>, text: &[char], from: usize) -> (held: bool)
    requires
        from <= text@.len(),
    ensures
        ({
            let t = text@.skip(from as int);
            let ends_cr = t.len() > 0 && t.last() == '\r';
            &&& held == ends_cr
            &&& final(out)@ == old(out)@ + (if ends_cr {
                normalize(t).drop_last()
            } else {
                normalize(t)
            })
        }),
{
    let ghost t = text@.skip(from as int);
    let ghost base = out@;
    let mut j = from;
    let mut held = false;
    proof {
        assert(t.take(0) =~= Seq::<char>::empty());
        assert(base + normalize(t.take(0)) =~= base);
    }
    while j < text.len()
        invariant
            from <= j <= text@.len(),
            t == text@.skip(from as int),
            !held ==> out@ == base + normalize(t.take(j - from)),
            !held && j > from && j < text@.len() && text@[j - 1] == '\r' ==> text@[j as int]
                != '\n',
            !held && j > from && j == text@.len() ==> text@[j - 1] != '\r',
            held ==> j == text@.len() && t.len() > 0 && t.last() == '\r' && out@ == base
                + normalize(t).drop_last(),
        decreases text@.len() - j,
    {
        let k: usize = j - from;
        let c = text[j];
        let ghost pre = normalize(t.take(k as int));
        assert(t.take(k + 1).drop_last() =~= t.take(k as int));
        assert(t[k as int] == c);
        if c == '\r' {
            assert(normalize(t.take(k + 1)) == pre.push('\n'));
            if j + 1 < text.len() {
                if text[j + 1] == '\n' {
                    assert(t.take(k + 2).drop_last() =~= t.take(k + 1));
                    assert(t[k + 1] == '\n');
                    assert(normalize(t.take(k + 2)) == normalize(t.take(k + 1)));
                    j = j + 2;
                } else {
                    j = j + 1;
                }
                out.push('\n');
                assert(out@ =~= base + pre.push('\n'));
            } else {
                held = true;
                j = j + 1;
                assert(t.take(k + 1) =~= t);
                assert(normalize(t).drop_last() =~= pre);
                assert(out@ =~= base + pre);
            }
        } else {
            if c == '\n' && k > 0 {
                assert(t[k - 1] == text@[j - 1]);
            }
            assert(normalize(t.take(k + 1)) == pre.push(c));
            out.push(c);
            j = j + 1;
            assert(out@ =~= base + pre.push(c));
        }
    }
    proof {
        if !held {
            assert(t.take(j - from) =~= t);
            if t.len() > 0 {
                assert(t.last() == text@[j - 1]);
            }
        }
    }
    held
}

// ---------------------------------------------------------------------------------------
// Blocks and fields
// ---------------------------------------------------------------------------------------

/// `v` without one leading space (the optional space after a field's colon).
pub open spec fn strip_one_space_spec(v: Seq<char>) -> Seq<char> {
    if v.len() > 0 && v[0] == ' ' {
        v.drop_first()
    } else {
        v
    }
}

/// Whether `s` starts with `p`.
pub open spec fn has_prefix(s: Seq<char>, p: Seq<char>) -> bool {
    p.len() <= s.len() && s.take(p.len() as int) == p
}

pub open spec fn event_tag() -> Seq<char> {
    seq!['e', 'v', 'e', 'n', 't', ':']
}

pub open spec fn data_tag() -> Seq<char> {
    seq!['d', 'a', 't', 'a', ':']
}

pub open spec fn id_tag() -> Seq<char> {
    seq!['i', 'd', ':']
}

/// The fields gathered from the lines of one block so far.
pub struct BlockFields {
    pub event: Option<Seq<char>>,
    pub datas: Seq<Seq<char>>,
    pub id: Option<Seq<char>>,
}

/// The effect of one line on the fields: empty lines and `:` comments are skipped; `event:`
/// and `id:` set their field (the last one wins); `data:` appends a data line; other lines
/// are ignored.
pub open spec fn apply_line(f: BlockFields, line: Seq<char>) -> BlockFields {
    if line.len() == 0 || line[0] == ':' {
        f
    } else if has_prefix(line, event_tag()) {
        BlockFields { event: Some(strip_one_space_spec(line.skip(6))), ..f }
    } else if has_prefix(line, data_tag()) {
        BlockFields { datas: f.datas.push(strip_one_space_spec(line.skip(5))), ..f }
    } else if has_prefix(line, id_tag()) {
        BlockFields { id: Some(strip_one_space_spec(line.skip(3))), ..f }
    } else {
        f
    }
}

/// The fields of a sequence of lines, applied in order.
pub open spec fn block_fields(lines: Seq<Seq<char>>) -> BlockFields
    decreases lines.len(),
{
    if lines.len() == 0 {
        BlockFields { event: None, datas: Seq::<Seq<char>>::empty(), id: None }
    } else {
        apply_line(block_fields(lines.drop_last()), lines.last())
    }
}

/// Lines joined with `\n`.
pub open spec fn join_lines(ls: Seq<Seq<char>>) -> Seq<char>
    decreases ls.len(),
{
    if ls.len() == 0 {
        Seq::<char>::empty()
    } else if ls.len() == 1 {
        ls[0]
    } else {
        join_lines(ls.drop_last()) + seq!['\n'] + ls.last()
    }
}

/// The event of one block: `None` when the block has no `data:`, `event:` or `id:` line.
pub open spec fn parse_block_spec(block: Seq<char>) -> Option<SseEventView> {
    let f = block_fields(split_char(block, '\n'));
    if f.datas.len() == 0 && f.event is None && f.id is None {
        None
    } else {
        Some(SseEventView { event: f.event, data: join_lines(f.datas), id: f.id })
    }
}

/// The text after `event:`, `data:` or `id:` with one leading space dropped, as a field
/// value is read.
pub open spec fn field_value(rest: Seq<char>) -> Seq<char> {
    if rest.len() > 0 && rest[0] == ' ' {
        rest.drop_first()
    } else {
        rest
    }
}

/// Over the lines of a block, the last line `tag` + `v` (for a tag `event:` or `id:`) sets
/// that field, whatever the other lines are.
proof fn lemma_last_field_line(lines: Seq<Seq<char>>, i: int, tag: Seq<char>, v: Seq<char>)
    requires
        tag == seq!['e', 'v', 'e', 'n', 't', ':'] || tag == seq!['i', 'd', ':'],
        0 <= i < lines.len(),
        lines[i] == tag + v,
        forall|j: int| i < j < lines.len() ==> !has_prefix(#[trigger] lines[j], tag),
    ensures
        tag == seq!['e', 'v', 'e', 'n', 't', ':'] ==> block_fields(lines).event == Some(field_value(v)),
        tag == seq!['i', 'd', ':'] ==> block_fields(lines).id == Some(field_value(v)),
    decreases lines.len(),
{
    let line = lines.last();
    if i == lines.len() - 1 {
        assert(line.take(tag.len() as int) =~= tag);
        assert(line.skip(tag.len() as int) =~= v);
        assert(line[0] == tag[0]);
        if tag == seq!['i', 'd', ':'] {
            assert(!has_prefix(line, event_tag())) by {
                assert(line[0] == 'i');
            }
            assert(!has_prefix(line, data_tag())) by {
                assert(line[0] == 'i');
            }
        }
    } else {
        let init = lines.drop_last();
        assert forall|j: int| i < j < init.len() implies !has_prefix(#[trigger] init[j], tag) by {
            assert(init[j] == lines[j]);
        }
        assert(init[i] == lines[i]);
        lemma_last_field_line(init, i, tag, v);
        assert(!has_prefix(lines[lines.len() - 1], tag));
    }
}

/// A block with an `event:` line yields exactly one event, named by its last `event:` line
/// (one leading space dropped), whether or not it has `data:` lines.
pub proof fn law_event_line_yields_event(block: Seq<char>, i: int, v: Seq<char>)
    requires
        0 <= i < split_char(block, '\n').len(),
        split_char(block, '\n')[i] == seq!['e', 'v', 'e', 'n', 't', ':'] + v,
        forall|j: int|
            i < j < split_char(block, '\n').len() ==> !has_prefix(
                #[trigger] split_char(block, '\n')[j],
                seq!['e', 'v', 'e', 'n', 't', ':'],
            ),
    ensures
        parse_block_spec(block) matches Some(e) && e.event == Some(field_value(v)),
        block.len() > 0 ==> block_event(block) == seq![parse_block_spec(block)->0],
{
    lemma_last_field_line(split_char(block, '\n'), i, seq!['e', 'v', 'e', 'n', 't', ':'], v);
}

/// A block with an `id:` line yields exactly one event, carrying the id of its last `id:`
/// line (one leading space dropped), whether or not it has `data:` lines.
pub proof fn law_id_line_yields_event(block: Seq<char>, i: int, v: Seq<char>)
    requires
        0 <= i < split_char(block, '\n').len(),
        split_char(block, '\n')[i] == seq!['i', 'd', ':'] + v,
        forall|j: int|
            i < j < split_char(block, '\n').len() ==> !has_prefix(
                #[trigger] split_char(block, '\n')[j],
                seq!['i', 'd', ':'],
            ),
    ensures
        parse_block_spec(block) matches Some(e) && e.id == Some(field_value(v)),
        block.len() > 0 ==> block_event(block) == seq![parse_block_spec(block)->0],
{
    lemma_last_field_line(split_char(block, '\n'), i, seq!['i', 'd', ':'], v);
}

/// The events of one trimmed block (none for an empty block).
pub open spec fn block_event(b: Seq<char>) -> Seq<SseEventView> {
    if b.len() == 0 {
        Seq::<SseEventView>::empty()
    } else {
        match parse_block_spec(b) {
            Some(e) => seq![e],
            None => Seq::<SseEventView>::empty(),
        }
    }
}

/// Position of the first blank line (`\n\n`) in `t`.
pub open spec fn first_blank(t: Seq<char>) -> Option<int>
    decreases t.len(),
{
    if t.len() < 2 {
        None
    } else if t[0] == '\n' && t[1] == '\n' {
        Some(0)
    } else {
        match first_blank(t.drop_first()) {
            Some(p) => Some(p + 1),
            None => None,
        }
    }
}

proof fn lemma_first_blank(t: Seq<char>)
    ensures
        first_blank(t) matches Some(p) ==> 0 <= p && p + 2 <= t.len() && t[p] == '\n' && t[p
            + 1] == '\n' && forall|j: int| 0 <= j < p ==> !(t[j] == '\n' && #[trigger] t[j + 1]
            == '\n'),
        first_blank(t) is None ==> forall|j: int|
            0 <= j && j + 1 < t.len() ==> !(t[j] == '\n' && #[trigger] t[j + 1] == '\n'),
    decreases t.len(),
{
    if t.len() >= 2 && !(t[0] == '\n' && t[1] == '\n') {
        let u = t.drop_first();
        lemma_first_blank(u);
        if let Some(p) = first_blank(u) {
            assert forall|j: int| 0 <= j < p + 1 implies !(t[j] == '\n' && #[trigger] t[j + 1]
                == '\n') by {
                if j > 0 {
                    assert(t[j] == u[j - 1] && t[j + 1] == u[j]);
                }
            }
        } else {
            assert forall|j: int| 0 <= j && j + 1 < t.len() implies !(t[j] == '\n' && #[trigger] t[j
                + 1] == '\n') by {
                if j > 0 {
                    assert(t[j] == u[j - 1] && t[j + 1] == u[j]);
                }
            }
        }
    }
}

/// The events of a normalized text: its blocks between blank lines, each trimmed, in order.
pub open spec fn events_of_text(t: Seq<char>) -> Seq<SseEventView>
    decreases t.len(),
{
    match first_blank(t) {
        Some(p) => if 0 <= p && p + 2 <= t.len() {
            block_event(trim(t.take(p))) + events_of_text(t.skip(p + 2))
        } else {
            Seq::<SseEventView>::empty()
        },
        None => block_event(trim(t)),
    }
}

/// What one drain of complete blocks returns, and the text left in the buffer.
pub open spec fn drain_spec(buf: Seq<char>) -> (Seq<SseEventView>, Seq<char>)
    decreases buf.len(),
{
    match first_blank(buf) {
        Some(p) => if 0 <= p && p + 2 <= buf.len() {
            let r = drain_spec(buf.skip(p + 2));
            (block_event(trim(buf.take(p + 2))) + r.0, r.1)
        } else {
            (Seq::<SseEventView>::empty(), buf)
        },
        None => (Seq::<SseEventView>::empty(), buf),
    }
}

/// The events of the final, unterminated block at the end of a stream.
pub open spec fn finish_spec(buffer: Seq<char>, pending_cr: bool) -> Seq<SseEventView> {
    let tail = if pending_cr {
        buffer.push('\n')
    } else {
        buffer
    };
    if trim(tail).len() == 0 {
        Seq::<SseEventView>::empty()
    } else {
        match parse_block_spec(tail) {
            Some(e) => seq![e],
            None => Seq::<SseEventView>::empty(),
        }
    }
}


// ---------------------------------------------------------------------------------------
// Parsing one block
// ---------------------------------------------------------------------------------------

/// The texts of ranges of `cs`.
pub open spec fn ranges_view(cs: Seq<char>, rs: Seq<(usize, usize)>) -> Seq<Seq<char>> {
    rs.map_values(|r: (usize, usize)| cs.subrange(r.0 as int, r.1 as int))
}

/// The text of an optional range of `cs`.
pub open spec fn opt_range_view(cs: Seq<char>, r: Option<(usize, usize)>) -> Option<Seq<char>> {
    match r {
        Some(r) => Some(cs.subrange(r.0 as int, r.1 as int)),
        None => None,
    }
}

/// Whether a range lies within `cs`.
pub open spec fn range_ok(cs: Seq<char>, r: (usize, usize)) -> bool {
    r.0 <= r.1 <= cs.len()
}

pub open spec fn opt_range_ok(cs: Seq<char>, r: Option<(usize, usize)>) -> bool {
    r matches Some(x) ==> range_ok(cs, x)
}

pub open spec fn ranges_ok(cs: Seq<char>, rs: Seq<(usize, usize)>) -> bool {
    forall|k: int| 0 <= k < rs.len() ==> range_ok(cs, #[trigger] rs[k])
}

/// Removes a single optional leading space after the field colon (per the SSE spec);
/// returns the new start of `cs[lo..hi]`.
fn strip_one_space(cs: &[char], lo: usize, hi: usize) -> (r: usize)
    requires
        lo <= hi <= cs@.len(),
    ensures
        lo <= r <= hi,
        cs@.subrange(r as int, hi as int) == strip_one_space_spec(cs@.subrange(lo as int, hi as int)),
{
    if lo < hi && cs[lo] == ' ' {
        assert(cs@.subrange(lo as int, hi as int).drop_first() =~= cs@.subrange(lo + 1, hi as int));
        lo + 1
    } else {
        lo
    }
}

/// Applies the line `cs[lo..hi]` to the gathered fields.
fn apply_line_exec(
    cs: &[char],
    lo: usize,
    hi: usize,
    ev: &mut Option<(usize, usize)>,
    ds: &mut Vec<(usize, usize)>,
    id: &mut Option<(usize, usize)>,
)
    requires
        lo <= hi <= cs@.len(),
        opt_range_ok(cs@, *old(ev)),
        opt_range_ok(cs@, *old(id)),
        ranges_ok(cs@, old(ds)@),
    ensures
        opt_range_ok(cs@, *final(ev)),
        opt_range_ok(cs@, *final(id)),
        ranges_ok(cs@, final(ds)@),
        (BlockFields {
            event: opt_range_view(cs@, *final(ev)),
            datas: ranges_view(cs@, final(ds)@),
            id: opt_range_view(cs@, *final(id)),
        }) == apply_line(
            BlockFields {
                event: opt_range_view(cs@, *old(ev)),
                datas: ranges_view(cs@, old(ds)@),
                id: opt_range_view(cs@, *old(id)),
            },
            cs@.subrange(lo as int, hi as int),
        ),
{
    let ghost line = cs@.subrange(lo as int, hi as int);
    let event_t: [char; 6] = ['e', 'v', 'e', 'n', 't', ':'];
    let data_t: [char; 5] = ['d', 'a', 't', 'a', ':'];
    let id_t: [char; 3] = ['i', 'd', ':'];
    assert(event_t@ =~= event_tag());
    assert(data_t@ =~= data_tag());
    assert(id_t@ =~= id_tag());
    if lo == hi || cs[lo] == ':' {
        return;
    }
    if range_starts_with(cs, lo, hi, &event_t) {
        let v = strip_one_space(cs, lo + 6, hi);
        assert(line.skip(6) =~= cs@.subrange(lo + 6, hi as int));
        *ev = Some((v, hi));
    } else if range_starts_with(cs, lo, hi, &data_t) {
        let v = strip_one_space(cs, lo + 5, hi);
        assert(line.skip(5) =~= cs@.subrange(lo + 5, hi as int));
        let ghost d0 = ds@;
        ds.push((v, hi));
        assert(ranges_view(cs@, ds@) =~= ranges_view(cs@, d0).push(cs@.subrange(v as int, hi as int)));
    } else if range_starts_with(cs, lo, hi, &id_t) {
        let v = strip_one_space(cs, lo + 3, hi);
        assert(line.skip(3) =~= cs@.subrange(lo + 3, hi as int));
        *id = Some((v, hi));
    }
}

/// Joins the data lines `cs[ds[k]]` with `\n`.
fn join_ranges(cs: &[char], ds: &Vec<(usize, usize)>) -> (s: String)
    requires
        ranges_ok(cs@, ds@),
    ensures
        s@ == join_lines(ranges_view(cs@, ds@)),
{
    let ghost ls = ranges_view(cs@, ds@);
    let mut s = String::new();
    let mut k: usize = 0;
    while k < ds.len()
        invariant
            k <= ds@.len(),
            ranges_ok(cs@, ds@),
            ls == ranges_view(cs@, ds@),
            s@ == join_lines(ls.take(k as int)),
        decreases ds@.len() - k,
    {
        let (a, b) = ds[k];
        assert(range_ok(cs@, ds@[k as int]));
        let ghost before = s@;
        if k > 0 {
            push_char(&mut s, '\n');
        }
        append_range(&mut s, cs, a, b);
        assert(ls.take(k + 1).drop_last() =~= ls.take(k as int));
        assert(ls[k as int] == cs@.subrange(a as int, b as int));
        if k == 0 {
            assert(s@ =~= join_lines(ls.take(1)));
        } else {
            assert(s@ =~= join_lines(ls.take(k as int)) + seq!['\n'] + ls[k as int]);
        }
        k = k + 1;
    }
    assert(ls.take(ds@.len() as int) =~= ls);
    s
}

/// Parses the block `cs[lo..hi]` into an event, or `None` when it has no field lines.
fn parse_sse_block(cs: &[char], lo: usize, hi: usize) -> (r: Option<SseEvent>)
    requires
        lo <= hi <= cs@.len(),
    ensures
        match r {
            Some(e) => parse_block_spec(cs@.subrange(lo as int, hi as int)) == Some(e@),
            None => parse_block_spec(cs@.subrange(lo as int, hi as int)) is None,
        },
{
    let mut ev: Option<(usize, usize)> = None;
    let mut ds: Vec<(usize, usize)> = Vec::new();
    let mut id: Option<(usize, usize)> = None;
    let mut line_start = lo;
    let mut i = lo;
    proof {
        assert(cs@.subrange(lo as int, lo as int) =~= Seq::<char>::empty());
        assert(ranges_view(cs@, ds@) =~= Seq::<Seq<char>>::empty());
    }
    while i < hi
        invariant
            lo <= line_start <= i <= hi <= cs@.len(),
            opt_range_ok(cs@, ev),
            opt_range_ok(cs@, id),
            ranges_ok(cs@, ds@),
            split_char(cs@.subrange(lo as int, i as int), '\n').len() >= 1,
            split_char(cs@.subrange(lo as int, i as int), '\n').last() == cs@.subrange(
                line_start as int,
                i as int,
            ),
            (BlockFields {
                event: opt_range_view(cs@, ev),
                datas: ranges_view(cs@, ds@),
                id: opt_range_view(cs@, id),
            }) == block_fields(split_char(cs@.subrange(lo as int, i as int), '\n').drop_last()),
        decreases hi - i,
    {
        let ghost t = cs@.subrange(lo as int, i as int);
        let ghost r = split_char(t, '\n');
        assert(cs@.subrange(lo as int, i + 1).drop_last() =~= t);
        assert(cs@.subrange(lo as int, i + 1).last() == cs@[i as int]);
        if cs[i] == '\n' {
            assert(split_char(cs@.subrange(lo as int, i + 1), '\n') == r.push(Seq::<char>::empty()));
            assert(r.push(Seq::<char>::empty()).drop_last() =~= r);
            assert(r.drop_last().push(r.last()) =~= r);
            apply_line_exec(cs, line_start, i, &mut ev, &mut ds, &mut id);
            line_start = i + 1;
            assert(cs@.subrange(line_start as int, i + 1) =~= Seq::<char>::empty());
        } else {
            let ghost ns = r.update(r.len() - 1, r.last().push(cs@[i as int]));
            assert(split_char(cs@.subrange(lo as int, i + 1), '\n') == ns);
            assert(ns.drop_last() =~= r.drop_last());
            assert(cs@.subrange(line_start as int, i + 1) =~= cs@.subrange(line_start as int, i as int).push(cs@[i as int]));
        }
        i = i + 1;
    }
    let ghost r = split_char(cs@.subrange(lo as int, hi as int), '\n');
    assert(r.drop_last().push(r.last()) =~= r);
    apply_line_exec(cs, line_start, hi, &mut ev, &mut ds, &mut id);
    if ds.len() == 0 && ev.is_none() && id.is_none() {
        return None;
    }
    let data = join_ranges(cs, &ds);
    let event = match ev {
        Some((a, b)) => Some(string_of(cs, a, b)),
        None => None,
    };
    let idv = match id {
        Some((a, b)) => Some(string_of(cs, a, b)),
        None => None,
    };
    Some(SseEvent { event, data, id: idv })
}


// ---------------------------------------------------------------------------------------
// Complete buffers
// ---------------------------------------------------------------------------------------

proof fn lemma_first_blank_at(u: Seq<char>, j: int)
    requires
        0 <= j && j + 1 < u.len(),
        u[j] == '\n' && u[j + 1] == '\n',
        forall|k: int| 0 <= k < j ==> !(u[k] == '\n' && #[trigger] u[k + 1] == '\n'),
    ensures
        first_blank(u) == Some(j),
{
    lemma_first_blank(u);
    match first_blank(u) {
        Some(p) => {
            if p < j {
                assert(!(u[p] == '\n' && u[p + 1] == '\n'));
            } else if p > j {
                assert(!(u[j] == '\n' && u[j + 1] == '\n'));
            }
        },
        None => {
            assert(!(u[j] == '\n' && u[j + 1] == '\n'));
        },
    }
}

proof fn lemma_first_blank_none(u: Seq<char>)
    requires
        forall|k: int| 0 <= k && k + 1 < u.len() ==> !(u[k] == '\n' && #[trigger] u[k + 1] == '\n'),
    ensures
        first_blank(u) is None,
{
    lemma_first_blank(u);
    if let Some(p) = first_blank(u) {
        assert(!(u[p] == '\n' && u[p + 1] == '\n'));
    }
}

/// Finds the first blank line (`\n\n`) in `t[from..]`.
fn find_blank(t: &[char], from: usize) -> (r: Option<usize>)
    requires
        from <= t@.len(),
    ensures
        match r {
            Some(p) => from <= p && p + 2 <= t@.len() && first_blank(t@.skip(from as int)) == Some(
                p - from,
            ),
            None => first_blank(t@.skip(from as int)) is None,
        },
{
    let ghost u = t@.skip(from as int);
    let mut j = from;
    while j < t.len() && j + 1 < t.len()
        invariant
            from <= j <= t@.len(),
            u == t@.skip(from as int),
            forall|k: int| 0 <= k < j - from ==> !(u[k] == '\n' && #[trigger] u[k + 1] == '\n'),
        decreases t@.len() - j,
    {
        if t[j] == '\n' && t[j + 1] == '\n' {
            proof {
                assert(u[j - from] == t@[j as int] && u[j - from + 1] == t@[j + 1]);
                lemma_first_blank_at(u, j - from);
            }
            return Some(j);
        }
        assert(u[j - from] == t@[j as int] && u[j - from + 1] == t@[j + 1]);
        j = j + 1;
    }
    proof {
        lemma_first_blank_none(u);
    }
    None
}

/// Normalizes the line terminators of `cs` (CRLF and lone CR become LF).
fn normalize_all(cs: &[char]) -> (t: Vec<char>)
    ensures
        t@ == normalize(cs@),
{
    let mut t: Vec<char> = Vec::new();
    let held = normalize_into(&mut t, cs, 0);
    assert(cs@.skip(0) =~= cs@);
    assert(Seq::<char>::empty() + normalize(cs@).drop_last() =~= normalize(cs@).drop_last());
    assert(Seq::<char>::empty() + normalize(cs@) =~= normalize(cs@));
    if held {
        proof {
            lemma_normalize_len(cs@);
        }
        t.push('\n');
        assert(t@ =~= normalize(cs@));
    }
    t
}

/// Appends the event of the trimmed block `t[lo..hi]`, if any, to `evs`.
fn push_block_event(evs: &mut Vec<SseEvent>, t: &[char], lo: usize, hi: usize)
    requires
        lo <= hi <= t@.len(),
    ensures
        events_view(final(evs)@) == events_view(old(evs)@) + block_event(
            trim(t@.subrange(lo as int, hi as int)),
        ),
{
    let (a, b) = trim_bounds(t, lo, hi);
    let ghost e0 = evs@;
    if a < b {
        if let Some(event) = parse_sse_block(t, a, b) {
            evs.push(event);
            assert(events_view(evs@) =~= events_view(e0) + seq![event@]);
            return;
        }
    }
    assert(events_view(evs@) =~= events_view(e0) + Seq::<SseEventView>::empty());
}

/// Parses SSE events from a buffer (blocks separated by blank lines; LF, CR, or CRLF).
pub fn parse_sse_events(buffer: &str) -> (events: Vec<SseEvent>)
    ensures
        events_view(events@) == events_of_text(normalize(buffer@)),
{
    let cs = chars_of(buffer);
    let t = normalize_all(&cs);
    let ghost total = events_of_text(t@);
    let mut evs: Vec<SseEvent> = Vec::new();
    let mut pos: usize = 0;
    let mut done = false;
    assert(t@.skip(0) =~= t@);
    assert(events_view(evs@) =~= Seq::<SseEventView>::empty());
    while !done
        invariant
            pos <= t@.len(),
            total == events_of_text(t@),
            !done ==> events_view(evs@) + events_of_text(t@.skip(pos as int)) == total,
            done ==> events_view(evs@) == total,
        decreases (if done { 0 } else { t@.len() - pos + 1 }),
    {
        let ghost u = t@.skip(pos as int);
        let ghost e0 = events_view(evs@);
        let _tlen = t.len();
        match find_blank(t.as_slice(), pos) {
            Some(p) => {
                assert(u.take(p - pos) =~= t@.subrange(pos as int, p as int));
                assert(u.skip(p - pos + 2) =~= t@.skip(p + 2));
                push_block_event(&mut evs, &t, pos, p);
                assert(events_view(evs@) + events_of_text(t@.skip(p + 2)) =~= e0 + events_of_text(u));
                pos = p + 2;
            },
            None => {
                assert(u =~= t@.subrange(pos as int, t@.len() as int));
                push_block_event(&mut evs, &t, pos, t.len());
                done = true;
            },
        }
    }
    evs
}

// ---------------------------------------------------------------------------------------
// Incremental decoding
// ---------------------------------------------------------------------------------------

/// The description of the error that `std::str::from_utf8` gives for bytes that are not
/// UTF-8 (the error's `Display` text, which depends on where the bytes go wrong).
pub uninterp spec fn utf8_error_message(bytes: Seq<u8>) -> Seq<char>;

/// Decodes UTF-8 bytes (`std::str::from_utf8`, then an owned copy).
///
/// Contract: succeeds exactly when the bytes are valid UTF-8, and then holds their decoding;
/// a failure carries the error's description, named.
#[verifier::external_body]
pub(crate) fn decode_utf8_chunk(bytes: &[u8]) -> (r: Result<String, String>)
    ensures
        r is Ok <==> valid_utf8(bytes@),
        r matches Ok(s) ==> s@ == decode_utf8(bytes@),
        r matches Err(m) ==> m@ == utf8_error_message(bytes@),
{
    std::str::from_utf8(bytes).map(|s| s.to_owned()).map_err(|e| e.to_string())
}

/// The message of a chunk that is not UTF-8.
pub open spec fn invalid_chunk_message(chunk: Seq<u8>) -> Seq<char> {
    "SSE chunk is not valid UTF-8: "@ + utf8_error_message(chunk)
}

/// Incrementally parses SSE events from UTF-8 chunks (blocks delimited by a blank line).
///
/// Line terminators may be LF, CR, or CRLF (normalized to LF), including a CRLF split across
/// chunks.
#[derive(Debug)]
pub struct SseDecoder {
    buffer: Vec<char>,
    /// The previous chunk ended with a lone `\r` that may pair with a leading `\n` of the
    /// next chunk.
    pending_cr: bool,
}

impl View for SseDecoder {
    /// The normalized text not yet emitted, and whether a `\r` is held back.
    type V = (Seq<char>, bool);

    closed spec fn view(&self) -> (Seq<char>, bool) {
        (self.buffer@, self.pending_cr)
    }
}

/// The decoder state after one chunk of text, and the events it emits.
pub open spec fn decoder_step(state: (Seq<char>, bool), text: Seq<char>) -> (
    Seq<SseEventView>,
    (Seq<char>, bool),
) {
    let (app, held) = push_norm(state.1, text);
    let (evs, rest) = drain_spec(state.0 + app);
    (evs, (rest, held))
}

impl Default for SseDecoder {
    fn default() -> (d: Self)
        ensures
            d@ == (Seq::<char>::empty(), false),
    {
        SseDecoder::new()
    }
}

impl SseDecoder {
    /// Creates an empty decoder.
    pub fn new() -> (d: Self)
        ensures
            d@ == (Seq::<char>::empty(), false),
    {
        SseDecoder { buffer: Vec::new(), pending_cr: false }
    }

    /// Appends a chunk and returns any complete events parsed from the buffer.
    ///
    /// A chunk that is not valid UTF-8 is refused with [`Error::Config`] and leaves the
    /// decoder unchanged.
    pub fn push_chunk(&mut self, chunk: &[u8]) -> (r: Result<Vec<SseEvent>, Error>)
        ensures
            match r {
                Ok(events) => valid_utf8(chunk@) && (events_view(events@), final(self)@)
                    == decoder_step(old(self)@, decode_utf8(chunk@)),
                Err(e) => !valid_utf8(chunk@) && final(self)@ == old(self)@ && (e matches Error::Config(
                    m,
                ) && m@ == invalid_chunk_message(chunk@)),
            },
    {
        let text = match decode_utf8_chunk(chunk) {
            Ok(text) => text,
            Err(detail) => {
                let mut message = String::new();
                let prefix = chars_of("SSE chunk is not valid UTF-8: ");
                append_range(&mut message, &prefix, 0, prefix.len());
                let d = chars_of(detail.as_str());
                append_range(&mut message, &d, 0, d.len());
                assert(prefix@.subrange(0, prefix@.len() as int) =~= prefix@);
                assert(d@.subrange(0, d@.len() as int) =~= d@);
                return Err(Error::Config(message));
            },
        };
        let cs = chars_of(text.as_str());
        self.push_normalized(&cs);
        let events = self.drain_complete_events();
        Ok(events)
    }

    /// Appends `text` to the buffer, normalizing CR / CRLF line endings to LF.
    fn push_normalized(&mut self, text: &[char])
        ensures
            final(self)@ == (old(self)@.0 + push_norm(old(self)@.1, text@).0, push_norm(
                old(self)@.1,
                text@,
            ).1),
    {
        let ghost pend = self.pending_cr;
        let ghost b0 = self.buffer@;
        let mut from: usize = 0;
        if self.pending_cr {
            self.pending_cr = false;
            if text.len() > 0 && text[0] == '\n' {
                from = 1;
            }
            self.buffer.push('\n');
        }
        let ghost b1 = self.buffer@;
        let held = normalize_into(&mut self.buffer, text, from);
        self.pending_cr = held;
        proof {
            let t = text@.skip(from as int);
            if pend && text@.len() > 0 && text@[0] == '\n' {
                assert(t =~= text@.drop_first());
            } else {
                assert(t =~= text@);
            }
            let body = if held {
                normalize(t).drop_last()
            } else {
                normalize(t)
            };
            if pend {
                assert(b1 =~= b0 + seq!['\n']);
                assert(self.buffer@ =~= b0 + (seq!['\n'] + body));
            } else {
                assert(self.buffer@ =~= b0 + (Seq::<char>::empty() + body));
            }
        }
    }

    /// Removes every complete block from the buffer and returns their events.
    fn drain_complete_events(&mut self) -> (events: Vec<SseEvent>)
        ensures
            (events_view(events@), final(self)@.0) == drain_spec(old(self)@.0),
            final(self)@.1 == old(self)@.1,
    {
        let ghost whole = self.buffer@;
        let mut evs: Vec<SseEvent> = Vec::new();
        let mut pos: usize = 0;
        let mut done = false;
        assert(whole.skip(0) =~= whole);
        assert(events_view(evs@) + drain_spec(whole).0 =~= drain_spec(whole).0);
        while !done
            invariant
                pos <= self.buffer@.len(),
                self.buffer@ == whole,
                events_view(evs@) + drain_spec(whole.skip(pos as int)).0 == drain_spec(whole).0,
                drain_spec(whole.skip(pos as int)).1 == drain_spec(whole).1,
                done ==> drain_spec(whole.skip(pos as int)).0 =~= Seq::<SseEventView>::empty()
                    && drain_spec(whole.skip(pos as int)).1 == whole.skip(pos as int),
            decreases (if done { 0 } else { whole.len() - pos + 1 }),
        {
            let ghost u = whole.skip(pos as int);
            let ghost e0 = events_view(evs@);
            let _blen = self.buffer.len();
            match find_blank(self.buffer.as_slice(), pos) {
                Some(p) => {
                    assert(u.take(p - pos + 2) =~= whole.subrange(pos as int, p + 2));
                    assert(u.skip(p - pos + 2) =~= whole.skip(p + 2));
                    push_block_event(&mut evs, &self.buffer, pos, p + 2);
                    assert(events_view(evs@) + drain_spec(whole.skip(p + 2)).0 =~= e0 + drain_spec(
                        u,
                    ).0);
                    pos = p + 2;
                },
                None => {
                    done = true;
                },
            }
        }
        let mut rest: Vec<char> = Vec::new();
        let mut k = pos;
        while k < self.buffer.len()
            invariant
                pos <= k <= self.buffer@.len(),
                self.buffer@ == whole,
                rest@ == whole.subrange(pos as int, k as int),
            decreases self.buffer@.len() - k,
        {
            rest.push(self.buffer[k]);
            assert(rest@ =~= whole.subrange(pos as int, k + 1));
            k = k + 1;
        }
        assert(rest@ =~= whole.skip(pos as int));
        assert(events_view(evs@) =~= events_view(evs@) + Seq::<SseEventView>::empty());
        self.buffer = rest;
        evs
    }

    /// Parses any trailing text as a final event block (if non-empty).
    pub fn finish(self) -> (events: Vec<SseEvent>)
        ensures
            events_view(events@) == finish_spec(self@.0, self@.1),
    {
        let mut tail = self.buffer;
        if self.pending_cr {
            tail.push('\n');
        }
        let (a, b) = trim_bounds(&tail, 0, tail.len());
        assert(tail@.subrange(0, tail@.len() as int) =~= tail@);
        let mut events: Vec<SseEvent> = Vec::new();
        if a == b {
            assert(events_view(events@) =~= Seq::<SseEventView>::empty());
            return events;
        }
        if let Some(event) = parse_sse_block(&tail, 0, tail.len()) {
            events.push(event);
            assert(events_view(events@) =~= seq![event@]);
        } else {
            assert(events_view(events@) =~= Seq::<SseEventView>::empty());
        }
        events
    }
}


// ---------------------------------------------------------------------------------------
// Laws
// ---------------------------------------------------------------------------------------

proof fn lemma_first_blank_prefix(x: Seq<char>, y: Seq<char>)
    requires
        first_blank(x) is Some,
    ensures
        first_blank(x + y) == first_blank(x),
{
    lemma_first_blank(x);
    let p = first_blank(x)->0;
    let z = x + y;
    assert forall|k: int| 0 <= k < p implies !(z[k] == '\n' && #[trigger] z[k + 1] == '\n') by {
        assert(z[k] == x[k] && z[k + 1] == x[k + 1]);
        assert(!(x[k] == '\n' && x[k + 1] == '\n'));
    }
    assert(z[p] == x[p] && z[p + 1] == x[p + 1]);
    lemma_first_blank_at(z, p);
}

/// Draining `x` and then the rest followed by `y` drains the same as draining `x + y`.
proof fn lemma_drain_concat(x: Seq<char>, y: Seq<char>)
    ensures
        drain_spec(x + y) == (drain_spec(x).0 + drain_spec(drain_spec(x).1 + y).0, drain_spec(
            drain_spec(x).1 + y,
        ).1),
    decreases x.len(),
{
    lemma_first_blank(x);
    match first_blank(x) {
        Some(p) => {
            lemma_first_blank_prefix(x, y);
            let z = x + y;
            assert(z.take(p + 2) =~= x.take(p + 2));
            assert(z.skip(p + 2) =~= x.skip(p + 2) + y);
            lemma_drain_concat(x.skip(p + 2), y);
            let d = drain_spec(x.skip(p + 2));
            let d2 = drain_spec(d.1 + y);
            assert(block_event(trim(x.take(p + 2))) + (d.0 + d2.0) =~= (block_event(
                trim(x.take(p + 2)),
            ) + d.0) + d2.0);
        },
        None => {
            assert(Seq::<SseEventView>::empty() + drain_spec(x + y).0 =~= drain_spec(x + y).0);
        },
    }
}

/// What is left after a drain holds no blank line.
proof fn lemma_drain_rest(x: Seq<char>)
    ensures
        first_blank(drain_spec(x).1) is None,
    decreases x.len(),
{
    lemma_first_blank(x);
    if let Some(p) = first_blank(x) {
        lemma_drain_rest(x.skip(p + 2));
    }
}

/// Normalizing a concatenation: a CR at the end of `u` swallows a LF at the start of `v`.
proof fn lemma_normalize_concat(u: Seq<char>, v: Seq<char>)
    ensures
        (u.len() == 0 || u.last() != '\r') ==> normalize(u + v) == normalize(u) + normalize(v),
        (u.len() > 0 && u.last() == '\r') ==> normalize(u + v) == normalize(u) + normalize(
            if v.len() > 0 && v[0] == '\n' {
                v.drop_first()
            } else {
                v
            },
        ),
    decreases v.len(),
{
    if v.len() == 0 {
        assert(u + v =~= u);
        assert(normalize(u) + normalize(v) =~= normalize(u));
    } else {
        let w = v.drop_last();
        let c = v.last();
        lemma_normalize_concat(u, w);
        let z = u + v;
        assert(z.drop_last() =~= u + w);
        assert(z.last() == c);
        let cr = u.len() > 0 && u.last() == '\r';
        let vd = if cr && v[0] == '\n' {
            v.drop_first()
        } else {
            v
        };
        let wd = if cr && w.len() > 0 && w[0] == '\n' {
            w.drop_first()
        } else {
            w
        };
        if cr && v[0] == '\n' && v.len() == 1 {
            assert(z[z.len() - 2] == u.last());
            assert(w =~= Seq::<char>::empty());
            assert(u + w =~= u);
            assert(vd =~= Seq::<char>::empty());
            assert(normalize(u) + normalize(vd) =~= normalize(u));
        } else {
            if w.len() > 0 {
                assert(w[0] == v[0]);
                assert(vd.drop_last() =~= wd);
                assert(vd.last() == c);
                assert(z[z.len() - 2] == w.last());
                if vd.len() >= 2 {
                    assert(vd[vd.len() - 2] == w.last());
                } else {
                    assert(wd.len() == 0);
                    assert(cr && v[0] == '\n');
                    assert(w.last() == '\n');
                }
                assert(normalize(u + w) == normalize(u) + normalize(wd));
            } else {
                assert(u + w =~= u);
                assert(vd =~= v);
                assert(v.drop_last() =~= Seq::<char>::empty());
                assert(normalize(u) + normalize(Seq::<char>::empty()) =~= normalize(u));
                if u.len() > 0 {
                    assert(z[z.len() - 2] == u.last());
                }
            }
            let pu = normalize(u);
            let pw = normalize(wd);
            if c == '\r' {
                assert((pu + pw).push('\n') =~= pu + pw.push('\n'));
            } else if c == '\n' && z.len() >= 2 && z[z.len() - 2] == '\r' {
            } else {
                assert((pu + pw).push(c) =~= pu + pw.push(c));
            }
        }
    }
}

/// Pushing `a` and then `b` normalizes like pushing `a + b`, for non-empty chunks.
proof fn lemma_push_norm_concat_nonempty(p: bool, a: Seq<char>, b: Seq<char>)
    requires
        a.len() > 0,
        b.len() > 0,
    ensures
        ({
            let (app_a, held_a) = push_norm(p, a);
            let (app_b, held_b) = push_norm(held_a, b);
            push_norm(p, a + b) == (app_a + app_b, held_b)
        }),
{
    let ab = a + b;
    let ta = if p && a[0] == '\n' {
        a.drop_first()
    } else {
        a
    };
    let tab = if p && ab[0] == '\n' {
        ab.drop_first()
    } else {
        ab
    };
    assert(ab[0] == a[0]);
    assert(tab =~= ta + b);
    let pre = if p {
        seq!['\n']
    } else {
        Seq::<char>::empty()
    };
    let held_a = ta.len() > 0 && ta.last() == '\r';
    let tb = if held_a && b[0] == '\n' {
        b.drop_first()
    } else {
        b
    };
    lemma_normalize_concat(ta, b);
    assert(tab.last() == b.last());
    let held_b = tb.len() > 0 && tb.last() == '\r';
    if tb.len() > 0 {
        assert(tb.last() == b.last());
    } else {
        assert(b.len() == 1 && b[0] == '\n');
    }
    let held_ab = tab.len() > 0 && tab.last() == '\r';
    assert(held_ab == held_b);
    lemma_normalize_len(ta);
    lemma_normalize_len(tb);
    let na = normalize(ta);
    let nb = normalize(tb);
    if held_a {
        let app_a = pre + na.drop_last();
        let app_b = seq!['\n'] + (if held_b {
            nb.drop_last()
        } else {
            nb
        });
        assert(na =~= na.drop_last().push('\n'));
        if held_b {
            assert((na + nb).drop_last() =~= na + nb.drop_last());
            assert(pre + (na + nb).drop_last() =~= app_a + app_b);
        } else {
            assert(pre + (na + nb) =~= app_a + app_b);
        }
    } else {
        assert(tb =~= b);
        if held_b {
            assert((na + nb).drop_last() =~= na + nb.drop_last());
            assert(pre + (na + nb).drop_last() =~= pre + na + (Seq::<char>::empty()
                + nb.drop_last()));
        } else {
            assert(pre + (na + nb) =~= pre + na + (Seq::<char>::empty() + nb));
        }
    }
}

/// Whether feeding `a` and then `b` from a state whose held-back flag is `p` avoids the one
/// case in which an empty chunk changes the outcome: an empty chunk flushes a held-back `\r`
/// as a line end, so it must not arrive while a `\r` is held back.
pub open spec fn empty_chunk_ok(p: bool, a: Seq<char>, b: Seq<char>) -> bool {
    !(a.len() == 0 && p && b.len() > 0 && b[0] == '\n') && !(b.len() == 0 && push_norm(p, a).1)
}

/// Pushing `a` and then `b` normalizes like pushing `a + b`, empty chunks included where
/// they do not flush a held-back `\r`.
proof fn lemma_push_norm_concat(p: bool, a: Seq<char>, b: Seq<char>)
    requires
        empty_chunk_ok(p, a, b),
    ensures
        ({
            let (app_a, held_a) = push_norm(p, a);
            let (app_b, held_b) = push_norm(held_a, b);
            push_norm(p, a + b) == (app_a + app_b, held_b)
        }),
{
    let e = Seq::<char>::empty();
    if a.len() > 0 && b.len() > 0 {
        lemma_push_norm_concat_nonempty(p, a, b);
    } else if b.len() == 0 {
        assert(a + b =~= a);
        assert(normalize(e) == e);
        let (app_a, held_a) = push_norm(p, a);
        assert(!held_a);
        assert(push_norm(false, b).0 =~= e);
        assert(app_a + e =~= app_a);
    } else {
        assert(a + b =~= b);
        assert(normalize(e) == e);
        let pre = if p {
            seq!['\n']
        } else {
            e
        };
        assert(push_norm(p, a).0 =~= pre);
        assert(!push_norm(p, a).1);
    }
}

/// Chunk boundaries do not matter: feeding the decoder `a` and then `b` emits the same
/// events and reaches the same state as feeding it `a + b` (a CRLF split between `a` and
/// `b` included). It fails only where an empty chunk arrives while a `\r` is held back
/// (see [`empty_chunk_ok`]).
pub proof fn law_decoder_chunk_split(state: (Seq<char>, bool), a: Seq<char>, b: Seq<char>)
    requires
        empty_chunk_ok(state.1, a, b),
    ensures
        ({
            let (e1, s1) = decoder_step(state, a);
            let (e2, s2) = decoder_step(s1, b);
            decoder_step(state, a + b) == (e1 + e2, s2)
        }),
{
    lemma_push_norm_concat(state.1, a, b);
    let (app_a, held_a) = push_norm(state.1, a);
    let (app_b, held_b) = push_norm(held_a, b);
    lemma_drain_concat(state.0 + app_a, app_b);
    assert(state.0 + (app_a + app_b) =~= (state.0 + app_a) + app_b);
}

/// The concatenation of text chunks.
pub open spec fn concat_all(chunks: Seq<Seq<char>>) -> Seq<char>
    decreases chunks.len(),
{
    if chunks.len() == 0 {
        Seq::<char>::empty()
    } else {
        concat_all(chunks.drop_last()) + chunks.last()
    }
}

/// Feeding the decoder a sequence of text chunks: all events emitted, and the final state.
pub open spec fn decode_chunks(state: (Seq<char>, bool), chunks: Seq<Seq<char>>) -> (
    Seq<SseEventView>,
    (Seq<char>, bool),
)
    decreases chunks.len(),
{
    if chunks.len() == 0 {
        (Seq::<SseEventView>::empty(), state)
    } else {
        let (e, s) = decode_chunks(state, chunks.drop_last());
        let (e2, s2) = decoder_step(s, chunks.last());
        (e + e2, s2)
    }
}

/// The state of a fresh decoder.
pub open spec fn fresh_decoder() -> (Seq<char>, bool) {
    (Seq::<char>::empty(), false)
}

/// The events and state after an empty chunk flushes the `\r` that state `st` holds back:
/// the `\r` becomes a line end and complete blocks are drained.
pub open spec fn flushed(evs: Seq<SseEventView>, st: (Seq<char>, bool)) -> (
    Seq<SseEventView>,
    (Seq<char>, bool),
) {
    let d = drain_spec(st.0 + seq!['\n']);
    (evs + d.0, (d.1, false))
}

/// Whether chunk `k` is empty, arrives while a fresh decoder fed `chunks` holds back a
/// `\r`, and the next non-empty chunk after it starts with `\n`. This is the one case in
/// which chunk boundaries change the events: the empty chunk ends the line at the `\r`, so
/// the `\n` after it ends another line instead of completing a CRLF.
pub open spec fn flushed_cr_meets_lf(chunks: Seq<Seq<char>>, k: int) -> bool {
    &&& 0 <= k < chunks.len()
    &&& chunks[k].len() == 0
    &&& decode_chunks(fresh_decoder(), chunks.take(k)).1.1
    &&& exists|j: int|
        #![trigger chunks[j]]
        k < j < chunks.len() && chunks[j].len() > 0 && chunks[j][0] == '\n' && forall|i: int|
            k < i < j ==> #[trigger] chunks[i].len() == 0
}

/// Whether the chunks since `k` (up to `m`) are all empty after chunk `k` flushed a held
/// `\r`.
pub open spec fn flush_pending(chunks: Seq<Seq<char>>, k: int, m: int) -> bool {
    &&& 0 <= k < m
    &&& chunks[k].len() == 0
    &&& decode_chunks(fresh_decoder(), chunks.take(k)).1.1
    &&& forall|i: int| k < i < m ==> #[trigger] chunks[i].len() == 0
}

/// A drained buffer followed by nothing drains to itself.
proof fn lemma_drain_drained(r: Seq<char>)
    requires
        first_blank(r) is None,
    ensures
        drain_spec(r) == (Seq::<SseEventView>::empty(), r),
{
}

proof fn lemma_chunks_track_whole(chunks: Seq<Seq<char>>, m: int)
    requires
        0 <= m <= chunks.len(),
        forall|k: int| !flushed_cr_meets_lf(chunks, k),
    ensures
        ({
            let act = decode_chunks(fresh_decoder(), chunks.take(m));
            let rf = decoder_step(fresh_decoder(), concat_all(chunks.take(m)));
            act == rf || (rf.1.1 && act == flushed(rf.0, rf.1) && exists|k: int|
                #[trigger] flush_pending(chunks, k, m))
        }),
    decreases m,
{
    let init = fresh_decoder();
    let e = Seq::<char>::empty();
    let none = Seq::<SseEventView>::empty();
    if m == 0 {
        assert(chunks.take(0) =~= Seq::<Seq<char>>::empty());
        assert(push_norm(false, e).0 =~= e);
        assert(e + e =~= e);
        assert(drain_spec(e) == (none, e));
    } else {
        lemma_chunks_track_whole(chunks, m - 1);
        let p = chunks.take(m - 1);
        let q = chunks.take(m);
        let c = chunks[m - 1];
        assert(q.drop_last() =~= p);
        assert(q.last() == c);
        assert(concat_all(q) == concat_all(p) + c);
        let (ea, sa) = decode_chunks(init, p);
        let (er, sr) = decoder_step(init, concat_all(p));
        assert(decode_chunks(init, q) == (ea + decoder_step(sa, c).0, decoder_step(sa, c).1));
        lemma_drain_rest(e + push_norm(false, concat_all(p)).0);
        if c.len() == 0 && sr.1 {
            assert(concat_all(p) + c =~= concat_all(p));
            if (ea, sa) == (er, sr) {
                assert(push_norm(true, c).0 =~= seq!['\n']);
                assert(flush_pending(chunks, m - 1, m));
            } else {
                let k = choose|k: int| #[trigger] flush_pending(chunks, k, m - 1);
                lemma_drain_rest(sr.0 + seq!['\n']);
                lemma_drain_drained(sa.0);
                assert(push_norm(false, c).0 =~= e);
                assert(sa.0 + e =~= sa.0);
                assert(ea + none =~= ea);
                assert(flush_pending(chunks, k, m));
            }
        } else {
            law_decoder_chunk_split(init, concat_all(p), c);
            if (ea, sa) != (er, sr) {
                let k = choose|k: int| #[trigger] flush_pending(chunks, k, m - 1);
                if c.len() == 0 {
                    assert(false);
                }
                if c[0] == '\n' {
                    assert(flushed_cr_meets_lf(chunks, k));
                }
                let d = drain_spec(sr.0 + seq!['\n']);
                let (body, h) = push_norm(false, c);
                assert(push_norm(true, c) == (seq!['\n'] + body, h));
                lemma_drain_concat(sr.0 + seq!['\n'], body);
                assert(sr.0 + (seq!['\n'] + body) =~= (sr.0 + seq!['\n']) + body);
                let x = drain_spec(d.1 + body);
                assert(er + (d.0 + x.0) =~= (er + d.0) + x.0);
            }
        }
    }
}

/// Feeding chunks one by one tracks feeding their concatenation at once: the events and
/// state are the same, except that after an empty chunk that flushed a held-back `\r` (with
/// no non-empty chunk since) the `\r` has already ended its line. This holds whenever no
/// such flushed `\r` meets a `\n` at the start of the next non-empty chunk.
pub proof fn law_decode_chunks_tracks_whole(chunks: Seq<Seq<char>>)
    requires
        forall|k: int| !flushed_cr_meets_lf(chunks, k),
    ensures
        ({
            let act = decode_chunks(fresh_decoder(), chunks);
            let rf = decoder_step(fresh_decoder(), concat_all(chunks));
            act == rf || (rf.1.1 && act == flushed(rf.0, rf.1))
        }),
{
    lemma_chunks_track_whole(chunks, chunks.len() as int);
    assert(chunks.take(chunks.len() as int) =~= chunks);
}

proof fn lemma_trim_start_append(x: Seq<char>, y: Seq<char>)
    ensures
        (exists|j: int| 0 <= j < x.len() && !is_white_space(#[trigger] x[j])) ==> trim_start(x + y)
            == trim_start(x) + y,
        (forall|j: int| 0 <= j < x.len() ==> is_white_space(#[trigger] x[j])) ==> trim_start(x + y)
            == trim_start(y) && trim_start(x) =~= Seq::<char>::empty(),
    decreases x.len(),
{
    if x.len() == 0 {
        assert(x + y =~= y);
    } else if is_white_space(x[0]) {
        let x1 = x.drop_first();
        lemma_trim_start_append(x1, y);
        assert((x + y).drop_first() =~= x1 + y);
        assert((x + y)[0] == x[0]);
        if exists|j: int| 0 <= j < x.len() && !is_white_space(#[trigger] x[j]) {
            let j = choose|j: int| 0 <= j < x.len() && !is_white_space(#[trigger] x[j]);
            assert(j > 0);
            assert(x1[j - 1] == x[j]);
        }
        if forall|j: int| 0 <= j < x.len() ==> is_white_space(#[trigger] x[j]) {
            assert forall|j: int| 0 <= j < x1.len() implies is_white_space(#[trigger] x1[j]) by {
                assert(x1[j] == x[j + 1]);
            }
        }
    } else {
        assert((x + y)[0] == x[0]);
        assert(!is_white_space(x[0]));
    }
}

/// Trailing white space does not change a trimmed text.
proof fn lemma_trim_push_ws(x: Seq<char>, c: char)
    requires
        is_white_space(c),
    ensures
        trim(x.push(c)) == trim(x),
{
    lemma_trim_start_append(x, seq![c]);
    assert(x.push(c) =~= x + seq![c]);
    if exists|j: int| 0 <= j < x.len() && !is_white_space(#[trigger] x[j]) {
        let z = trim_start(x);
        assert(z.push(c).drop_last() =~= z);
        assert(z + seq![c] =~= z.push(c));
    } else {
        assert(seq![c].drop_first() =~= Seq::<char>::empty());
        assert(trim_start(seq![c]) == trim_start(Seq::<char>::empty()));
    }
}

/// The events of `x + y`: what a drain of `x` returns, then the events of the rest and `y`.
proof fn lemma_events_concat(x: Seq<char>, y: Seq<char>)
    ensures
        events_of_text(x + y) == drain_spec(x).0 + events_of_text(drain_spec(x).1 + y),
    decreases x.len(),
{
    lemma_first_blank(x);
    match first_blank(x) {
        Some(p) => {
            lemma_first_blank_prefix(x, y);
            let z = x + y;
            assert(z.take(p) =~= x.take(p));
            assert(z.skip(p + 2) =~= x.skip(p + 2) + y);
            lemma_events_concat(x.skip(p + 2), y);
            assert(x.take(p + 2) =~= x.take(p).push('\n').push('\n'));
            lemma_trim_push_ws(x.take(p).push('\n'), '\n');
            lemma_trim_push_ws(x.take(p), '\n');
            let d = drain_spec(x.skip(p + 2));
            assert(block_event(trim(x.take(p))) + (d.0 + events_of_text(d.1 + y)) =~= (
            block_event(trim(x.take(p + 2))) + d.0) + events_of_text(d.1 + y));
        },
        None => {
            assert(Seq::<SseEventView>::empty() + events_of_text(x + y) =~= events_of_text(x + y));
        },
    }
}

/// The events of a final text with no blank line (possibly followed by one line feed) are
/// those of its trimmed text.
proof fn lemma_events_tail(r: Seq<char>, nl: bool)
    requires
        first_blank(r) is None,
    ensures
        ({
            let tail = if nl {
                r.push('\n')
            } else {
                r
            };
            events_of_text(tail) == block_event(trim(tail))
        }),
{
    if nl {
        let tail = r.push('\n');
        lemma_first_blank(r);
        lemma_first_blank(tail);
        lemma_trim_push_ws(r, '\n');
        if let Some(p) = first_blank(tail) {
            if p + 1 < r.len() {
                assert(tail[p] == r[p] && tail[p + 1] == r[p + 1]);
            }
            assert(p + 1 == r.len());
            assert(tail.take(p) =~= r.drop_last());
            assert(r =~= r.drop_last().push('\n'));
            lemma_trim_push_ws(r.drop_last(), '\n');
            assert(tail.skip(p + 2) =~= Seq::<char>::empty());
            assert(first_blank(Seq::<char>::empty()) is None);
            assert(trim_start(Seq::<char>::empty()) =~= Seq::<char>::empty());
            assert(events_of_text(Seq::<char>::empty()) =~= Seq::<SseEventView>::empty());
            assert(block_event(trim(tail)) + Seq::<SseEventView>::empty() =~= block_event(
                trim(tail),
            ));
        }
    }
}

/// Decoding a whole text at once and finishing gives the events that [`parse_sse_events`]
/// gives for it, provided the final unterminated block parses the same with and without
/// its surrounding white space (`parse_sse_events` trims every block; `finish` does not
/// trim the final one).
pub proof fn law_decoder_matches_parse(t: Seq<char>)
    requires
        ({
            let (_, st) = decoder_step((Seq::<char>::empty(), false), t);
            let tail = if st.1 {
                st.0.push('\n')
            } else {
                st.0
            };
            trim(tail).len() == 0 || parse_block_spec(tail) == parse_block_spec(trim(tail))
        }),
    ensures
        ({
            let (events, st) = decoder_step((Seq::<char>::empty(), false), t);
            events + finish_spec(st.0, st.1) == events_of_text(normalize(t))
        }),
{
    let (app, held) = push_norm(false, t);
    lemma_normalize_len(t);
    let nl = if held {
        seq!['\n']
    } else {
        Seq::<char>::empty()
    };
    assert(Seq::<char>::empty() + t =~= t);
    assert(Seq::<char>::empty() + app =~= app);
    if held {
        assert(normalize(t) =~= app + nl);
    } else {
        assert(normalize(t) =~= app + nl);
    }
    lemma_events_concat(app, nl);
    lemma_drain_rest(app);
    let (e, r) = drain_spec(app);
    if held {
        assert(r + nl =~= r.push('\n'));
    } else {
        assert(r + nl =~= r);
    }
    lemma_events_tail(r, held);
}

/// Feeding chunks to a decoder and finishing gives the events that [`parse_sse_events`]
/// gives for their concatenation, provided no `\r` flushed by an empty chunk meets a `\n`
/// at the start of the next non-empty chunk (see [`flushed_cr_meets_lf`]) and the final
/// unterminated block parses the same with and without its surrounding white space.
pub proof fn law_incremental_matches_whole(chunks: Seq<Seq<char>>)
    requires
        forall|k: int| !flushed_cr_meets_lf(chunks, k),
        ({
            let (_, st) = decode_chunks(fresh_decoder(), chunks);
            let tail = if st.1 {
                st.0.push('\n')
            } else {
                st.0
            };
            trim(tail).len() == 0 || parse_block_spec(tail) == parse_block_spec(trim(tail))
        }),
    ensures
        ({
            let (events, st) = decode_chunks(fresh_decoder(), chunks);
            events + finish_spec(st.0, st.1) == events_of_text(normalize(concat_all(chunks)))
        }),
{
    let t = concat_all(chunks);
    law_decode_chunks_tracks_whole(chunks);
    let act = decode_chunks(fresh_decoder(), chunks);
    let rf = decoder_step(fresh_decoder(), t);
    if act == rf {
        law_decoder_matches_parse(t);
    } else {
        let e = Seq::<char>::empty();
        let (app, held) = push_norm(false, t);
        lemma_normalize_len(t);
        assert(held);
        assert(normalize(t) =~= app + seq!['\n']);
        assert(e + app =~= app);
        lemma_events_concat(app, seq!['\n']);
        let (er, buf) = drain_spec(app);
        let d = drain_spec(buf + seq!['\n']);
        lemma_events_concat(buf + seq!['\n'], e);
        assert(buf + seq!['\n'] + e =~= buf + seq!['\n']);
        assert(d.1 + e =~= d.1);
        lemma_drain_rest(buf + seq!['\n']);
        lemma_events_tail(d.1, false);
        assert(act == (er + d.0, (d.1, false)));
        assert((er + d.0) + finish_spec(d.1, false) =~= er + (d.0 + block_event(trim(d.1))));
    }
}

/// What a drain leaves is a suffix of the text it drained.
proof fn lemma_drain_suffix(x: Seq<char>)
    ensures
        drain_spec(x).1.len() <= x.len(),
        drain_spec(x).1 == x.skip(x.len() - drain_spec(x).1.len()),
    decreases x.len(),
{
    lemma_first_blank(x);
    if let Some(p) = first_blank(x) {
        let y = x.skip(p + 2);
        assert(drain_spec(x).1 == drain_spec(y).1);
        lemma_drain_suffix(y);
        let r = drain_spec(y).1;
        assert(y.len() == x.len() - (p + 2));
        assert(y.skip(y.len() - r.len()) =~= x.skip(x.len() - r.len()));
    } else {
        assert(x.skip(0) =~= x);
    }
}

/// A stream that ends with a blank line leaves nothing for `finish`: feeding its chunks
/// emits exactly the events that [`parse_sse_events`] gives for the whole text, and
/// finishing afterwards emits none (as long as no `\r` flushed by an empty chunk meets a
/// `\n` at the start of the next non-empty chunk).
pub proof fn law_complete_stream_leaves_nothing(chunks: Seq<Seq<char>>)
    requires
        forall|k: int| !flushed_cr_meets_lf(chunks, k),
        concat_all(chunks).len() > 0,
        concat_all(chunks).last() == '\n',
        normalize(concat_all(chunks)).len() >= 2,
        normalize(concat_all(chunks)).last() == '\n',
        normalize(concat_all(chunks))[normalize(concat_all(chunks)).len() - 2] == '\n',
    ensures
        ({
            let (events, st) = decode_chunks((Seq::<char>::empty(), false), chunks);
            events == events_of_text(normalize(concat_all(chunks))) && finish_spec(st.0, st.1)
                == Seq::<SseEventView>::empty()
        }),
{
    let t = concat_all(chunks);
    let n = normalize(t);
    let e = Seq::<char>::empty();
    law_decode_chunks_tracks_whole(chunks);
    assert(push_norm(false, t).0 =~= n);
    assert(!push_norm(false, t).1);
    assert(e + n =~= n);
    let rest = drain_spec(n).1;
    lemma_drain_rest(n);
    lemma_drain_suffix(n);
    lemma_first_blank(rest);
    if rest.len() >= 2 {
        let j = rest.len() - 2;
        assert(rest[j] == n[n.len() - 2]);
        assert(rest[j + 1] == n[n.len() - 1]);
        assert(false);
    }
    if rest.len() == 1 {
        assert(rest[0] == n.last());
        assert(is_white_space(rest[0]));
        assert(trim_start(rest.drop_first()) == rest.drop_first());
        assert(trim_start(rest).len() == 0);
    } else {
        assert(trim_start(rest).len() == 0);
    }
    assert(trim(rest).len() == 0);
    law_decoder_matches_parse(t);
    let (events, st) = decode_chunks((e, false), chunks);
    assert(finish_spec(st.0, st.1) =~= Seq::<SseEventView>::empty());
    assert(events + Seq::<SseEventView>::empty() =~= events);
}

} // verus!
