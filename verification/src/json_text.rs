//! The compact JSON text of a [`Json`] value: no whitespace, strings quoted with `"` and `\`
//! escaped, the common control characters as `\b \f \n \r \t` and the others as `\u00xx`.

use vstd::prelude::*;
use crate::json::{
    entries_size, entries_view, items_size, items_view, json_view, jsize, lemma_entries_size_elem,
    lemma_entries_view, lemma_items_size_elem, lemma_items_view, Json, JsonView,
};
use crate::text::{chars_of, push_char};

verus! {

/// The lower-case hexadecimal digit of `d` (below 16).
pub open spec fn lower_hex(d: nat) -> char {
    if d < 10 {
        (48 + d) as char
    } else {
        (87 + d) as char
    }
}

/// How one character of a string is written inside its quotes.
pub open spec fn escape_char(c: char) -> Seq<char> {
    if c == '"' {
        seq!['\\', '"']
    } else if c == '\\' {
        seq!['\\', '\\']
    } else if c == '\n' {
        seq!['\\', 'n']
    } else if c == '\r' {
        seq!['\\', 'r']
    } else if c == '\t' {
        seq!['\\', 't']
    } else if c == '\x08' {
        seq!['\\', 'b']
    } else if c == '\x0c' {
        seq!['\\', 'f']
    } else if (c as u32) < 32 {
        seq!['\\', 'u', '0', '0', lower_hex((c as u32 / 16) as nat), lower_hex((c as u32 % 16) as nat)]
    } else {
        seq![c]
    }
}

/// The escaped characters of a string, in order.
pub open spec fn escape_text(s: Seq<char>) -> Seq<char>
    decreases s.len(),
{
    if s.len() == 0 {
        Seq::empty()
    } else {
        escape_text(s.drop_last()) + escape_char(s.last())
    }
}

/// A string as a JSON string literal.
pub open spec fn quoted(s: Seq<char>) -> Seq<char> {
    seq!['"'] + escape_text(s) + seq!['"']
}

/// The compact JSON text of a value.
pub open spec fn json_text(v: JsonView) -> Seq<char>
    decreases v,
{
    match v {
        JsonView::Null => seq!['n', 'u', 'l', 'l'],
        JsonView::Bool(b) => if b {
            seq!['t', 'r', 'u', 'e']
        } else {
            seq!['f', 'a', 'l', 's', 'e']
        },
        JsonView::Number(n) => n,
        JsonView::Str(s) => quoted(s),
        JsonView::Array(items) => seq!['['] + items_text(items) + seq![']'],
        JsonView::Object(e) => seq!['{'] + entries_text(e) + seq!['}'],
    }
}

/// Array items as JSON text, separated by commas.
pub open spec fn items_text(s: Seq<JsonView>) -> Seq<char>
    decreases s,
{
    if s.len() == 0 {
        Seq::empty()
    } else if s.len() == 1 {
        json_text(s[0])
    } else {
        items_text(s.drop_last()) + seq![','] + json_text(s.last())
    }
}

/// Object entries as JSON text (`"key":value`), separated by commas.
pub open spec fn entries_text(e: Seq<(Seq<char>, JsonView)>) -> Seq<char>
    decreases e,
{
    if e.len() == 0 {
        Seq::empty()
    } else if e.len() == 1 {
        quoted(e[0].0) + seq![':'] + json_text(e[0].1)
    } else {
        entries_text(e.drop_last()) + seq![','] + quoted(e.last().0) + seq![':'] + json_text(
            e.last().1,
        )
    }
}

fn lower_hex_char(d: u32) -> (c: char)
    requires
        d < 16,
    ensures
        c == lower_hex(d as nat),
{
    if d < 10 {
        ((48 + d) as u8) as char
    } else {
        ((87 + d) as u8) as char
    }
}

/// Appends how `c` is written inside a string literal.
fn push_escaped_char(out: &mut String, c: char)
    ensures
        final(out)@ == old(out)@ + escape_char(c),
{
    let ghost start = out@;
    if c == '"' {
        push_char(out, '\\');
        push_char(out, '"');
    } else if c == '\\' {
        push_char(out, '\\');
        push_char(out, '\\');
    } else if c == '\n' {
        push_char(out, '\\');
        push_char(out, 'n');
    } else if c == '\r' {
        push_char(out, '\\');
        push_char(out, 'r');
    } else if c == '\t' {
        push_char(out, '\\');
        push_char(out, 't');
    } else if c == '\x08' {
        push_char(out, '\\');
        push_char(out, 'b');
    } else if c == '\x0c' {
        push_char(out, '\\');
        push_char(out, 'f');
    } else if (c as u32) < 32 {
        let n = c as u32;
        push_char(out, '\\');
        push_char(out, 'u');
        push_char(out, '0');
        push_char(out, '0');
        push_char(out, lower_hex_char(n / 16));
        push_char(out, lower_hex_char(n % 16));
    } else {
        push_char(out, c);
    }
    assert(out@ =~= start + escape_char(c));
}

/// Appends `s` as a JSON string literal.
pub fn push_quoted(out: &mut String, s: &str)
    ensures
        final(out)@ == old(out)@ + quoted(s@),
{
    let ghost start = out@;
    let cs = chars_of(s);
    push_char(out, '"');
    let mut i: usize = 0;
    while i < cs.len()
        invariant
            i <= cs@.len(),
            cs@ == s@,
            out@ == start + seq!['"'] + escape_text(cs@.take(i as int)),
        decreases cs@.len() - i,
    {
        push_escaped_char(out, cs[i]);
        assert(cs@.take(i + 1).drop_last() =~= cs@.take(i as int));
        i = i + 1;
    }
    assert(cs@.take(cs@.len() as int) =~= cs@);
    push_char(out, '"');
    assert(out@ =~= start + quoted(s@));
}

/// Appends the compact JSON text of `v`.
pub fn push_json_text(out: &mut String, v: &Json)
    ensures
        final(out)@ == old(out)@ + json_text(json_view(*v)),
    decreases jsize(json_view(*v)),
{
    let ghost start = out@;
    match v {
        Json::Null => {
            push_char(out, 'n');
            push_char(out, 'u');
            push_char(out, 'l');
            push_char(out, 'l');
        },
        Json::Bool(b) => {
            if *b {
                push_char(out, 't');
                push_char(out, 'r');
                push_char(out, 'u');
                push_char(out, 'e');
            } else {
                push_char(out, 'f');
                push_char(out, 'a');
                push_char(out, 'l');
                push_char(out, 's');
                push_char(out, 'e');
            }
        },
        Json::Number(n) => {
            crate::text::push_str(out, n.as_str());
        },
        Json::Str(s) => {
            push_quoted(out, s.as_str());
        },
        Json::Array(items) => {
            let ghost s = items_view(items@);
            proof {
                lemma_items_view(items@);
            }
            push_char(out, '[');
            let mut i: usize = 0;
            while i < items.len()
                invariant
                    *v == Json::Array(*items),
                    i <= items@.len(),
                    s == items_view(items@),
                    s.len() == items@.len(),
                    forall|j: int| 0 <= j < items@.len() ==> #[trigger] s[j] == json_view(items@[j]),
                    jsize(json_view(*v)) == 1 + items_size(s),
                    out@ == start + seq!['['] + items_text(s.take(i as int)),
                decreases items@.len() - i,
            {
                proof {
                    lemma_items_size_elem(s, i as int);
                }
                if i > 0 {
                    push_char(out, ',');
                }
                push_json_text(out, &items[i]);
                proof {
                    let t = s.take(i + 1);
                    assert(t.drop_last() =~= s.take(i as int));
                    assert(t.last() == s[i as int]);
                    if i == 0 {
                        assert(t.len() == 1 && t[0] == s[0]);
                    }
                }
                i = i + 1;
            }
            assert(s.take(items@.len() as int) =~= s);
            push_char(out, ']');
        },
        Json::Object(entries) => {
            let ghost e = entries_view(entries@);
            proof {
                lemma_entries_view(entries@);
            }
            push_char(out, '{');
            let mut i: usize = 0;
            while i < entries.len()
                invariant
                    *v == Json::Object(*entries),
                    i <= entries@.len(),
                    e == entries_view(entries@),
                    e.len() == entries@.len(),
                    forall|j: int|
                        0 <= j < entries@.len() ==> #[trigger] e[j] == (
                            entries@[j].0@,
                            json_view(entries@[j].1),
                        ),
                    jsize(json_view(*v)) == 1 + entries_size(e),
                    out@ == start + seq!['{'] + entries_text(e.take(i as int)),
                decreases entries@.len() - i,
            {
                proof {
                    lemma_entries_size_elem(e, i as int);
                }
                if i > 0 {
                    push_char(out, ',');
                }
                push_quoted(out, entries[i].0.as_str());
                push_char(out, ':');
                push_json_text(out, &entries[i].1);
                proof {
                    let t = e.take(i + 1);
                    assert(t.drop_last() =~= e.take(i as int));
                    assert(t.last() == e[i as int]);
                    if i == 0 {
                        assert(t.len() == 1 && t[0] == e[0]);
                    }
                }
                i = i + 1;
            }
            assert(e.take(entries@.len() as int) =~= e);
            push_char(out, '}');
        },
    }
    assert(out@ =~= start + json_text(json_view(*v)));
}

/// The compact JSON text of `v`.
pub fn to_json_text(v: &Json) -> (r: String)
    ensures
        r@ == json_text(json_view(*v)),
{
    let mut r = String::new();
    push_json_text(&mut r, v);
    assert(r@ =~= json_text(json_view(*v)));
    r
}

} // verus!
