//! What the lifecycle hooks see of a response.

use vstd::prelude::*;
use vstd::utf8::{encode_scalar, encode_utf8, decode_utf8, valid_utf8};

verus! {

proof fn lemma_encode_utf8_concat(a: Seq<char>, b: Seq<char>)
    ensures
        encode_utf8(a + b) == encode_utf8(a) + encode_utf8(b),
    decreases a.len(),
{
    if a.len() > 0 {
        assert((a + b).drop_first() =~= a.drop_first() + b);
        assert((a + b)[0] == a[0]);
        lemma_encode_utf8_concat(a.drop_first(), b);
        assert(encode_scalar(a[0] as u32) + (encode_utf8(a.drop_first()) + encode_utf8(b))
            =~= (encode_scalar(a[0] as u32) + encode_utf8(a.drop_first())) + encode_utf8(b));
    } else {
        assert(a + b =~= b);
        assert(encode_utf8(a) + encode_utf8(b) =~= encode_utf8(b));
    }
}

/// The number of UTF-8 bytes of a character.
fn utf8_width(c: char) -> (w: usize)
    ensures
        w == encode_scalar(c as u32).len(),
        1 <= w <= 4,
{
    proof {
        vstd::utf8::char_is_scalar(c);
    }
    let u = c as u32;
    if u <= 0x7f {
        1
    } else if u <= 0x7ff {
        2
    } else if u <= 0xffff {
        3
    } else {
        4
    }
}

/// How many leading characters of `t` fit in `budget` UTF-8 bytes.
pub open spec fn fitting_chars(t: Seq<char>, budget: int) -> nat
    decreases t.len(),
{
    if t.len() == 0 || encode_scalar(t[0] as u32).len() > budget {
        0
    } else {
        1 + fitting_chars(t.drop_first(), budget - encode_scalar(t[0] as u32).len())
    }
}

/// The preview of a response body: nothing without a response, for an empty body or a body
/// that is not UTF-8; else the text when its UTF-8 form fits in `max_bytes`, or the longest
/// prefix of whole characters that fits, followed by `…`.
pub open spec fn preview_of(body: Option<Seq<u8>>, max_bytes: nat) -> Option<Seq<char>> {
    match body {
        None => None,
        Some(b) => if b.len() == 0 || !valid_utf8(b) {
            None
        } else {
            let t = decode_utf8(b);
            if b.len() <= max_bytes {
                Some(t)
            } else {
                Some(t.take(fitting_chars(t, max_bytes as int) as int).push('…'))
            }
        },
    }
}

/// UTF-8 preview of a buffered response body, truncated to `max_bytes` bytes of whole
/// characters (then marked with `…`); non-UTF-8 or empty bodies give `None`.
pub fn response_body_preview(body: Option<&[u8]>, max_bytes: usize) -> (r: Option<String>)
    ensures
        preview_of(
            match body {
                Some(b) => Some(b@),
                None => None,
            },
            max_bytes as nat,
        ) == match r {
            Some(s) => Some(s@),
            None => None,
        },
{
    let bytes = match body {
        Some(b) => b,
        None => return None,
    };
    if bytes.len() == 0 {
        return None;
    }
    let text = match crate::sse::decode_utf8_chunk(bytes) {
        Ok(t) => t,
        Err(_) => return None,
    };
    if bytes.len() <= max_bytes {
        return Some(text);
    }
    let ghost t = text@;
    proof {
        vstd::utf8::decode_utf8_encode_utf8(bytes@);
    }
    let cs = crate::text::chars_of(text.as_str());
    let mut k: usize = 0;
    let mut used: usize = 0;
    assert(t.take(0) =~= Seq::<char>::empty());
    assert(t.skip(0) =~= t);
    while k < cs.len()
        invariant
            cs@ == t,
            body matches Some(b) && b@ == bytes@,
            t == decode_utf8(bytes@),
            valid_utf8(bytes@),
            encode_utf8(t) == bytes@,
            bytes@.len() > max_bytes,
            k <= t.len(),
            used == encode_utf8(t.take(k as int)).len(),
            used <= max_bytes,
            fitting_chars(t, max_bytes as int) == k + fitting_chars(t.skip(k as int), max_bytes - used),
        decreases t.len() - k,
    {
        let w = utf8_width(cs[k]);
        proof {
            assert(t.skip(k as int)[0] == t[k as int]);
            assert(t.skip(k as int).drop_first() =~= t.skip(k + 1));
            assert(t.take(k + 1) =~= t.take(k as int) + seq![t[k as int]]);
            lemma_encode_utf8_concat(t.take(k as int), seq![t[k as int]]);
            let one = seq![t[k as int]];
            assert(one.drop_first() =~= Seq::<char>::empty());
            assert(one[0] == t[k as int]);
            assert(encode_utf8(one) =~= encode_scalar(t[k as int] as u32) + encode_utf8(
                Seq::<char>::empty(),
            ));
            assert(encode_utf8(one) =~= encode_scalar(t[k as int] as u32));
        }
        if w > max_bytes - used {
            let mut out = crate::text::string_of(cs.as_slice(), 0, k);
            crate::text::push_char(&mut out, '…');
            assert(cs@.subrange(0, k as int) =~= t.take(k as int));
            assert(t.skip(k as int).len() > 0);
            assert(fitting_chars(t.skip(k as int), max_bytes - used) == 0);
            assert(out@ =~= t.take(k as int).push('…'));
            return Some(out);
        }
        used = used + w;
        k = k + 1;
    }
    assert(t.take(t.len() as int) =~= t);
    assert(false);
    None
}

} // verus!
