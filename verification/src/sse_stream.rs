//! The decisions of an SSE event stream over a response body: what each body chunk, or the
//! end of the body, yields to the reader.
//!
//! The application layer polls the body and hands each outcome to [`SseEventState`]; the
//! state decodes events, queues them, and says which item the stream produces next.

use std::collections::VecDeque;
use vstd::prelude::*;
use vstd::utf8::{decode_utf8, valid_utf8};
use crate::error::Error;
use crate::sse::{
    decode_chunks, decoder_step, events_view, finish_spec, invalid_chunk_message, SseDecoder, SseEvent,
    SseEventView,
};

verus! {

/// What the stream does with the text of an accepted chunk, from decoder state `dec` and
/// queue `pending`: the event it yields (the oldest queued one after decoding, if any), the
/// next decoder state, and the queue afterwards.
pub open spec fn accept_chunk(dec: (Seq<char>, bool), pending: Seq<SseEventView>, text: Seq<char>) -> (
    Option<SseEventView>,
    (Seq<char>, bool),
    Seq<SseEventView>,
) {
    let (evs, next) = decoder_step(dec, text);
    let queued = pending + evs;
    if queued.len() > 0 {
        (Some(queued[0]), next, queued.drop_first())
    } else {
        (None, next, queued)
    }
}

/// What the stream does at the end of the body: the event it yields (the oldest queued one
/// after finishing the decoder, if any) and the queue afterwards.
pub open spec fn end_of_body(dec: (Seq<char>, bool), pending: Seq<SseEventView>) -> (
    Option<SseEventView>,
    Seq<SseEventView>,
) {
    let queued = pending + finish_spec(dec.0, dec.1);
    if queued.len() > 0 {
        (Some(queued[0]), queued.drop_first())
    } else {
        (None, queued)
    }
}

/// The event an optional event contributes to what the stream has yielded.
pub open spec fn yielded_seq(e: Option<SseEventView>) -> Seq<SseEventView> {
    match e {
        Some(x) => seq![x],
        None => Seq::<SseEventView>::empty(),
    }
}

/// A fresh stream fed the accepted chunk texts `texts`: the events it has yielded, its
/// decoder state, and its queue.
pub open spec fn stream_run(texts: Seq<Seq<char>>) -> (
    Seq<SseEventView>,
    (Seq<char>, bool),
    Seq<SseEventView>,
)
    decreases texts.len(),
{
    if texts.len() == 0 {
        (Seq::<SseEventView>::empty(), (Seq::<char>::empty(), false), Seq::<SseEventView>::empty())
    } else {
        let (y, dec, pending) = stream_run(texts.drop_last());
        let (e, dec2, pending2) = accept_chunk(dec, pending, texts.last());
        (y + yielded_seq(e), dec2, pending2)
    }
}

/// The stream yields what a decoder fed the same chunks emits, in order: after any number
/// of accepted chunks, the events yielded so far followed by those still queued are the
/// events the decoder emitted, and the stream's decoder is in the decoder's state. At the
/// end of the body the same holds with the decoder's `finish` appended.
pub proof fn law_stream_matches_decoder(texts: Seq<Seq<char>>)
    ensures
        ({
            let (y, dec, pending) = stream_run(texts);
            let (evs, st) = decode_chunks((Seq::<char>::empty(), false), texts);
            let (e, rest) = end_of_body(dec, pending);
            &&& y + pending == evs
            &&& dec == st
            &&& y + yielded_seq(e) + rest == evs + finish_spec(st.0, st.1)
        }),
    decreases texts.len(),
{
    if texts.len() > 0 {
        law_stream_matches_decoder(texts.drop_last());
        let (y, dec, pending) = stream_run(texts.drop_last());
        let (evs, next) = decoder_step(dec, texts.last());
        let queued = pending + evs;
        if queued.len() > 0 {
            assert(seq![queued[0]] + queued.drop_first() =~= queued);
            assert(y + seq![queued[0]] + queued.drop_first() =~= y + pending + evs);
        } else {
            assert(y + Seq::<SseEventView>::empty() + queued =~= y + pending + evs);
        }
    } else {
        assert(Seq::<SseEventView>::empty() + Seq::<SseEventView>::empty() =~= Seq::<SseEventView>::empty());
    }
    let (y, dec, pending) = stream_run(texts);
    let queued = pending + finish_spec(dec.0, dec.1);
    if queued.len() > 0 {
        assert(seq![queued[0]] + queued.drop_first() =~= queued);
        assert(y + seq![queued[0]] + queued.drop_first() =~= y + pending + finish_spec(dec.0, dec.1));
    } else {
        assert(y + Seq::<SseEventView>::empty() + queued =~= y + pending + finish_spec(dec.0, dec.1));
    }
}

/// Decoding state of an SSE event stream: the decoder, the events decoded but not yet
/// yielded, the optional body limit and the bytes counted against it, and whether the body
/// has ended.
pub struct SseEventState {
    decoder: SseDecoder,
    pending: VecDeque<SseEvent>,
    max_bytes: Option<u64>,
    accumulated: u64,
    finished: bool,
}

impl SseEventState {
    /// The decoder's state.
    pub closed spec fn decoder_view(&self) -> (Seq<char>, bool) {
        self.decoder@
    }

    /// The events decoded and not yet yielded, oldest first.
    pub closed spec fn pending_view(&self) -> Seq<SseEventView> {
        events_view(self.pending@)
    }

    /// The body limit in bytes, if any.
    pub closed spec fn limit(&self) -> Option<u64> {
        self.max_bytes
    }

    /// The bytes counted against the limit so far.
    pub closed spec fn counted(&self) -> u64 {
        self.accumulated
    }

    /// Whether the body has ended.
    pub closed spec fn ended(&self) -> bool {
        self.finished
    }

    /// A fresh state for a body with an optional limit in bytes.
    pub fn new(max_bytes: Option<u64>) -> (r: SseEventState)
        ensures
            r.decoder_view() == (Seq::<char>::empty(), false),
            r.pending_view() == Seq::<SseEventView>::empty(),
            r.limit() == max_bytes,
            r.counted() == 0,
            !r.ended(),
    {
        let pending: VecDeque<SseEvent> = VecDeque::new();
        assert(events_view(pending@) =~= Seq::<SseEventView>::empty());
        SseEventState {
            decoder: SseDecoder::new(),
            pending,
            max_bytes,
            accumulated: 0,
            finished: false,
        }
    }

    /// What the stream yields before it reads the body again: the oldest queued event;
    /// otherwise the end of the stream (`Some(None)`) once the body has ended; otherwise
    /// nothing (`None`), and the body must be read.
    pub fn poll_queued(&mut self) -> (r: Option<Option<SseEvent>>)
        ensures
            final(self).decoder_view() == old(self).decoder_view(),
            final(self).limit() == old(self).limit(),
            final(self).counted() == old(self).counted(),
            final(self).ended() == old(self).ended(),
            old(self).pending_view().len() > 0 ==> (r matches Some(Some(ev)) && ev@
                == old(self).pending_view()[0] && final(self).pending_view()
                == old(self).pending_view().drop_first()),
            old(self).pending_view().len() == 0 ==> final(self).pending_view()
                == old(self).pending_view() && (if old(self).ended() {
                r == Some(None::<SseEvent>)
            } else {
                r is None
            }),
    {
        let first = self.pop_pending();
        match first {
            Some(ev) => Some(Some(ev)),
            None => {
                if self.finished {
                    Some(None)
                } else {
                    None
                }
            },
        }
    }

    /// Takes the oldest queued event.
    fn pop_pending(&mut self) -> (r: Option<SseEvent>)
        ensures
            final(self).decoder_view() == old(self).decoder_view(),
            final(self).limit() == old(self).limit(),
            final(self).counted() == old(self).counted(),
            final(self).ended() == old(self).ended(),
            old(self).pending_view().len() > 0 ==> (r matches Some(ev) && ev@
                == old(self).pending_view()[0] && final(self).pending_view()
                == old(self).pending_view().drop_first()),
            old(self).pending_view().len() == 0 ==> r is None && final(self).pending_view()
                == old(self).pending_view(),
    {
        let ghost before = self.pending@;
        let r = self.pending.pop_front();
        proof {
            if before.len() > 0 {
                assert(events_view(self.pending@) =~= events_view(before).drop_first());
            }
        }
        r
    }

    /// Queues decoded events behind those already waiting.
    fn queue(&mut self, events: Vec<SseEvent>)
        ensures
            final(self).decoder_view() == old(self).decoder_view(),
            final(self).limit() == old(self).limit(),
            final(self).counted() == old(self).counted(),
            final(self).ended() == old(self).ended(),
            final(self).pending_view() == old(self).pending_view() + events_view(events@),
    {
        let ghost start = self.pending@;
        let ghost all = events@;
        let mut rest = events;
        while rest.len() > 0
            invariant
                self.pending@ + rest@ == start + all,
                self.decoder@ == old(self).decoder@,
                self.max_bytes == old(self).max_bytes,
                self.accumulated == old(self).accumulated,
                self.finished == old(self).finished,
            decreases rest@.len(),
        {
            let ghost before = rest@;
            let ev = rest.remove(0);
            self.pending.push_back(ev);
            assert(self.pending@ + rest@ =~= start + all) by {
                assert(before =~= seq![ev] + rest@);
            }
        }
        assert(self.pending@ =~= start + all);
        assert(events_view(start + all) =~= events_view(start) + events_view(all));
    }

    /// Whether a chunk of `chunk_len` bytes can be counted against the limit without the
    /// count overflowing (always, without a limit).
    pub fn fits(&self, chunk_len: usize) -> (b: bool)
        ensures
            b == (self.limit() is Some ==> self.counted() + chunk_len <= u64::MAX),
    {
        match self.max_bytes {
            Some(_) => chunk_len as u64 <= u64::MAX - self.accumulated,
            None => true,
        }
    }

    /// Handles one chunk of the body: counts it against the limit, decodes it, queues the
    /// events, and yields the oldest queued event if there is one (`None`: read more).
    ///
    /// Past the limit the stream yields [`Error::BodyTooLarge`]; a chunk that is not UTF-8
    /// yields the decoder's error. In both cases nothing is decoded or queued.
    pub fn on_chunk(&mut self, chunk: &[u8]) -> (r: Option<Result<SseEvent, Error>>)
        requires
            old(self).limit() is Some ==> old(self).counted() + chunk@.len() <= u64::MAX,
        ensures
            final(self).limit() == old(self).limit(),
            final(self).ended() == old(self).ended(),
            ({
                let counted = if old(self).limit() is Some {
                    old(self).counted() + chunk@.len()
                } else {
                    old(self).counted() as int
                };
                final(self).counted() == counted
            }),
            ({
                let over = match old(self).limit() {
                    Some(l) => old(self).counted() + chunk@.len() > l,
                    None => false,
                };
                if over {
                    &&& r == Some(Err::<SseEvent, Error>(Error::BodyTooLarge { limit: old(self).limit()->0 }))
                    &&& final(self).decoder_view() == old(self).decoder_view()
                    &&& final(self).pending_view() == old(self).pending_view()
                } else if !valid_utf8(chunk@) {
                    &&& r matches Some(Err(Error::Config(m))) && m@ == invalid_chunk_message(chunk@)
                    &&& final(self).decoder_view() == old(self).decoder_view()
                    &&& final(self).pending_view() == old(self).pending_view()
                } else {
                    let (e, dec, pending) = accept_chunk(
                        old(self).decoder_view(),
                        old(self).pending_view(),
                        decode_utf8(chunk@),
                    );
                    &&& final(self).decoder_view() == dec
                    &&& final(self).pending_view() == pending
                    &&& match e {
                        Some(x) => r matches Some(Ok(ev)) && ev@ == x,
                        None => r is None,
                    }
                }
            }),
    {
        if let Some(limit) = self.max_bytes {
            self.accumulated = self.accumulated + chunk.len() as u64;
            if self.accumulated > limit {
                return Some(Err(Error::BodyTooLarge { limit }));
            }
        }
        match self.decoder.push_chunk(chunk) {
            Ok(events) => {
                self.queue(events);
                match self.pop_pending() {
                    Some(ev) => Some(Ok(ev)),
                    None => None,
                }
            },
            Err(e) => Some(Err(e)),
        }
    }

    /// Handles the end of the body: marks the stream ended, decodes any trailing block, and
    /// yields the oldest queued event, or the end of the stream (`None`).
    pub fn on_end(&mut self) -> (r: Option<SseEvent>)
        ensures
            final(self).ended(),
            final(self).limit() == old(self).limit(),
            final(self).counted() == old(self).counted(),
            final(self).decoder_view() == (Seq::<char>::empty(), false),
            ({
                let (e, pending) = end_of_body(old(self).decoder_view(), old(self).pending_view());
                &&& final(self).pending_view() == pending
                &&& match e {
                    Some(x) => r matches Some(ev) && ev@ == x,
                    None => r is None,
                }
            }),
    {
        self.finished = true;
        let mut decoder = SseDecoder::new();
        core::mem::swap(&mut decoder, &mut self.decoder);
        let events = decoder.finish();
        self.queue(events);
        self.pop_pending()
    }
}

} // verus!
