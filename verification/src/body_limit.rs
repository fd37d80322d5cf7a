//! Response size limits on streaming bodies.
//!
//! The application layer polls the transport's byte stream; the decisions of how many
//! bytes may pass, when the limit error comes and that nothing follows it are made here.

use vstd::prelude::*;
use crate::error::Error;

verus! {

/// The error for a body that passed `limit` bytes.
pub open spec fn too_large(limit: u64) -> Error {
    Error::BodyTooLarge { limit }
}

/// The limit state of a streaming body: how many bytes have passed, and whether the limit
/// error was already yielded (after which the stream ends).
pub struct MaxBytes {
    limit: u64,
    read: u64,
    limit_hit: bool,
}

/// What happens to a chunk of a limited stream.
pub enum ChunkVerdict {
    /// The chunk passes.
    Pass,
    /// The chunk would pass the limit: it is dropped and this error is yielded instead.
    TooLarge(Error),
}

impl MaxBytes {
    /// The limit in bytes.
    pub closed spec fn spec_limit(self) -> u64 {
        self.limit
    }

    /// The number of bytes that have passed.
    pub closed spec fn spec_read(self) -> u64 {
        self.read
    }

    /// Whether the limit error was yielded.
    pub closed spec fn spec_limit_hit(self) -> bool {
        self.limit_hit
    }

    /// The invariant: no more than `limit` bytes ever pass.
    pub closed spec fn wf(self) -> bool {
        self.read <= self.limit
    }

    /// A fresh limit of `limit` bytes.
    pub fn new(limit: u64) -> (r: MaxBytes)
        ensures
            r.wf(),
            r.spec_limit() == limit,
            r.spec_read() == 0,
            !r.spec_limit_hit(),
    {
        MaxBytes { limit, read: 0, limit_hit: false }
    }

    /// Whether the stream has ended because the limit error was yielded; then the inner
    /// stream is not polled again.
    pub fn is_finished(&self) -> (b: bool)
        ensures
            b == self.spec_limit_hit(),
    {
        self.limit_hit
    }

    /// Decides on a chunk of `chunk_len` bytes: it passes when the bytes read so far and the
    /// chunk stay within the limit (counting saturates at `u64::MAX`); otherwise the limit
    /// error comes and the stream ends.
    pub fn on_chunk(&mut self, chunk_len: u64) -> (r: ChunkVerdict)
        requires
            old(self).wf(),
        ensures
            final(self).wf(),
            final(self).spec_limit() == old(self).spec_limit(),
            if old(self).spec_read() + chunk_len <= old(self).spec_limit() {
                r is Pass && final(self).spec_read() == old(self).spec_read() + chunk_len
                    && final(self).spec_limit_hit() == old(self).spec_limit_hit()
            } else {
                r == ChunkVerdict::TooLarge(too_large(old(self).spec_limit()))
                    && final(self).spec_read() == old(self).spec_read()
                    && final(self).spec_limit_hit()
            },
    {
        if chunk_len > self.limit - self.read {
            self.limit_hit = true;
            return ChunkVerdict::TooLarge(Error::BodyTooLarge { limit: self.limit });
        }
        self.read = self.read + chunk_len;
        ChunkVerdict::Pass
    }
}

/// The total length of a sequence of chunks.
pub open spec fn total_len(lens: Seq<u64>) -> nat
    decreases lens.len(),
{
    if lens.len() == 0 {
        0
    } else {
        (total_len(lens.drop_last()) + lens.last()) as nat
    }
}

/// The bytes that pass a limited stream whose chunks have the lengths `lens`: chunks pass
/// while the running total stays within the limit; at the first chunk that would pass it
/// the limit error comes, and nothing after it.
pub open spec fn passed_prefix(limit: u64, lens: Seq<u64>) -> Seq<u64>
    decreases lens.len(),
{
    if lens.len() == 0 {
        lens
    } else {
        let before = passed_prefix(limit, lens.drop_last());
        if before.len() == lens.len() - 1 && total_len(before) + lens.last() <= limit {
            before.push(lens.last())
        } else {
            before
        }
    }
}

proof fn lemma_passed_prefix(limit: u64, lens: Seq<u64>)
    ensures
        total_len(passed_prefix(limit, lens)) <= limit,
        passed_prefix(limit, lens).len() <= lens.len(),
        passed_prefix(limit, lens) == lens.take(passed_prefix(limit, lens).len() as int),
    decreases lens.len(),
{
    if lens.len() > 0 {
        lemma_passed_prefix(limit, lens.drop_last());
        let before = passed_prefix(limit, lens.drop_last());
        if before.len() == lens.len() - 1 && total_len(before) + lens.last() <= limit {
            assert(before.push(lens.last()).drop_last() =~= before);
            assert(before =~= lens.drop_last());
            assert(before.push(lens.last()) =~= lens);
            assert(lens.take(lens.len() as int) =~= lens);
        } else {
            assert(lens.drop_last().take(before.len() as int) =~= lens.take(before.len() as int));
        }
    }
}

/// A limited stream never lets more than `limit` bytes through, whatever its chunks: what
/// passes is a prefix of the chunks whose total is within the limit.
pub proof fn law_limit_never_exceeded(limit: u64, lens: Seq<u64>)
    ensures
        total_len(passed_prefix(limit, lens)) <= limit,
        passed_prefix(limit, lens) == lens.take(passed_prefix(limit, lens).len() as int),
{
    lemma_passed_prefix(limit, lens);
}

/// Appends a chunk to a buffered body within an optional size limit: the buffer grows by
/// the chunk, unless its length would overflow (`Config`) or pass the limit
/// (`BodyTooLarge`), in which case the buffer is left as it was.
pub fn accumulate_chunk(buf: &mut Vec<u8>, chunk: &[u8], limit: Option<u64>) -> (r: Result<
    (),
    Error,
>)
    ensures
        match r {
            Ok(_) => final(buf)@ == old(buf)@ + chunk@ && match limit {
                Some(l) => final(buf)@.len() <= l,
                None => true,
            },
            Err(e) => *final(buf) == *old(buf) && if old(buf)@.len() + chunk@.len() > usize::MAX {
                e matches Error::Config(m) && m@ == "response body length overflow"@
            } else {
                limit matches Some(l) && old(buf)@.len() + chunk@.len() > l && e == too_large(l)
            },
        },
        r is Ok <==> (old(buf)@.len() + chunk@.len() <= usize::MAX && match limit {
            Some(l) => old(buf)@.len() + chunk@.len() <= l,
            None => true,
        }),
{
    let n = buf.len();
    if chunk.len() > usize::MAX - n {
        let mut m = String::new();
        crate::text::push_str(&mut m, "response body length overflow");
        return Err(Error::Config(m));
    }
    let new_len = n + chunk.len();
    if let Some(l) = limit {
        if new_len as u64 > l {
            return Err(Error::BodyTooLarge { limit: l });
        }
    }
    let ghost b0 = buf@;
    let mut i: usize = 0;
    while i < chunk.len()
        invariant
            i <= chunk@.len(),
            buf@ == b0 + chunk@.take(i as int),
        decreases chunk@.len() - i,
    {
        buf.push(chunk[i]);
        assert(chunk@.take(i + 1) == chunk@.take(i as int).push(chunk@[i as int]));
        assert(buf@ =~= b0 + chunk@.take(i + 1));
        i = i + 1;
    }
    assert(chunk@.take(chunk@.len() as int) =~= chunk@);
    Ok(())
}

/// Counts the bytes written to a file: `written + chunk_len`, unless the count overflows
/// (`Config`) or passes the optional limit (`BodyTooLarge`).
pub fn count_written(written: u64, chunk_len: u64, limit: Option<u64>) -> (r: Result<u64, Error>)
    ensures
        match r {
            Ok(n) => n == written + chunk_len && match limit {
                Some(l) => n <= l,
                None => true,
            },
            Err(e) => if written + chunk_len > u64::MAX {
                e matches Error::Config(m) && m@ == "response body length overflow"@
            } else {
                limit matches Some(l) && written + chunk_len > l && e == too_large(l)
            },
        },
{
    if chunk_len > u64::MAX - written {
        let mut m = String::new();
        crate::text::push_str(&mut m, "response body length overflow");
        return Err(Error::Config(m));
    }
    let n = written + chunk_len;
    if let Some(l) = limit {
        if n > l {
            return Err(Error::BodyTooLarge { limit: l });
        }
    }
    Ok(n)
}

} // verus!
