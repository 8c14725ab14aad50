//! The queue of decoded chunks that feeds streaming playback.
//!
//! Chunks arrive in decode order and are consumed one frame at a time. Only
//! the whole frames of a chunk count: samples after its last whole frame are
//! passed over.

use std::collections::VecDeque;
use vstd::prelude::*;
use vstd::arithmetic::div_mod::{lemma_fundamental_div_mod, lemma_mod_bound};
use crate::math::{lemma_floor_div_unique, lemma_multiple_mod, lemma_sum_of_multiples};

verus! {

/// The whole frames of `chunk` from `offset` on, interleaved.
pub open spec fn chunk_rest(chunk: Seq<i32>, offset: int, channels: int) -> Seq<i32> {
    if 0 <= offset <= chunk.len() {
        chunk.subrange(offset, offset + ((chunk.len() - offset) / channels) * channels)
    } else {
        Seq::empty()
    }
}

/// The whole frames still to be read from a queue of chunks whose first
/// chunk has been read up to `offset`, interleaved and in order.
pub open spec fn queue_flat(chunks: Seq<Vec<i32>>, offset: int, channels: int) -> Seq<i32>
    decreases chunks.len(),
{
    if chunks.len() == 0 {
        Seq::empty()
    } else {
        chunk_rest(chunks[0]@, offset, channels) + queue_flat(
            chunks.subrange(1, chunks.len() as int),
            0,
            channels,
        )
    }
}

/// The queue and its read offset once the chunks at its front that hold
/// less than one frame past the offset have been dropped.
pub open spec fn live_queue(chunks: Seq<Vec<i32>>, offset: int, channels: int) -> (
    Seq<Vec<i32>>,
    int,
)
    decreases chunks.len(),
{
    if chunks.len() == 0 {
        (chunks, 0)
    } else if chunks[0]@.len() - offset < channels {
        live_queue(chunks.subrange(1, chunks.len() as int), 0, channels)
    } else {
        (chunks, offset)
    }
}

/// The read offset lies inside the first chunk, and is zero where the queue
/// is empty.
pub open spec fn queue_ok(chunks: Seq<Vec<i32>>, offset: int) -> bool {
    if chunks.len() == 0 {
        offset == 0
    } else {
        0 <= offset <= chunks[0]@.len()
    }
}

/// The rest of a chunk is a whole number of frames.
pub proof fn lemma_chunk_rest_len(chunk: Seq<i32>, offset: int, channels: int)
    requires
        channels > 0,
    ensures
        chunk_rest(chunk, offset, channels).len() % (channels as nat) == 0,
        0 <= offset <= chunk.len() ==> chunk_rest(chunk, offset, channels).len() == ((chunk.len()
            - offset) / channels) * channels,
{
    if 0 <= offset <= chunk.len() {
        let n = chunk.len() - offset;
        lemma_fundamental_div_mod(n, channels);
        lemma_mod_bound(n, channels);
        let k = n / channels;
        assert(channels * k == k * channels) by (nonlinear_arith);
        assert(0 <= k * channels <= n);
        assert(k >= 0) by (nonlinear_arith)
            requires
                n == k * channels + n % channels,
                n >= 0,
                n % channels < channels,
                channels > 0,
        ;
        lemma_multiple_mod(k, channels);
    } else {
        lemma_multiple_mod(0, channels);
    }
}

/// What is left in the queue is a whole number of frames.
pub proof fn lemma_queue_flat_len(chunks: Seq<Vec<i32>>, offset: int, channels: int)
    requires
        channels > 0,
    ensures
        queue_flat(chunks, offset, channels).len() % (channels as nat) == 0,
    decreases chunks.len(),
{
    if chunks.len() == 0 {
        lemma_multiple_mod(0, channels);
    } else {
        let head = chunk_rest(chunks[0]@, offset, channels);
        let tail = queue_flat(chunks.subrange(1, chunks.len() as int), 0, channels);
        lemma_chunk_rest_len(chunks[0]@, offset, channels);
        lemma_queue_flat_len(chunks.subrange(1, chunks.len() as int), 0, channels);
        lemma_sum_of_multiples(head.len() as int, tail.len() as int, channels);
    }
}

/// A chunk added at the back of the queue adds its whole frames at the end
/// of what is left to read.
pub proof fn lemma_queue_flat_push(
    chunks: Seq<Vec<i32>>,
    offset: int,
    channels: int,
    chunk: Vec<i32>,
)
    requires
        queue_ok(chunks, offset),
    ensures
        queue_flat(chunks.push(chunk), offset, channels) == queue_flat(chunks, offset, channels)
            + chunk_rest(chunk@, 0, channels),
        queue_ok(chunks.push(chunk), offset),
    decreases chunks.len(),
{
    let pushed = chunks.push(chunk);
    if chunks.len() == 0 {
        assert(pushed.subrange(1, pushed.len() as int) =~= Seq::<Vec<i32>>::empty());
        assert(queue_flat(pushed.subrange(1, pushed.len() as int), 0, channels)
            =~= Seq::<i32>::empty());
        assert(queue_flat(pushed, offset, channels) =~= chunk_rest(chunk@, 0, channels));
        assert(queue_flat(chunks, offset, channels) + chunk_rest(chunk@, 0, channels)
            =~= chunk_rest(chunk@, 0, channels));
    } else {
        let rest = chunks.subrange(1, chunks.len() as int);
        assert(pushed.subrange(1, pushed.len() as int) =~= rest.push(chunk));
        assert(pushed[0] == chunks[0]);
        lemma_queue_flat_push(rest, 0, channels, chunk);
        assert(queue_flat(pushed, offset, channels) =~= queue_flat(chunks, offset, channels)
            + chunk_rest(chunk@, 0, channels));
    }
}

/// Past its first whole frame, the rest of a chunk is that frame followed by
/// the rest from the next frame on.
pub proof fn lemma_chunk_rest_split(chunk: Seq<i32>, offset: int, channels: int)
    requires
        channels > 0,
        0 <= offset,
        offset + channels <= chunk.len(),
    ensures
        chunk_rest(chunk, offset, channels) == chunk.subrange(offset, offset + channels)
            + chunk_rest(chunk, offset + channels, channels),
{
    let n = chunk.len() - offset;
    lemma_fundamental_div_mod(n, channels);
    lemma_mod_bound(n, channels);
    let k = (n - channels) / channels;
    lemma_fundamental_div_mod(n - channels, channels);
    lemma_mod_bound(n - channels, channels);
    assert(channels * k == k * channels) by (nonlinear_arith);
    assert((k + 1) * channels == k * channels + channels) by (nonlinear_arith);
    assert((k + 1 + 1) * channels == k * channels + channels + channels) by (nonlinear_arith);
    lemma_floor_div_unique(n, channels, k + 1);
    assert(chunk_rest(chunk, offset, channels) =~= chunk.subrange(offset, offset + channels)
        + chunk_rest(chunk, offset + channels, channels));
}

/// With less than one frame left, the rest of a chunk is empty.
pub proof fn lemma_chunk_rest_empty(chunk: Seq<i32>, offset: int, channels: int)
    requires
        channels > 0,
        0 <= offset <= chunk.len(),
        chunk.len() - offset < channels,
    ensures
        chunk_rest(chunk, offset, channels) == Seq::<i32>::empty(),
{
    let n = chunk.len() - offset;
    assert(0 * channels <= n < (0 + 1) * channels) by (nonlinear_arith)
        requires
            0 <= n < channels,
    ;
    lemma_floor_div_unique(n, channels, 0);
    assert(chunk_rest(chunk, offset, channels) =~= Seq::<i32>::empty());
}

/// Reads the next whole frame of the queue into `target`.
///
/// Chunks at the front that hold less than one frame past the read offset
/// are dropped first. The frame is read from the chunk then at the front,
/// which stays there with the offset moved past the frame while anything is
/// left of it, and is dropped, with the offset back at zero, once it is used
/// up.
///
/// Returns `false`, with the queue emptied and `target` untouched, where no
/// whole frame is left.
pub fn read_frame(
    pending: &mut VecDeque<Vec<i32>>,
    chunk_offset: &mut usize,
    channels: usize,
    target: &mut Vec<i32>,
) -> (ok: bool)
    requires
        channels > 0,
        queue_ok(old(pending)@, *old(chunk_offset) as int),
        old(target)@.len() == channels,
    ensures
        queue_ok(final(pending)@, *final(chunk_offset) as int),
        final(target)@.len() == channels,
        ok == (queue_flat(old(pending)@, *old(chunk_offset) as int, channels as int).len() > 0),
        ok ==> {
            let q = queue_flat(old(pending)@, *old(chunk_offset) as int, channels as int);
            &&& q.len() >= channels
            &&& final(target)@ == q.subrange(0, channels as int)
            &&& queue_flat(final(pending)@, *final(chunk_offset) as int, channels as int)
                == q.subrange(channels as int, q.len() as int)
        },
        !ok ==> {
            &&& final(target)@ == old(target)@
            &&& final(pending)@.len() == 0
            &&& *final(chunk_offset) == 0
        },
        ({
            let live = live_queue(old(pending)@, *old(chunk_offset) as int, channels as int);
            let chunks = live.0;
            let at = live.1;
            &&& ok == (chunks.len() > 0)
            &&& ok ==> {
                &&& final(target)@ == chunks[0]@.subrange(at, at + channels)
                &&& if at + channels >= chunks[0]@.len() {
                    &&& final(pending)@ == chunks.subrange(1, chunks.len() as int)
                    &&& *final(chunk_offset) == 0
                } else {
                    &&& final(pending)@ == chunks
                    &&& *final(chunk_offset) == at + channels
                }
            }
        }),
{
    let ghost q = queue_flat(pending@, *chunk_offset as int, channels as int);
    let ghost live = live_queue(pending@, *chunk_offset as int, channels as int);
    while pending.len() > 0
        invariant
            channels > 0,
            queue_ok(pending@, *chunk_offset as int),
            queue_flat(pending@, *chunk_offset as int, channels as int) == q,
            q == queue_flat(old(pending)@, *old(chunk_offset) as int, channels as int),
            live_queue(pending@, *chunk_offset as int, channels as int) == live,
            live == live_queue(old(pending)@, *old(chunk_offset) as int, channels as int),
            target@ == old(target)@,
            target@.len() == channels,
        decreases pending.len(),
    {
        let ghost chunks = pending@;
        let ghost rest = chunks.subrange(1, chunks.len() as int);
        let offset: usize = *chunk_offset;
        let available: usize = pending[0].len() - offset;
        if available < channels {
            proof {
                lemma_chunk_rest_empty(chunks[0]@, offset as int, channels as int);
                assert(q =~= queue_flat(rest, 0, channels as int));
            }
            pending.pop_front();
            *chunk_offset = 0;
        } else {
            let mut c: usize = 0;
            while c < channels
                invariant
                    c <= channels,
                    pending@ == chunks,
                    chunks.len() > 0,
                    offset + channels <= chunks[0]@.len() <= usize::MAX,
                    target@.len() == channels,
                    forall|j: int| 0 <= j < c ==> target@[j] == chunks[0]@[offset + j],
                decreases channels - c,
            {
                let x: i32 = pending[0][offset + c];
                target[c] = x;
                c = c + 1;
            }
            proof {
                lemma_chunk_rest_split(chunks[0]@, offset as int, channels as int);
                let frame = chunks[0]@.subrange(offset as int, offset + channels);
                let after = chunk_rest(chunks[0]@, offset + channels, channels as int);
                let tail = queue_flat(rest, 0, channels as int);
                assert(target@ =~= frame);
                assert(q =~= frame + (after + tail));
                assert(q.subrange(0, channels as int) =~= frame);
                assert(q.subrange(channels as int, q.len() as int) =~= after + tail);
                if offset + channels >= chunks[0]@.len() {
                    lemma_chunk_rest_empty(chunks[0]@, offset + channels, channels as int);
                    assert(after + tail =~= tail);
                }
            }
            *chunk_offset = offset + channels;
            if *chunk_offset >= pending[0].len() {
                pending.pop_front();
                *chunk_offset = 0;
                assert(pending@ =~= rest);
            }
            proof {
                let after = chunk_rest(chunks[0]@, offset + channels, channels as int);
                let tail = queue_flat(rest, 0, channels as int);
                assert(queue_flat(pending@, *chunk_offset as int, channels as int) =~= after
                    + tail);
            }
            return true;
        }
    }
    proof {
        assert(q =~= Seq::<i32>::empty());
    }
    false
}

} // verus!
