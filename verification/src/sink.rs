//! The two consumers of a filled buffer. Each turns the buffer's valid samples
//! into frames, one chunk at a time, in the byte order of its destination: the
//! network sink big-endian for datagrams, the storage sink little-endian for
//! the append-only file, which also keeps the throughput accounts.

use vstd::prelude::*;
use crate::chunking::{
    chunk_count,
    chunk_end,
    chunk_len,
    chunk_start,
    frames,
    lemma_chunk_count_bounds,
    lemma_chunk_shape,
    next_chunk_len,
};
use crate::codec::{encode, encode_be, encode_le, ByteOrder, SerializationResult};
use crate::error::PipelineError;
use crate::sample_buffer::SampleBuffer;
use crate::throughput::{saturating_sum, ThroughputCounter, ThroughputReport};

verus! {

/// Where the chunk that starts at `offset` ends: its length is counted from
/// `offset`, and nothing is left at or past the fill count.
pub open spec fn next_offset(offset: nat, fill: nat, budget_bytes: nat) -> nat {
    if offset >= fill {
        offset
    } else {
        offset + chunk_len((fill - offset) as nat, budget_bytes)
    }
}

/// Stepping from the start of a chunk arrives at its end, having covered
/// exactly that chunk.
pub proof fn lemma_step_is_chunk(fill: nat, budget_bytes: nat, index: nat)
    requires
        budget_bytes >= 2,
        index < chunk_count(fill, budget_bytes),
    ensures
        next_offset(chunk_start(index, budget_bytes), fill, budget_bytes) == chunk_end(
            index,
            fill,
            budget_bytes,
        ),
{
    lemma_chunk_shape(fill, budget_bytes, index);
}

/// Encodes into `scratch` the chunk of `buffer` that starts at `offset` and
/// returns the offset of the chunk after it. At or past the fill count there
/// is no chunk: the scratch is left empty and the offset is returned as it is.
pub fn encode_chunk(
    order: ByteOrder,
    buffer: &SampleBuffer,
    offset: usize,
    scratch: &mut SerializationResult,
) -> (next: usize)
    requires
        buffer.wf(),
        old(scratch).wf(),
    ensures
        final(scratch).wf(),
        final(scratch).capacity() == old(scratch).capacity(),
        next == next_offset(offset as nat, buffer.len() as nat, old(scratch).capacity()),
        offset <= next,
        offset < buffer.len() ==> next <= buffer.len() && final(scratch)@ == encode(
            order,
            buffer@.subrange(offset as int, next as int),
        ),
        offset >= buffer.len() ==> final(scratch)@ == Seq::<u8>::empty(),
{
    proof {
        buffer.lemma_view_len();
    }
    if offset >= buffer.len() {
        scratch.clear();
        return offset;
    }
    let len: usize = next_chunk_len(buffer.len() - offset, scratch.capacity_bytes());
    let part = buffer.range(offset, offset + len);
    scratch.write_samples(order, part);
    proof {
        assert(part@.take(len as int) =~= part@);
    }
    offset + len
}

/// Encodes every chunk of `buffer` in turn and returns the frames in order.
pub fn encode_frames(order: ByteOrder, buffer: &SampleBuffer, scratch: &mut SerializationResult) -> (out:
    Vec<Vec<u8>>)
    requires
        buffer.wf(),
        old(scratch).wf(),
        old(scratch).capacity() >= 2,
    ensures
        final(scratch).wf(),
        final(scratch).capacity() == old(scratch).capacity(),
        out@.len() == chunk_count(buffer.len() as nat, old(scratch).capacity()),
        forall|i: int|
            0 <= i < out@.len() ==> (#[trigger] out@[i])@ == frames(
                order,
                buffer@,
                old(scratch).capacity(),
            )[i],
{
    let ghost budget = scratch.capacity();
    let ghost fill = buffer.len() as nat;
    let ghost count = chunk_count(fill, budget);
    let mut out: Vec<Vec<u8>> = Vec::new();
    let mut offset: usize = 0;
    proof {
        buffer.lemma_view_len();
        lemma_chunk_count_bounds(fill, budget);
    }
    while offset < buffer.len()
        invariant
            buffer.wf(),
            scratch.wf(),
            scratch.capacity() == budget,
            budget >= 2,
            fill == buffer.len(),
            fill == buffer@.len(),
            count == chunk_count(fill, budget),
            out@.len() <= count,
            out@.len() < count ==> offset == chunk_start(out@.len(), budget),
            out@.len() == count ==> offset == fill,
            out@.len() <= offset <= fill,
            forall|i: int|
                0 <= i < out@.len() ==> (#[trigger] out@[i])@ == frames(order, buffer@, budget)[i],
        decreases buffer.len() - offset,
    {
        let ghost index = out@.len();
        proof {
            lemma_chunk_shape(fill, budget, index);
        }
        let next = encode_chunk(order, buffer, offset, scratch);
        let frame = vstd::slice::slice_to_vec(scratch.as_bytes());
        out.push(frame);
        offset = next;
    }
    proof {
        if out@.len() < count {
            lemma_chunk_shape(fill, budget, out@.len() as nat);
        }
    }
    out
}

/// The network sink's side of a buffer: big-endian frames within a byte
/// budget, and whether there is a destination to send them to.
pub struct NetworkSink {
    scratch: SerializationResult,
    resolved: bool,
}

impl NetworkSink {
    /// The scratch frame is sound and holds at least one sample.
    pub closed spec fn wf(&self) -> bool {
        self.scratch.wf() && self.scratch.capacity() >= 2
    }

    /// The frame byte budget.
    pub closed spec fn frame_budget(&self) -> nat {
        self.scratch.capacity()
    }

    /// The frame encoded last.
    pub closed spec fn frame(&self) -> Seq<u8> {
        self.scratch@
    }

    /// Whether the destination address is known.
    pub closed spec fn spec_destination_resolved(&self) -> bool {
        self.resolved
    }

    /// A sink with the given frame byte budget. `resolved` tells whether the
    /// destination address was found at startup; without it the sink runs on
    /// and discards every frame. A budget below one sample is refused.
    pub fn new(frame_budget: usize, resolved: bool) -> (result: Result<Self, PipelineError>)
        ensures
            result.is_ok() <==> frame_budget >= 2,
            match result {
                Ok(sink) => {
                    &&& sink.wf()
                    &&& sink.frame_budget() == frame_budget
                    &&& sink.destination_resolved() == resolved
                    &&& sink.frame() == Seq::<u8>::empty()
                },
                Err(e) => e == PipelineError::FrameTooSmall,
            },
    {
        if frame_budget < 2 {
            return Err(PipelineError::FrameTooSmall);
        }
        Ok(NetworkSink { scratch: SerializationResult::new(frame_budget), resolved })
    }

    /// Whether frames are to be transmitted; otherwise they are discarded.
    #[verifier::when_used_as_spec(spec_destination_resolved)]
    pub fn destination_resolved(&self) -> (resolved: bool)
        ensures
            resolved == self.spec_destination_resolved(),
    {
        self.resolved
    }

    /// Records the outcome of a later attempt to resolve the destination.
    pub fn set_destination_resolved(&mut self, resolved: bool)
        requires
            old(self).wf(),
        ensures
            final(self).wf(),
            final(self).frame_budget() == old(self).frame_budget(),
            final(self).frame() == old(self).frame(),
            final(self).destination_resolved() == resolved,
    {
        self.resolved = resolved;
    }

    /// Encodes the chunk of `buffer` at `offset` as the current frame and
    /// returns the offset of the next chunk. The buffer is only read.
    pub fn next_frame(&mut self, buffer: &SampleBuffer, offset: usize) -> (next: usize)
        requires
            old(self).wf(),
            buffer.wf(),
        ensures
            final(self).wf(),
            final(self).frame_budget() == old(self).frame_budget(),
            final(self).destination_resolved() == old(self).destination_resolved(),
            next == next_offset(offset as nat, buffer.len() as nat, old(self).frame_budget()),
            offset < buffer.len() ==> offset < next <= buffer.len() && final(self).frame()
                == encode_be(buffer@.subrange(offset as int, next as int)),
            offset >= buffer.len() ==> final(self).frame() == Seq::<u8>::empty(),
    {
        encode_chunk(ByteOrder::BigEndian, buffer, offset, &mut self.scratch)
    }

    /// The bytes of the current frame: one datagram payload.
    pub fn frame_bytes(&self) -> (bytes: &[u8])
        requires
            self.wf(),
        ensures
            bytes@ == self.frame(),
    {
        self.scratch.as_bytes()
    }

    /// The datagram payloads to transmit for `buffer`, in order: all its
    /// frames, or none while the destination is unresolved.
    pub fn process(&mut self, buffer: &SampleBuffer) -> (out: Vec<Vec<u8>>)
        requires
            old(self).wf(),
            buffer.wf(),
        ensures
            final(self).wf(),
            final(self).frame_budget() == old(self).frame_budget(),
            final(self).destination_resolved() == old(self).destination_resolved(),
            !old(self).destination_resolved() ==> out@.len() == 0,
            old(self).destination_resolved() ==> out@.len() == chunk_count(
                buffer.len() as nat,
                old(self).frame_budget(),
            ),
            forall|i: int|
                0 <= i < out@.len() ==> (#[trigger] out@[i])@ == frames(
                    ByteOrder::BigEndian,
                    buffer@,
                    old(self).frame_budget(),
                )[i],
    {
        if !self.resolved {
            return Vec::new();
        }
        encode_frames(ByteOrder::BigEndian, buffer, &mut self.scratch)
    }
}

/// The storage sink's side of a buffer: little-endian frames for the
/// append-only file, a running count of what was appended, and the threshold
/// at which a checkpoint is due.
pub struct StorageSink {
    scratch: SerializationResult,
    counter: ThroughputCounter,
    threshold: u64,
}

impl StorageSink {
    /// The scratch frame is sound and holds at least one sample.
    pub closed spec fn wf(&self) -> bool {
        self.scratch.wf() && self.scratch.capacity() >= 2
    }

    /// The frame byte budget.
    pub closed spec fn frame_budget(&self) -> nat {
        self.scratch.capacity()
    }

    /// The frame encoded last.
    pub closed spec fn frame(&self) -> Seq<u8> {
        self.scratch@
    }

    /// The running totals of the current window.
    pub closed spec fn spec_counter(&self) -> ThroughputCounter {
        self.counter
    }

    /// The sample count above which a checkpoint is due.
    pub closed spec fn spec_threshold(&self) -> u64 {
        self.threshold
    }

    /// A sink with the given frame byte budget whose first window opens at
    /// `now_ms` and that checkpoints once more than `threshold` samples were
    /// appended. A budget below one sample is refused.
    pub fn new(frame_budget: usize, threshold: u64, now_ms: u64) -> (result: Result<
        Self,
        PipelineError,
    >)
        ensures
            result.is_ok() <==> frame_budget >= 2,
            match result {
                Ok(sink) => {
                    &&& sink.wf()
                    &&& sink.frame_budget() == frame_budget
                    &&& sink.threshold() == threshold
                    &&& sink.counter() == (ThroughputCounter {
                        bytes: 0,
                        samples: 0,
                        window_start_ms: now_ms,
                    })
                    &&& sink.frame() == Seq::<u8>::empty()
                },
                Err(e) => e == PipelineError::FrameTooSmall,
            },
    {
        if frame_budget < 2 {
            return Err(PipelineError::FrameTooSmall);
        }
        Ok(
            StorageSink {
                scratch: SerializationResult::new(frame_budget),
                counter: ThroughputCounter::new(now_ms),
                threshold,
            },
        )
    }

    /// The running totals of the current window.
    #[verifier::when_used_as_spec(spec_counter)]
    pub fn counter(&self) -> (counter: ThroughputCounter)
        ensures
            counter == self.spec_counter(),
    {
        self.counter
    }

    /// The sample count above which a checkpoint is due.
    #[verifier::when_used_as_spec(spec_threshold)]
    pub fn threshold(&self) -> (threshold: u64)
        ensures
            threshold == self.spec_threshold(),
    {
        self.threshold
    }

    /// Encodes the chunk of `buffer` at `offset` as the current frame and
    /// returns the offset of the next chunk. The buffer is only read, and
    /// nothing is counted until the frame is reported appended.
    pub fn next_frame(&mut self, buffer: &SampleBuffer, offset: usize) -> (next: usize)
        requires
            old(self).wf(),
            buffer.wf(),
        ensures
            final(self).wf(),
            final(self).frame_budget() == old(self).frame_budget(),
            final(self).threshold() == old(self).threshold(),
            final(self).counter() == old(self).counter(),
            next == next_offset(offset as nat, buffer.len() as nat, old(self).frame_budget()),
            offset < buffer.len() ==> offset < next <= buffer.len() && final(self).frame()
                == encode_le(buffer@.subrange(offset as int, next as int)),
            offset >= buffer.len() ==> final(self).frame() == Seq::<u8>::empty(),
    {
        encode_chunk(ByteOrder::LittleEndian, buffer, offset, &mut self.scratch)
    }

    /// The bytes of the current frame: what is appended to the file next.
    pub fn frame_bytes(&self) -> (bytes: &[u8])
        requires
            self.wf(),
        ensures
            bytes@ == self.frame(),
    {
        self.scratch.as_bytes()
    }

    /// Counts the current frame as appended to the file.
    pub fn frame_appended(&mut self)
        requires
            old(self).wf(),
        ensures
            final(self).wf(),
            final(self).frame_budget() == old(self).frame_budget(),
            final(self).threshold() == old(self).threshold(),
            final(self).frame() == old(self).frame(),
            final(self).counter().samples == saturating_sum(
                old(self).counter().samples,
                old(self).frame().len() / 2,
            ),
            final(self).counter().bytes == saturating_sum(
                old(self).counter().bytes,
                2 * (old(self).frame().len() / 2),
            ),
            final(self).counter().window_start_ms == old(self).counter().window_start_ms,
    {
        let samples: usize = self.scratch.size_bytes() / 2;
        self.counter.record(samples);
    }

    /// Decides, once a buffer is done, whether a checkpoint is due at
    /// `now_ms`. It is due when more than the threshold of samples was
    /// appended in the window: the window's report is returned for the file to
    /// be flushed and the report emitted, and the next window opens empty at
    /// `now_ms`. Otherwise nothing changes.
    pub fn checkpoint(&mut self, now_ms: u64) -> (report: Option<ThroughputReport>)
        requires
            old(self).wf(),
        ensures
            final(self).wf(),
            final(self).frame_budget() == old(self).frame_budget(),
            final(self).threshold() == old(self).threshold(),
            final(self).frame() == old(self).frame(),
            report.is_some() <==> old(self).counter().samples > old(self).threshold(),
            match report {
                Some(r) => {
                    &&& r.samples == old(self).counter().samples
                    &&& r.bytes == old(self).counter().bytes
                    &&& r.elapsed_ms == crate::throughput::elapsed_between(
                        old(self).counter().window_start_ms,
                        now_ms,
                    )
                    &&& final(self).counter() == (ThroughputCounter {
                        bytes: 0,
                        samples: 0,
                        window_start_ms: now_ms,
                    })
                },
                None => final(self).counter() == old(self).counter(),
            },
    {
        if self.counter.is_due(self.threshold) {
            Some(self.counter.report(now_ms))
        } else {
            None
        }
    }

    /// The stretches to append to the file for `buffer`, in order, each
    /// counted as appended.
    pub fn process(&mut self, buffer: &SampleBuffer) -> (out: Vec<Vec<u8>>)
        requires
            old(self).wf(),
            buffer.wf(),
        ensures
            final(self).wf(),
            final(self).frame_budget() == old(self).frame_budget(),
            final(self).threshold() == old(self).threshold(),
            out@.len() == chunk_count(buffer.len() as nat, old(self).frame_budget()),
            forall|i: int|
                0 <= i < out@.len() ==> (#[trigger] out@[i])@ == frames(
                    ByteOrder::LittleEndian,
                    buffer@,
                    old(self).frame_budget(),
                )[i],
            final(self).counter().samples == saturating_sum(
                old(self).counter().samples,
                buffer.len() as nat,
            ),
            final(self).counter().bytes == saturating_sum(
                old(self).counter().bytes,
                2 * buffer.len() as nat,
            ),
            final(self).counter().window_start_ms == old(self).counter().window_start_ms,
    {
        let out = encode_frames(ByteOrder::LittleEndian, buffer, &mut self.scratch);
        self.counter.record(buffer.len());
        out
    }
}

} // verus!
