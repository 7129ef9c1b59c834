//! The unit that travels through the relay: a fixed-capacity run of samples
//! with an identifier and a fill count.

use vstd::prelude::*;
use crate::codec::{decode_le, join_sample};
use crate::error::PipelineError;

verus! {

/// A fixed-capacity buffer of 16-bit samples. Its view is the run of samples
/// that are valid in the current cycle: the first `len()` of its storage.
pub struct SampleBuffer {
    id: u32,
    samples: Vec<i16>,
    sample_count: usize,
}

impl View for SampleBuffer {
    type V = Seq<i16>;

    closed spec fn view(&self) -> Seq<i16> {
        self.samples@.take(self.sample_count as int)
    }
}

/// Whether `byte_count` leading bytes of a raw capture of `raw_len` bytes form
/// a whole number of samples.
pub open spec fn well_formed_capture(raw_len: nat, byte_count: nat) -> bool {
    byte_count <= raw_len && byte_count % 2 == 0
}

/// How many samples a capture of `byte_count` bytes puts into a buffer of
/// `capacity` samples: all it brought, or as many as the buffer holds.
pub open spec fn capture_len(byte_count: nat, capacity: nat) -> nat {
    if byte_count / 2 <= capacity {
        byte_count / 2
    } else {
        capacity
    }
}

impl SampleBuffer {
    /// The fill count lies within the fixed storage.
    pub closed spec fn wf(&self) -> bool {
        self.sample_count <= self.samples@.len() <= usize::MAX
    }

    /// The identifier given at construction.
    pub closed spec fn spec_id(&self) -> u32 {
        self.id
    }

    /// The fixed number of samples the buffer can hold.
    pub closed spec fn spec_capacity(&self) -> usize {
        self.samples@.len() as usize
    }

    /// The number of valid samples.
    pub closed spec fn spec_len(&self) -> usize {
        self.sample_count
    }

    /// The view has the fill count as its length, and that is within capacity.
    pub proof fn lemma_view_len(&self)
        requires
            self.wf(),
        ensures
            self@.len() == self.len(),
            self.len() <= self.capacity(),
    {
    }

    /// An empty buffer with the given identifier and capacity.
    pub fn new(id: u32, capacity: usize) -> (buffer: Self)
        ensures
            buffer.wf(),
            buffer.id() == id,
            buffer.capacity() == capacity,
            buffer.len() == 0,
            buffer@ == Seq::<i16>::empty(),
    {
        let mut samples: Vec<i16> = Vec::with_capacity(capacity);
        let mut i: usize = 0;
        while i < capacity
            invariant
                i <= capacity,
                samples@.len() == i,
            decreases capacity - i,
        {
            samples.push(0i16);
            i += 1;
        }
        let buffer = SampleBuffer { id, samples, sample_count: 0 };
        assert(buffer@ =~= Seq::<i16>::empty());
        buffer
    }

    /// The identifier, for diagnostics.
    #[verifier::when_used_as_spec(spec_id)]
    pub fn id(&self) -> (id: u32)
        ensures
            id == self.spec_id(),
    {
        self.id
    }

    /// The fixed capacity in samples.
    #[verifier::when_used_as_spec(spec_capacity)]
    pub fn capacity(&self) -> (capacity: usize)
        ensures
            capacity == self.spec_capacity(),
    {
        self.samples.len()
    }

    /// The fill count: how many leading samples are valid.
    #[verifier::when_used_as_spec(spec_len)]
    pub fn len(&self) -> (len: usize)
        ensures
            len == self.spec_len(),
    {
        self.sample_count
    }

    /// Whether no sample is valid.
    pub fn is_empty(&self) -> (empty: bool)
        ensures
            empty == (self.len() == 0),
    {
        self.sample_count == 0
    }

    /// The valid samples.
    pub fn samples(&self) -> (valid: &[i16])
        requires
            self.wf(),
        ensures
            valid@ == self@,
    {
        let valid = vstd::slice::slice_subrange(self.samples.as_slice(), 0, self.sample_count);
        assert(valid@ =~= self@);
        valid
    }

    /// The valid samples from `start` up to, not including, `end`.
    pub fn range(&self, start: usize, end: usize) -> (part: &[i16])
        requires
            self.wf(),
            start <= end <= self.len(),
        ensures
            part@ == self@.subrange(start as int, end as int),
    {
        let part = vstd::slice::slice_subrange(self.samples.as_slice(), start, end);
        assert(part@ =~= self@.subrange(start as int, end as int));
        part
    }

    /// Marks the buffer empty for its next cycle; identifier and capacity stay.
    pub fn clear(&mut self)
        requires
            old(self).wf(),
        ensures
            final(self).wf(),
            final(self).id() == old(self).id(),
            final(self).capacity() == old(self).capacity(),
            final(self).len() == 0,
            final(self)@ == Seq::<i16>::empty(),
    {
        self.sample_count = 0;
        assert(self@ =~= Seq::<i16>::empty());
    }

    /// Fills the buffer from the first `byte_count` bytes of a raw capture,
    /// which the peripheral delivers low byte first, and returns the number of
    /// samples now valid. As many samples are taken as the capacity holds. A
    /// count of zero leaves the buffer empty. A capture that is not a whole
    /// number of samples inside `raw` is refused and changes nothing.
    pub fn capture_into(&mut self, raw: &[u8], byte_count: usize) -> (result: Result<
        usize,
        PipelineError,
    >)
        requires
            old(self).wf(),
        ensures
            final(self).wf(),
            final(self).id() == old(self).id(),
            final(self).capacity() == old(self).capacity(),
            result.is_ok() <==> well_formed_capture(raw@.len(), byte_count as nat),
            match result {
                Ok(filled) => {
                    &&& filled == capture_len(byte_count as nat, old(self).capacity() as nat)
                    &&& final(self).len() == filled
                    &&& final(self)@ == decode_le(raw@.take(2 * filled))
                },
                Err(e) => e == PipelineError::MalformedCapture && *final(self) == *old(self),
            },
    {
        if byte_count > raw.len() || byte_count % 2 != 0 {
            return Err(PipelineError::MalformedCapture);
        }
        let offered: usize = byte_count / 2;
        let filled: usize = if offered <= self.samples.len() {
            offered
        } else {
            self.samples.len()
        };
        let ghost wanted = decode_le(raw@.take(2 * filled));
        let mut i: usize = 0;
        while i < filled
            invariant
                i <= filled,
                2 * filled <= raw@.len() <= usize::MAX,
                filled <= self.samples@.len(),
                self.samples@.len() == old(self).samples@.len(),
                self.id == old(self).id,
                wanted == decode_le(raw@.take(2 * filled)),
                forall|j: int| 0 <= j < i ==> self.samples@[j] == wanted[j],
            decreases filled - i,
        {
            let sample = join_sample(raw[2 * i + 1], raw[2 * i]);
            self.samples.set(i, sample);
            i += 1;
        }
        self.sample_count = filled;
        assert(self@ =~= wanted);
        Ok(filled)
    }
}

} // verus!
