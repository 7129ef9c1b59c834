//! The relay itself: a fixed set of buffers, the queues between the stages
//! and the buffer each stage holds. Every operation is one step of the model
//! and either takes effect as the model says or reports why it did not and
//! changes nothing. Nothing here waits: a stage that is told to wait asks
//! again when another stage has made a step.

use std::collections::VecDeque;
use vstd::prelude::*;
use crate::codec::{decode_le, encode_be, encode_le};
use crate::error::PipelineError;
use crate::model::{held, holds_id, BufferView, PipelineView, Step};
use crate::sample_buffer::{capture_len, well_formed_capture, SampleBuffer};
use crate::sink::{next_offset, NetworkSink, StorageSink};
use crate::state::BufferState;

verus! {

/// What the model sees of a buffer.
pub open spec fn view_of(buffer: SampleBuffer) -> BufferView {
    BufferView { id: buffer.id(), samples: buffer@ }
}

/// What the model sees of a queue of buffers.
pub open spec fn views_of(buffers: Seq<SampleBuffer>) -> Seq<BufferView> {
    buffers.map_values(|buffer: SampleBuffer| view_of(buffer))
}

/// What the model sees of the buffer a stage holds.
pub open spec fn view_of_slot(slot: Option<SampleBuffer>) -> Option<BufferView> {
    match slot {
        Some(buffer) => Some(view_of(buffer)),
        None => None,
    }
}

/// Why a stage cannot take a buffer from its queue.
pub open spec fn take_refusal(closed: bool, holding: bool) -> PipelineError {
    if closed {
        PipelineError::PipelineClosed
    } else if holding {
        PipelineError::StageBusy
    } else {
        PipelineError::WouldBlock
    }
}

/// Why a stage cannot hand on the buffer it holds.
pub open spec fn release_refusal(closed: bool) -> PipelineError {
    if closed {
        PipelineError::PipelineClosed
    } else {
        PipelineError::StageIdle
    }
}

/// The storage of a buffer is sound and has the relay's capacity.
spec fn sound(buffer: SampleBuffer, capacity: usize) -> bool {
    buffer.wf() && buffer.capacity() == capacity
}

spec fn all_sound(buffers: Seq<SampleBuffer>, capacity: usize) -> bool {
    forall|i: int| 0 <= i < buffers.len() ==> sound(#[trigger] buffers[i], capacity)
}

spec fn slot_sound(slot: Option<SampleBuffer>, capacity: usize) -> bool {
    slot.is_some() ==> sound(slot.unwrap(), capacity)
}

/// A relay of a fixed number of buffers of one capacity.
pub struct Pipeline {
    pool: VecDeque<SampleBuffer>,
    filling: Option<SampleBuffer>,
    ready: VecDeque<SampleBuffer>,
    in_network: Option<SampleBuffer>,
    queued: VecDeque<SampleBuffer>,
    in_storage: Option<SampleBuffer>,
    recycled: Ghost<Seq<Seq<i16>>>,
    closed: bool,
    capacity: usize,
    total: u32,
}

impl View for Pipeline {
    type V = PipelineView;

    closed spec fn view(&self) -> PipelineView {
        PipelineView {
            pool: views_of(self.pool@),
            filling: view_of_slot(self.filling),
            ready: views_of(self.ready@),
            in_network: view_of_slot(self.in_network),
            queued: views_of(self.queued@),
            in_storage: view_of_slot(self.in_storage),
            recycled: self.recycled@,
            closed: self.closed,
            capacity: self.capacity as nat,
            total: self.total as nat,
        }
    }
}

impl Pipeline {
    /// The relay is in a sound state of the model and every buffer's storage
    /// is sound and of the relay's capacity.
    pub closed spec fn wf(&self) -> bool {
        &&& self@.wf()
        &&& all_sound(self.pool@, self.capacity)
        &&& all_sound(self.ready@, self.capacity)
        &&& all_sound(self.queued@, self.capacity)
        &&& slot_sound(self.filling, self.capacity)
        &&& slot_sound(self.in_network, self.capacity)
        &&& slot_sound(self.in_storage, self.capacity)
    }

    /// A sound relay is a sound state of the model.
    pub proof fn lemma_view_wf(&self)
        requires
            self.wf(),
        ensures
            self@.wf(),
            self@.total <= u32::MAX,
            self@.capacity <= usize::MAX,
    {
    }

    /// A relay of `count` empty buffers of `capacity` samples each, numbered
    /// from zero, all idle in the pool. Buffers are made here and nowhere
    /// else, and each queue is given room for all of them.
    pub fn new(count: u32, capacity: usize) -> (pipeline: Self)
        ensures
            pipeline.wf(),
            pipeline@ == PipelineView::initial(count as nat, capacity as nat),
    {
        let room: usize = count as usize;
        let mut pool: VecDeque<SampleBuffer> = VecDeque::with_capacity(room);
        let mut id: u32 = 0;
        while id < count
            invariant
                id <= count,
                pool@.len() == id,
                all_sound(pool@, capacity),
                forall|i: int|
                    0 <= i < pool@.len() ==> view_of(#[trigger] pool@[i]) == (BufferView {
                        id: i as u32,
                        samples: Seq::<i16>::empty(),
                    }),
            decreases count - id,
        {
            pool.push_back(SampleBuffer::new(id, capacity));
            id += 1;
        }
        let pipeline = Pipeline {
            pool,
            filling: None,
            ready: VecDeque::with_capacity(room),
            in_network: None,
            queued: VecDeque::with_capacity(room),
            in_storage: None,
            recycled: Ghost(Seq::empty()),
            closed: false,
            capacity,
            total: count,
        };
        proof {
            let initial = PipelineView::initial(count as nat, capacity as nat);
            assert(pipeline@.pool =~= initial.pool);
            assert(pipeline@.ready =~= initial.ready);
            assert(pipeline@.queued =~= initial.queued);
            assert(pipeline@.recycled =~= initial.recycled);
            PipelineView::lemma_initial_wf(count as nat, capacity as nat);
        }
        pipeline
    }

    /// Number of buffers in circulation.
    pub fn total(&self) -> (total: u32)
        ensures
            total == self@.total,
    {
        self.total
    }

    /// Capacity of every buffer, in samples.
    pub fn buffer_capacity(&self) -> (capacity: usize)
        ensures
            capacity == self@.capacity,
    {
        self.capacity
    }

    /// Whether the pipeline has shut down.
    pub fn is_closed(&self) -> (closed: bool)
        ensures
            closed == self@.closed,
    {
        self.closed
    }

    /// Number of idle buffers in the pool.
    pub fn idle_count(&self) -> (count: usize)
        ensures
            count == self@.pool.len(),
    {
        self.pool.len()
    }

    /// Number of buffers the capture stage holds: none or one.
    pub fn filling_count(&self) -> (count: usize)
        ensures
            count == held(self@.filling).len(),
    {
        if self.filling.is_some() {
            1
        } else {
            0
        }
    }

    /// Number of filled buffers queued for the network sink.
    pub fn ready_count(&self) -> (count: usize)
        ensures
            count == self@.ready.len(),
    {
        self.ready.len()
    }

    /// Number of buffers queued for the storage sink.
    pub fn storage_queue_count(&self) -> (count: usize)
        ensures
            count == self@.queued.len(),
    {
        self.queued.len()
    }

    /// Number of buffers in the hands of the two sinks.
    pub fn in_flight_count(&self) -> (count: usize)
        ensures
            count == self@.in_flight(),
    {
        let network: usize = if self.in_network.is_some() {
            1
        } else {
            0
        };
        let storage: usize = if self.in_storage.is_some() {
            1
        } else {
            0
        };
        network + storage
    }

    /// Whether a queue holds the buffer with the given identifier.
    fn queue_holds(queue: &VecDeque<SampleBuffer>, id: u32) -> (found: bool)
        ensures
            found == holds_id(views_of(queue@), id),
    {
        let mut i: usize = 0;
        while i < queue.len()
            invariant
                i <= queue@.len(),
                forall|j: int| 0 <= j < i ==> (#[trigger] views_of(queue@)[j]).id != id,
            decreases queue@.len() - i,
        {
            if queue[i].id() == id {
                assert(views_of(queue@)[i as int].id == id);
                return true;
            }
            i += 1;
        }
        false
    }

    /// Whether a stage holds the buffer with the given identifier.
    fn slot_holds(slot: &Option<SampleBuffer>, id: u32) -> (found: bool)
        ensures
            found == holds_id(held(view_of_slot(*slot)), id),
    {
        match slot {
            Some(buffer) => {
                let found = buffer.id() == id;
                assert(held(view_of_slot(*slot))[0].id == buffer.id());
                found
            },
            None => false,
        }
    }

    /// The state of the buffer with the given identifier, for diagnostics;
    /// none if the relay has no such buffer.
    pub fn state_of(&self, id: u32) -> (state: Option<BufferState>)
        requires
            self.wf(),
        ensures
            state == self@.state_of(id),
            state.is_some() <==> id < self@.total,
    {
        proof {
            self@.lemma_one_place(id);
        }
        if id >= self.total {
            None
        } else if self.closed {
            Some(BufferState::Closed)
        } else if Self::slot_holds(&self.filling, id) {
            Some(BufferState::Filling)
        } else if Self::queue_holds(&self.ready, id) {
            Some(BufferState::Ready)
        } else if Self::slot_holds(&self.in_network, id) {
            Some(BufferState::InNetworkSink)
        } else if Self::queue_holds(&self.queued, id) || Self::slot_holds(&self.in_storage, id) {
            Some(BufferState::InStorageSink)
        } else {
            Some(BufferState::Empty)
        }
    }

    /// The capture stage asks for a buffer. It gets the oldest idle buffer, by
    /// its identifier. Without one it is told to wait; while it still holds a
    /// buffer it is told so; after shutdown it is told that.
    pub fn acquire(&mut self) -> (result: Result<u32, PipelineError>)
        requires
            old(self).wf(),
        ensures
            final(self).wf(),
            result.is_ok() <==> old(self)@.can_acquire(),
            final(self)@ == old(self)@.apply(Step::Acquire),
            match result {
                Ok(id) => final(self)@ == old(self)@.acquire() && id == old(self)@.pool[0].id,
                Err(e) => final(self)@ == old(self)@ && e == take_refusal(
                    old(self)@.closed,
                    old(self)@.filling.is_some(),
                ),
            },
    {
        if self.closed {
            return Err(PipelineError::PipelineClosed);
        }
        if self.filling.is_some() {
            return Err(PipelineError::StageBusy);
        }
        match self.pool.pop_front() {
            None => Err(PipelineError::WouldBlock),
            Some(buffer) => {
                let id = buffer.id();
                self.filling = Some(buffer);
                proof {
                    let before = old(self)@;
                    assert(self@.pool =~= before.acquire().pool);
                    before.lemma_acquire_wf();
                }
                Ok(id)
            },
        }
    }

    /// The capture stage fills the buffer it holds from the first
    /// `byte_count` bytes of a raw capture, low byte first, and hands it to
    /// the network sink's queue. It returns the number of samples taken, as
    /// many as the buffer's capacity holds. A capture of no samples hands
    /// nothing on: the stage keeps its buffer, still empty, for the next
    /// read. A capture that is not a whole number of samples inside `raw` is
    /// refused and changes nothing.
    pub fn capture(&mut self, raw: &[u8], byte_count: usize) -> (result: Result<
        usize,
        PipelineError,
    >)
        requires
            old(self).wf(),
        ensures
            final(self).wf(),
            result.is_ok() <==> !old(self)@.closed && old(self)@.filling.is_some()
                && well_formed_capture(raw@.len(), byte_count as nat),
            match result {
                Ok(filled) => {
                    &&& filled == capture_len(byte_count as nat, old(self)@.capacity)
                    &&& filled == 0 ==> final(self)@ == old(self)@
                    &&& filled > 0 ==> final(self)@ == old(self)@.fill(
                        decode_le(raw@.take(2 * filled)),
                    )
                    &&& filled > 0 ==> final(self)@ == old(self)@.apply(
                        Step::Fill(decode_le(raw@.take(2 * filled))),
                    )
                },
                Err(e) => {
                    &&& final(self)@ == old(self)@
                    &&& e == if old(self)@.closed {
                        PipelineError::PipelineClosed
                    } else if old(self)@.filling.is_none() {
                        PipelineError::StageIdle
                    } else {
                        PipelineError::MalformedCapture
                    }
                },
            },
    {
        if self.closed {
            return Err(PipelineError::PipelineClosed);
        }
        match self.filling.take() {
            None => Err(PipelineError::StageIdle),
            Some(mut buffer) => {
                let ghost before = old(self)@;
                let ghost held_before = buffer;
                match buffer.capture_into(raw, byte_count) {
                    Err(e) => {
                        self.filling = Some(buffer);
                        Err(e)
                    },
                    Ok(filled) => {
                        proof {
                            buffer.lemma_view_len();
                            held_before.lemma_view_len();
                        }
                        if filled == 0 {
                            proof {
                                assert(buffer@ =~= held_before@);
                            }
                            self.filling = Some(buffer);
                        } else {
                            self.ready.push_back(buffer);
                            proof {
                                let samples = decode_le(raw@.take(2 * filled));
                                assert(self@.ready =~= before.fill(samples).ready);
                                before.lemma_fill_wf(samples);
                            }
                        }
                        Ok(filled)
                    },
                }
            },
        }
    }

    /// The network sink asks for a buffer. It gets the oldest filled buffer,
    /// by its identifier, or is told to wait, that it still holds one, or
    /// that the pipeline has shut down.
    pub fn take_for_network(&mut self) -> (result: Result<u32, PipelineError>)
        requires
            old(self).wf(),
        ensures
            final(self).wf(),
            result.is_ok() <==> old(self)@.can_start_network(),
            final(self)@ == old(self)@.apply(Step::StartNetwork),
            match result {
                Ok(id) => final(self)@ == old(self)@.start_network() && id
                    == old(self)@.ready[0].id,
                Err(e) => final(self)@ == old(self)@ && e == take_refusal(
                    old(self)@.closed,
                    old(self)@.in_network.is_some(),
                ),
            },
    {
        if self.closed {
            return Err(PipelineError::PipelineClosed);
        }
        if self.in_network.is_some() {
            return Err(PipelineError::StageBusy);
        }
        match self.ready.pop_front() {
            None => Err(PipelineError::WouldBlock),
            Some(buffer) => {
                let id = buffer.id();
                self.in_network = Some(buffer);
                proof {
                    let before = old(self)@;
                    assert(self@.ready =~= before.start_network().ready);
                    before.lemma_start_network_wf();
                }
                Ok(id)
            },
        }
    }

    /// The buffer the network sink holds, to be read and not changed.
    pub fn network_buffer(&self) -> (held: Option<&SampleBuffer>)
        requires
            self.wf(),
        ensures
            held.is_some() <==> self@.in_network.is_some(),
            held.is_some() ==> held.unwrap().wf() && view_of(*held.unwrap())
                == self@.in_network.unwrap(),
    {
        self.in_network.as_ref()
    }

    /// Encodes, as the sink's current frame, the chunk at `offset` of the
    /// buffer the network sink holds, and returns the offset of the chunk
    /// after it. There is none once the buffer is used up, or while the sink
    /// holds no buffer: the sink is then left as it is. A buffer taken before
    /// shutdown can still be read to its end.
    pub fn network_frame(&self, sink: &mut NetworkSink, offset: usize) -> (next: Option<usize>)
        requires
            self.wf(),
            old(sink).wf(),
        ensures
            final(sink).wf(),
            final(sink).frame_budget() == old(sink).frame_budget(),
            final(sink).destination_resolved() == old(sink).destination_resolved(),
            next.is_some() <==> self@.in_network.is_some() && offset
                < self@.in_network.unwrap().samples.len(),
            match next {
                Some(end) => {
                    &&& end == next_offset(
                        offset as nat,
                        self@.in_network.unwrap().samples.len(),
                        old(sink).frame_budget(),
                    )
                    &&& offset < end <= self@.in_network.unwrap().samples.len()
                    &&& final(sink).frame() == encode_be(
                        self@.in_network.unwrap().samples.subrange(offset as int, end as int),
                    )
                },
                None => final(sink).frame() == old(sink).frame(),
            },
    {
        match self.in_network.as_ref() {
            None => None,
            Some(buffer) => {
                proof {
                    buffer.lemma_view_len();
                }
                if offset < buffer.len() {
                    Some(sink.next_frame(buffer, offset))
                } else {
                    None
                }
            },
        }
    }

    /// The network sink is done with its buffer, whether or not every frame
    /// went out, and hands it to the storage sink's queue.
    pub fn forward_to_storage(&mut self) -> (result: Result<u32, PipelineError>)
        requires
            old(self).wf(),
        ensures
            final(self).wf(),
            result.is_ok() <==> old(self)@.can_finish_network(),
            final(self)@ == old(self)@.apply(Step::FinishNetwork),
            match result {
                Ok(id) => final(self)@ == old(self)@.finish_network() && id
                    == old(self)@.in_network.unwrap().id,
                Err(e) => final(self)@ == old(self)@ && e == release_refusal(old(self)@.closed),
            },
    {
        if self.closed {
            return Err(PipelineError::PipelineClosed);
        }
        match self.in_network.take() {
            None => Err(PipelineError::StageIdle),
            Some(buffer) => {
                let id = buffer.id();
                self.queued.push_back(buffer);
                proof {
                    let before = old(self)@;
                    assert(self@.queued =~= before.finish_network().queued);
                    before.lemma_finish_network_wf();
                }
                Ok(id)
            },
        }
    }

    /// The storage sink asks for a buffer. It gets the oldest buffer queued
    /// for it, by its identifier, or is told to wait, that it still holds
    /// one, or that the pipeline has shut down.
    pub fn take_for_storage(&mut self) -> (result: Result<u32, PipelineError>)
        requires
            old(self).wf(),
        ensures
            final(self).wf(),
            result.is_ok() <==> old(self)@.can_start_storage(),
            final(self)@ == old(self)@.apply(Step::StartStorage),
            match result {
                Ok(id) => final(self)@ == old(self)@.start_storage() && id
                    == old(self)@.queued[0].id,
                Err(e) => final(self)@ == old(self)@ && e == take_refusal(
                    old(self)@.closed,
                    old(self)@.in_storage.is_some(),
                ),
            },
    {
        if self.closed {
            return Err(PipelineError::PipelineClosed);
        }
        if self.in_storage.is_some() {
            return Err(PipelineError::StageBusy);
        }
        match self.queued.pop_front() {
            None => Err(PipelineError::WouldBlock),
            Some(buffer) => {
                let id = buffer.id();
                self.in_storage = Some(buffer);
                proof {
                    let before = old(self)@;
                    assert(self@.queued =~= before.start_storage().queued);
                    before.lemma_start_storage_wf();
                }
                Ok(id)
            },
        }
    }

    /// The buffer the storage sink holds, to be read and not changed.
    pub fn storage_buffer(&self) -> (held: Option<&SampleBuffer>)
        requires
            self.wf(),
        ensures
            held.is_some() <==> self@.in_storage.is_some(),
            held.is_some() ==> held.unwrap().wf() && view_of(*held.unwrap())
                == self@.in_storage.unwrap(),
    {
        self.in_storage.as_ref()
    }

    /// Encodes, as the sink's current frame, the chunk at `offset` of the
    /// buffer the storage sink holds, and returns the offset of the chunk
    /// after it. There is none once the buffer is used up, or while the sink
    /// holds no buffer: the sink is then left as it is. Nothing is counted
    /// until the frame is reported appended.
    pub fn storage_frame(&self, sink: &mut StorageSink, offset: usize) -> (next: Option<usize>)
        requires
            self.wf(),
            old(sink).wf(),
        ensures
            final(sink).wf(),
            final(sink).frame_budget() == old(sink).frame_budget(),
            final(sink).threshold() == old(sink).threshold(),
            final(sink).counter() == old(sink).counter(),
            next.is_some() <==> self@.in_storage.is_some() && offset
                < self@.in_storage.unwrap().samples.len(),
            match next {
                Some(end) => {
                    &&& end == next_offset(
                        offset as nat,
                        self@.in_storage.unwrap().samples.len(),
                        old(sink).frame_budget(),
                    )
                    &&& offset < end <= self@.in_storage.unwrap().samples.len()
                    &&& final(sink).frame() == encode_le(
                        self@.in_storage.unwrap().samples.subrange(offset as int, end as int),
                    )
                },
                None => final(sink).frame() == old(sink).frame(),
            },
    {
        match self.in_storage.as_ref() {
            None => None,
            Some(buffer) => {
                proof {
                    buffer.lemma_view_len();
                }
                if offset < buffer.len() {
                    Some(sink.next_frame(buffer, offset))
                } else {
                    None
                }
            },
        }
    }

    /// The storage sink is done with its buffer, which returns to the pool,
    /// emptied, behind the buffers already idle.
    pub fn recycle(&mut self) -> (result: Result<u32, PipelineError>)
        requires
            old(self).wf(),
        ensures
            final(self).wf(),
            result.is_ok() <==> old(self)@.can_recycle(),
            final(self)@ == old(self)@.apply(Step::Recycle),
            match result {
                Ok(id) => final(self)@ == old(self)@.recycle() && id
                    == old(self)@.in_storage.unwrap().id,
                Err(e) => final(self)@ == old(self)@ && e == release_refusal(old(self)@.closed),
            },
    {
        if self.closed {
            return Err(PipelineError::PipelineClosed);
        }
        match self.in_storage.take() {
            None => Err(PipelineError::StageIdle),
            Some(mut buffer) => {
                let id = buffer.id();
                let ghost contents = buffer@;
                buffer.clear();
                self.pool.push_back(buffer);
                self.recycled = Ghost(self.recycled@.push(contents));
                proof {
                    let before = old(self)@;
                    assert(self@.pool =~= before.recycle().pool);
                    before.lemma_recycle_wf();
                }
                Ok(id)
            },
        }
    }

    /// The storage sink reports a failure it cannot recover from, such as a
    /// failed write. The buffer it holds, if any, still returns to the pool so
    /// that none is stranded in the failed stage, and the pipeline shuts down.
    pub fn fail_storage(&mut self)
        requires
            old(self).wf(),
        ensures
            final(self).wf(),
            final(self)@ == old(self)@.fail_storage(),
            final(self)@ == old(self)@.apply(Step::FailStorage),
    {
        let _ = self.recycle();
        self.close();
    }

    /// Shuts the pipeline down after a fatal condition. Every buffer stays
    /// where it is and no operation moves one again.
    pub fn close(&mut self)
        requires
            old(self).wf(),
        ensures
            final(self).wf(),
            final(self)@ == old(self)@.close(),
            final(self)@ == old(self)@.apply(Step::Close),
    {
        self.closed = true;
        proof {
            old(self)@.lemma_close_wf();
        }
    }
}

} // verus!
