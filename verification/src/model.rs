//! The relay as a mathematical state: where each buffer is, what it holds,
//! what every step does to that, and what stays true through every step. The
//! executable pipeline is proved to follow this model step by step.

use vstd::prelude::*;
use crate::state::BufferState;

verus! {

/// What the model knows of one buffer: its identifier and its valid samples.
pub struct BufferView {
    pub id: u32,
    pub samples: Seq<i16>,
}

/// The whole relay at one instant. Queues are listed oldest first.
pub struct PipelineView {
    /// Idle buffers, in the order in which capture will take them.
    pub pool: Seq<BufferView>,
    /// The buffer the capture stage holds, if any.
    pub filling: Option<BufferView>,
    /// Filled buffers queued for the network sink.
    pub ready: Seq<BufferView>,
    /// The buffer the network sink holds, if any.
    pub in_network: Option<BufferView>,
    /// Buffers queued for the storage sink.
    pub queued: Seq<BufferView>,
    /// The buffer the storage sink holds, if any.
    pub in_storage: Option<BufferView>,
    /// Contents of the buffers that completed the cycle, oldest first.
    pub recycled: Seq<Seq<i16>>,
    /// Whether the pipeline has shut down.
    pub closed: bool,
    /// Capacity, in samples, of every buffer.
    pub capacity: nat,
    /// Number of buffers in circulation.
    pub total: nat,
}

/// One step of the relay, as a stage asks for it.
pub enum Step {
    /// The capture stage takes an idle buffer.
    Acquire,
    /// The capture stage fills its buffer with these samples and hands it on.
    Fill(Seq<i16>),
    /// The network sink takes a filled buffer.
    StartNetwork,
    /// The network sink hands its buffer to the storage sink.
    FinishNetwork,
    /// The storage sink takes a buffer.
    StartStorage,
    /// The storage sink returns its buffer to the pool.
    Recycle,
    /// The storage sink fails for good.
    FailStorage,
    /// The pipeline shuts down.
    Close,
}

/// The buffer in a stage's hands as a run of none or one.
pub open spec fn held(slot: Option<BufferView>) -> Seq<BufferView> {
    match slot {
        Some(buffer) => seq![buffer],
        None => Seq::empty(),
    }
}

/// The contents of a run of buffers, in order.
pub open spec fn contents_of(buffers: Seq<BufferView>) -> Seq<Seq<i16>> {
    buffers.map_values(|buffer: BufferView| buffer.samples)
}

/// Whether a buffer with the given identifier is among `buffers`.
pub open spec fn holds_id(buffers: Seq<BufferView>, id: u32) -> bool {
    exists|i: int| 0 <= i < buffers.len() && (#[trigger] buffers[i]).id == id
}

/// Whether `shorter` is a leading part of `longer`.
pub open spec fn is_prefix_of<T>(shorter: Seq<T>, longer: Seq<T>) -> bool {
    shorter.len() <= longer.len() && longer.take(shorter.len() as int) == shorter
}

impl PipelineView {
    /// A relay of `total` empty buffers numbered from zero, all idle.
    pub open spec fn initial(total: nat, capacity: nat) -> PipelineView {
        PipelineView {
            pool: Seq::new(
                total,
                |i: int| BufferView { id: i as u32, samples: Seq::<i16>::empty() },
            ),
            filling: None,
            ready: Seq::empty(),
            in_network: None,
            queued: Seq::empty(),
            in_storage: None,
            recycled: Seq::empty(),
            closed: false,
            capacity,
            total,
        }
    }

    /// Every buffer of the relay, from the one furthest along its cycle to the
    /// one that will be captured into last.
    pub open spec fn ring(self) -> Seq<BufferView> {
        held(self.in_storage) + self.queued + held(self.in_network) + self.ready + held(
            self.filling,
        ) + self.pool
    }

    /// Buffers in a stage's hands: being filled is counted apart.
    pub open spec fn in_flight(self) -> nat {
        held(self.in_network).len() + held(self.in_storage).len()
    }

    /// Contents handed to the storage sink so far, in order.
    pub open spec fn stored(self) -> Seq<Seq<i16>> {
        self.recycled + contents_of(held(self.in_storage))
    }

    /// Contents handed to the network sink so far, in order.
    pub open spec fn sent(self) -> Seq<Seq<i16>> {
        self.stored() + contents_of(self.queued) + contents_of(held(self.in_network))
    }

    /// Contents forwarded by the capture stage so far, in capture order.
    pub open spec fn captured(self) -> Seq<Seq<i16>> {
        self.sent() + contents_of(self.ready)
    }

    /// The state of the buffer with the given identifier; none if the relay
    /// has no such buffer.
    pub open spec fn state_of(self, id: u32) -> Option<BufferState> {
        if !holds_id(self.ring(), id) {
            None
        } else if self.closed {
            Some(BufferState::Closed)
        } else if holds_id(held(self.filling), id) {
            Some(BufferState::Filling)
        } else if holds_id(self.ready, id) {
            Some(BufferState::Ready)
        } else if holds_id(held(self.in_network), id) {
            Some(BufferState::InNetworkSink)
        } else if holds_id(self.queued, id) || holds_id(held(self.in_storage), id) {
            Some(BufferState::InStorageSink)
        } else {
            Some(BufferState::Empty)
        }
    }

    /// What holds of the relay at every instant: the buffers are exactly the
    /// `total` it started with, each in one place; none exceeds the capacity;
    /// idle buffers and the one being filled are empty; whatever was handed
    /// downstream holds samples.
    pub open spec fn wf(self) -> bool {
        &&& self.ring().len() == self.total
        &&& forall|i: int, j: int|
            0 <= i < j < self.ring().len() ==> (#[trigger] self.ring()[i]).id != (
            #[trigger] self.ring()[j]).id
        &&& forall|id: u32| id < self.total ==> holds_id(self.ring(), id)
        &&& forall|i: int|
            0 <= i < self.ring().len() ==> (#[trigger] self.ring()[i]).id < self.total
                && self.ring()[i].samples.len() <= self.capacity
        &&& forall|i: int| 0 <= i < self.pool.len() ==> (#[trigger] self.pool[i]).samples.len() == 0
        &&& forall|i: int|
            0 <= i < self.ready.len() ==> (#[trigger] self.ready[i]).samples.len() > 0
        &&& forall|i: int|
            0 <= i < self.queued.len() ==> (#[trigger] self.queued[i]).samples.len() > 0
        &&& self.filling.is_some() ==> self.filling.unwrap().samples.len() == 0
        &&& self.in_network.is_some() ==> self.in_network.unwrap().samples.len() > 0
        &&& self.in_storage.is_some() ==> self.in_storage.unwrap().samples.len() > 0
    }

    /// Whether the capture stage can take a buffer now.
    pub open spec fn can_acquire(self) -> bool {
        !self.closed && self.filling.is_none() && self.pool.len() > 0
    }

    /// The capture stage takes the oldest idle buffer.
    pub open spec fn acquire(self) -> PipelineView {
        PipelineView { filling: Some(self.pool[0]), pool: self.pool.drop_first(), ..self }
    }

    /// Whether the capture stage can hand on what it holds.
    pub open spec fn can_fill(self, samples: Seq<i16>) -> bool {
        !self.closed && self.filling.is_some() && 0 < samples.len() <= self.capacity
    }

    /// The capture stage fills its buffer with `samples` and queues it for the
    /// network sink.
    pub open spec fn fill(self, samples: Seq<i16>) -> PipelineView {
        PipelineView {
            ready: self.ready.push(BufferView { id: self.filling.unwrap().id, samples }),
            filling: None,
            ..self
        }
    }

    /// Whether the network sink can take a buffer now.
    pub open spec fn can_start_network(self) -> bool {
        !self.closed && self.in_network.is_none() && self.ready.len() > 0
    }

    /// The network sink takes the oldest filled buffer.
    pub open spec fn start_network(self) -> PipelineView {
        PipelineView { in_network: Some(self.ready[0]), ready: self.ready.drop_first(), ..self }
    }

    /// Whether the network sink can hand on what it holds.
    pub open spec fn can_finish_network(self) -> bool {
        !self.closed && self.in_network.is_some()
    }

    /// The network sink queues its buffer for the storage sink.
    pub open spec fn finish_network(self) -> PipelineView {
        PipelineView {
            queued: self.queued.push(self.in_network.unwrap()),
            in_network: None,
            ..self
        }
    }

    /// Whether the storage sink can take a buffer now.
    pub open spec fn can_start_storage(self) -> bool {
        !self.closed && self.in_storage.is_none() && self.queued.len() > 0
    }

    /// The storage sink takes the oldest buffer queued for it.
    pub open spec fn start_storage(self) -> PipelineView {
        PipelineView { in_storage: Some(self.queued[0]), queued: self.queued.drop_first(), ..self }
    }

    /// Whether the storage sink can return what it holds.
    pub open spec fn can_recycle(self) -> bool {
        !self.closed && self.in_storage.is_some()
    }

    /// The storage sink's buffer returns to the pool, emptied, behind the
    /// buffers already idle.
    pub open spec fn recycle(self) -> PipelineView {
        PipelineView {
            pool: self.pool.push(
                BufferView { id: self.in_storage.unwrap().id, samples: Seq::<i16>::empty() },
            ),
            in_storage: None,
            recycled: self.recycled.push(self.in_storage.unwrap().samples),
            ..self
        }
    }

    /// The pipeline shuts down; every buffer stays where it is.
    pub open spec fn close(self) -> PipelineView {
        PipelineView { closed: true, ..self }
    }

    /// The storage sink fails for good: its buffer, if it holds one, still
    /// returns to the pool, and the pipeline shuts down.
    pub open spec fn fail_storage(self) -> PipelineView {
        if self.can_recycle() {
            self.recycle().close()
        } else {
            self.close()
        }
    }

    /// Whether a step takes effect in this state.
    pub open spec fn enabled(self, step: Step) -> bool {
        match step {
            Step::Acquire => self.can_acquire(),
            Step::Fill(samples) => self.can_fill(samples),
            Step::StartNetwork => self.can_start_network(),
            Step::FinishNetwork => self.can_finish_network(),
            Step::StartStorage => self.can_start_storage(),
            Step::Recycle => self.can_recycle(),
            Step::FailStorage => true,
            Step::Close => true,
        }
    }

    /// The state after a step is asked for: its effect where it is enabled,
    /// and no change where it is not.
    pub open spec fn apply(self, step: Step) -> PipelineView {
        if !self.enabled(step) {
            self
        } else {
            match step {
                Step::Acquire => self.acquire(),
                Step::Fill(samples) => self.fill(samples),
                Step::StartNetwork => self.start_network(),
                Step::FinishNetwork => self.finish_network(),
                Step::StartStorage => self.start_storage(),
                Step::Recycle => self.recycle(),
                Step::FailStorage => self.fail_storage(),
                Step::Close => self.close(),
            }
        }
    }

    /// The state after a run of steps, asked for in order.
    pub open spec fn run(self, steps: Seq<Step>) -> PipelineView
        decreases steps.len(),
    {
        if steps.len() == 0 {
            self
        } else {
            self.run(steps.drop_last()).apply(steps.last())
        }
    }

    /// A fresh relay is sound, with every buffer idle.
    pub proof fn lemma_initial_wf(total: nat, capacity: nat)
        requires
            total <= u32::MAX,
        ensures
            Self::initial(total, capacity).wf(),
            Self::initial(total, capacity).pool.len() == total,
    {
        let v = Self::initial(total, capacity);
        assert(v.ring() =~= v.pool);
        assert forall|id: u32| id < total implies holds_id(v.ring(), id) by {
            assert(v.ring()[id as int].id == id);
        }
    }

    /// Taking a buffer for capture keeps the relay sound.
    pub proof fn lemma_acquire_wf(self)
        requires
            self.wf(),
            self.can_acquire(),
        ensures
            self.acquire().wf(),
            self.acquire().ring() == self.ring(),
    {
        let after = self.acquire();
        assert(after.ring() =~= self.ring());
        assert(self.pool[0].samples.len() == 0);
        assert forall|i: int| 0 <= i < after.pool.len() implies (
        #[trigger] after.pool[i]).samples.len() == 0 by {
            assert(after.pool[i] == self.pool[i + 1]);
        }
    }

    /// Handing on a filled buffer keeps the relay sound and every buffer in
    /// its place in the ring.
    pub proof fn lemma_fill_wf(self, samples: Seq<i16>)
        requires
            self.wf(),
            self.can_fill(samples),
        ensures
            self.fill(samples).wf(),
            self.fill(samples).ring().len() == self.ring().len(),
            forall|i: int|
                0 <= i < self.ring().len() ==> (#[trigger] self.fill(samples).ring()[i]).id
                    == self.ring()[i].id,
    {
        let after = self.fill(samples);
        let at = held(self.in_storage).len() + self.queued.len() + held(self.in_network).len()
            + self.ready.len();
        let filled = BufferView { id: self.filling.unwrap().id, samples };
        assert(after.ring() =~= self.ring().update(at as int, filled));
        assert(self.ring()[at as int] == self.filling.unwrap());
        assert forall|i: int| 0 <= i < self.ring().len() implies (#[trigger] after.ring()[i]).id
            == self.ring()[i].id by {}
        assert forall|id: u32| id < after.total implies holds_id(after.ring(), id) by {
            assert(holds_id(self.ring(), id));
            let i = choose|i: int|
                0 <= i < self.ring().len() && (#[trigger] self.ring()[i]).id == id;
            assert(after.ring()[i].id == id);
        }
        assert forall|i: int| 0 <= i < after.ready.len() implies (
        #[trigger] after.ready[i]).samples.len() > 0 by {
            if i < self.ready.len() {
                assert(after.ready[i] == self.ready[i]);
            }
        }
    }

    /// Taking a buffer for the network sink keeps the relay sound.
    pub proof fn lemma_start_network_wf(self)
        requires
            self.wf(),
            self.can_start_network(),
        ensures
            self.start_network().wf(),
            self.start_network().ring() == self.ring(),
    {
        let after = self.start_network();
        assert(after.ring() =~= self.ring());
        assert(self.ready[0].samples.len() > 0);
        assert forall|i: int| 0 <= i < after.ready.len() implies (
        #[trigger] after.ready[i]).samples.len() > 0 by {
            assert(after.ready[i] == self.ready[i + 1]);
        }
    }

    /// Handing a buffer from the network sink to the storage queue keeps the
    /// relay sound.
    pub proof fn lemma_finish_network_wf(self)
        requires
            self.wf(),
            self.can_finish_network(),
        ensures
            self.finish_network().wf(),
            self.finish_network().ring() == self.ring(),
    {
        let after = self.finish_network();
        assert(after.ring() =~= self.ring());
        assert forall|i: int| 0 <= i < after.queued.len() implies (
        #[trigger] after.queued[i]).samples.len() > 0 by {
            if i < self.queued.len() {
                assert(after.queued[i] == self.queued[i]);
            }
        }
    }

    /// Taking a buffer for the storage sink keeps the relay sound.
    pub proof fn lemma_start_storage_wf(self)
        requires
            self.wf(),
            self.can_start_storage(),
        ensures
            self.start_storage().wf(),
            self.start_storage().ring() == self.ring(),
    {
        let after = self.start_storage();
        assert(after.ring() =~= self.ring());
        assert(self.queued[0].samples.len() > 0);
        assert forall|i: int| 0 <= i < after.queued.len() implies (
        #[trigger] after.queued[i]).samples.len() > 0 by {
            assert(after.queued[i] == self.queued[i + 1]);
        }
    }

    /// Returning a buffer to the pool keeps the relay sound: the ring turns by
    /// one place and no buffer is lost or doubled.
    pub proof fn lemma_recycle_wf(self)
        requires
            self.wf(),
            self.can_recycle(),
        ensures
            self.recycle().wf(),
    {
        let after = self.recycle();
        let n = self.ring().len() as int;
        let emptied = BufferView { id: self.in_storage.unwrap().id, samples: Seq::<i16>::empty() };
        assert(self.ring()[0] == self.in_storage.unwrap());
        assert(after.ring() =~= self.ring().drop_first().push(emptied));
        assert forall|i: int| 0 <= i < n - 1 implies #[trigger] after.ring()[i] == self.ring()[i
            + 1] by {}
        assert(after.ring()[n - 1] == emptied);
        assert forall|i: int, j: int| 0 <= i < j < after.ring().len() implies (
        #[trigger] after.ring()[i]).id != (#[trigger] after.ring()[j]).id by {
            if j < n - 1 {
                assert(self.ring()[i + 1].id != self.ring()[j + 1].id);
            } else {
                assert(self.ring()[0].id != self.ring()[i + 1].id);
            }
        }
        assert forall|id: u32| id < after.total implies holds_id(after.ring(), id) by {
            assert(holds_id(self.ring(), id));
            let i = choose|i: int| 0 <= i < n && (#[trigger] self.ring()[i]).id == id;
            if i == 0 {
                assert(after.ring()[n - 1].id == id);
            } else {
                assert(after.ring()[i - 1].id == id);
            }
        }
        assert forall|i: int| 0 <= i < after.ring().len() implies (#[trigger] after.ring()[i]).id
            < after.total && after.ring()[i].samples.len() <= after.capacity by {
            if i < n - 1 {
                assert(after.ring()[i] == self.ring()[i + 1]);
            }
        }
        assert forall|i: int| 0 <= i < after.pool.len() implies (
        #[trigger] after.pool[i]).samples.len() == 0 by {
            if i < self.pool.len() {
                assert(after.pool[i] == self.pool[i]);
            }
        }
    }

    /// Shutting down keeps the relay sound: every buffer stays where it is.
    pub proof fn lemma_close_wf(self)
        requires
            self.wf(),
        ensures
            self.close().wf(),
            self.close().ring() == self.ring(),
    {
        assert(self.close().ring() =~= self.ring());
    }

    /// A failing storage sink leaves the relay sound, shut down, and with no
    /// buffer left in that sink's hands.
    pub proof fn lemma_fail_storage_wf(self)
        requires
            self.wf(),
        ensures
            self.fail_storage().wf(),
            self.fail_storage().closed,
            !self.closed ==> self.fail_storage().in_storage.is_none(),
    {
        if self.can_recycle() {
            self.lemma_recycle_wf();
            self.recycle().lemma_close_wf();
        } else {
            self.lemma_close_wf();
        }
    }

    /// Every step, enabled or not, keeps the relay sound and its number of
    /// buffers and their capacity as they are.
    pub proof fn lemma_apply_wf(self, step: Step)
        requires
            self.wf(),
        ensures
            self.apply(step).wf(),
            self.apply(step).total == self.total,
            self.apply(step).capacity == self.capacity,
    {
        if self.enabled(step) {
            match step {
                Step::Acquire => self.lemma_acquire_wf(),
                Step::Fill(samples) => self.lemma_fill_wf(samples),
                Step::StartNetwork => self.lemma_start_network_wf(),
                Step::FinishNetwork => self.lemma_finish_network_wf(),
                Step::StartStorage => self.lemma_start_storage_wf(),
                Step::Recycle => self.lemma_recycle_wf(),
                Step::FailStorage => self.lemma_fail_storage_wf(),
                Step::Close => self.lemma_close_wf(),
            }
        }
    }

    /// Every run of steps keeps the relay sound.
    pub proof fn lemma_run_wf(self, steps: Seq<Step>)
        requires
            self.wf(),
        ensures
            self.run(steps).wf(),
            self.run(steps).total == self.total,
            self.run(steps).capacity == self.capacity,
        decreases steps.len(),
    {
        if steps.len() > 0 {
            self.lemma_run_wf(steps.drop_last());
            self.run(steps.drop_last()).lemma_apply_wf(steps.last());
        }
    }
}

} // verus!
