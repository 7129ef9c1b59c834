//! The relay's steps seen from one buffer: each step moves one buffer one
//! state along its lane and leaves every other buffer where it stands.

use vstd::prelude::*;
use crate::model::{held, holds_id, PipelineView};
use crate::state::{next_state, BufferEvent, BufferState};

verus! {

impl PipelineView {
    /// Taking a buffer for capture moves that buffer from `Empty` to `Filling`
    /// and no other buffer at all.
    pub proof fn lemma_acquire_state(self, id: u32)
        requires
            self.wf(),
            self.can_acquire(),
        ensures
            self.state_of(self.pool[0].id) == Some(BufferState::Empty),
            id == self.pool[0].id ==> self.acquire().state_of(id) == next_state(
                BufferState::Empty,
                BufferEvent::Acquired,
            ),
            id != self.pool[0].id ==> self.acquire().state_of(id) == self.state_of(id),
    {
        let after = self.acquire();
        self.lemma_acquire_wf();
        self.lemma_one_place(id);
        self.lemma_one_place(self.pool[0].id);
        after.lemma_one_place(id);
        assert(holds_id(self.pool, self.pool[0].id));
        assert(after.filling.unwrap() == held(after.filling)[0]);
        if holds_id(after.pool, id) {
            let i = choose|i: int| 0 <= i < after.pool.len() && (#[trigger] after.pool[i]).id == id;
            assert(self.pool[i + 1].id == id);
        }
        if holds_id(self.pool, id) && id != self.pool[0].id {
            let i = choose|i: int| 0 <= i < self.pool.len() && (#[trigger] self.pool[i]).id == id;
            assert(after.pool[i - 1].id == id);
        }
    }

    /// Handing on a filled buffer moves that buffer from `Filling` to `Ready`
    /// and no other buffer at all.
    pub proof fn lemma_fill_state(self, samples: Seq<i16>, id: u32)
        requires
            self.wf(),
            self.can_fill(samples),
        ensures
            self.state_of(self.filling.unwrap().id) == Some(BufferState::Filling),
            id == self.filling.unwrap().id ==> self.fill(samples).state_of(id) == next_state(
                BufferState::Filling,
                BufferEvent::Filled,
            ),
            id != self.filling.unwrap().id ==> self.fill(samples).state_of(id) == self.state_of(
                id,
            ),
    {
        let after = self.fill(samples);
        let moved = self.filling.unwrap().id;
        self.lemma_fill_wf(samples);
        self.lemma_one_place(id);
        self.lemma_one_place(moved);
        after.lemma_one_place(id);
        assert(held(self.filling)[0].id == moved);
        assert(after.ready[self.ready.len() as int].id == moved);
        if holds_id(after.ready, id) && id != moved {
            let i = choose|i: int|
                0 <= i < after.ready.len() && (#[trigger] after.ready[i]).id == id;
            assert(self.ready[i].id == id);
        }
        if holds_id(self.ready, id) {
            let i = choose|i: int| 0 <= i < self.ready.len() && (#[trigger] self.ready[i]).id == id;
            assert(after.ready[i].id == id);
        }
    }

    /// Taking a buffer for the network sink moves that buffer from `Ready` to
    /// `InNetworkSink` and no other buffer at all.
    pub proof fn lemma_start_network_state(self, id: u32)
        requires
            self.wf(),
            self.can_start_network(),
        ensures
            self.state_of(self.ready[0].id) == Some(BufferState::Ready),
            id == self.ready[0].id ==> self.start_network().state_of(id) == next_state(
                BufferState::Ready,
                BufferEvent::NetworkStarted,
            ),
            id != self.ready[0].id ==> self.start_network().state_of(id) == self.state_of(id),
    {
        let after = self.start_network();
        let moved = self.ready[0].id;
        self.lemma_start_network_wf();
        self.lemma_one_place(id);
        self.lemma_one_place(moved);
        after.lemma_one_place(id);
        assert(holds_id(self.ready, moved));
        assert(held(after.in_network)[0].id == moved);
        if holds_id(after.ready, id) {
            let i = choose|i: int|
                0 <= i < after.ready.len() && (#[trigger] after.ready[i]).id == id;
            assert(self.ready[i + 1].id == id);
        }
        if holds_id(self.ready, id) && id != moved {
            let i = choose|i: int| 0 <= i < self.ready.len() && (#[trigger] self.ready[i]).id == id;
            assert(after.ready[i - 1].id == id);
        }
    }

    /// Passing a buffer on to the storage sink moves that buffer from
    /// `InNetworkSink` to `InStorageSink` and no other buffer at all.
    pub proof fn lemma_finish_network_state(self, id: u32)
        requires
            self.wf(),
            self.can_finish_network(),
        ensures
            self.state_of(self.in_network.unwrap().id) == Some(BufferState::InNetworkSink),
            id == self.in_network.unwrap().id ==> self.finish_network().state_of(id)
                == next_state(BufferState::InNetworkSink, BufferEvent::NetworkFinished),
            id != self.in_network.unwrap().id ==> self.finish_network().state_of(id)
                == self.state_of(id),
    {
        let after = self.finish_network();
        let moved = self.in_network.unwrap().id;
        self.lemma_finish_network_wf();
        self.lemma_one_place(id);
        self.lemma_one_place(moved);
        after.lemma_one_place(id);
        assert(held(self.in_network)[0].id == moved);
        assert(after.queued[self.queued.len() as int].id == moved);
        if holds_id(after.queued, id) && id != moved {
            let i = choose|i: int|
                0 <= i < after.queued.len() && (#[trigger] after.queued[i]).id == id;
            assert(self.queued[i].id == id);
        }
        if holds_id(self.queued, id) {
            let i = choose|i: int|
                0 <= i < self.queued.len() && (#[trigger] self.queued[i]).id == id;
            assert(after.queued[i].id == id);
        }
    }

    /// The storage sink taking a buffer from its queue changes no buffer's
    /// state: the buffer was handed to that sink when it was queued.
    pub proof fn lemma_start_storage_state(self, id: u32)
        requires
            self.wf(),
            self.can_start_storage(),
        ensures
            self.state_of(self.queued[0].id) == Some(BufferState::InStorageSink),
            self.start_storage().state_of(id) == self.state_of(id),
    {
        let after = self.start_storage();
        let moved = self.queued[0].id;
        self.lemma_start_storage_wf();
        self.lemma_one_place(id);
        self.lemma_one_place(moved);
        after.lemma_one_place(id);
        assert(holds_id(self.queued, moved));
        assert(held(after.in_storage)[0].id == moved);
        if holds_id(after.queued, id) {
            let i = choose|i: int|
                0 <= i < after.queued.len() && (#[trigger] after.queued[i]).id == id;
            assert(self.queued[i + 1].id == id);
        }
        if holds_id(self.queued, id) && id != moved {
            let i = choose|i: int|
                0 <= i < self.queued.len() && (#[trigger] self.queued[i]).id == id;
            assert(after.queued[i - 1].id == id);
        }
    }

    /// Returning a buffer to the pool takes that buffer from `InStorageSink`
    /// through `Recycling` to `Empty` and moves no other buffer at all.
    pub proof fn lemma_recycle_state(self, id: u32)
        requires
            self.wf(),
            self.can_recycle(),
        ensures
            self.state_of(self.in_storage.unwrap().id) == Some(BufferState::InStorageSink),
            next_state(BufferState::InStorageSink, BufferEvent::StorageFinished) == Some(
                BufferState::Recycling,
            ),
            id == self.in_storage.unwrap().id ==> self.recycle().state_of(id) == next_state(
                BufferState::Recycling,
                BufferEvent::Recycled,
            ),
            id != self.in_storage.unwrap().id ==> self.recycle().state_of(id) == self.state_of(
                id,
            ),
    {
        let after = self.recycle();
        let moved = self.in_storage.unwrap().id;
        self.lemma_recycle_wf();
        self.lemma_one_place(id);
        self.lemma_one_place(moved);
        after.lemma_one_place(id);
        assert(held(self.in_storage)[0].id == moved);
        assert(after.pool[self.pool.len() as int].id == moved);
        if holds_id(after.pool, id) && id != moved {
            let i = choose|i: int| 0 <= i < after.pool.len() && (#[trigger] after.pool[i]).id == id;
            assert(self.pool[i].id == id);
        }
        if holds_id(self.pool, id) {
            let i = choose|i: int| 0 <= i < self.pool.len() && (#[trigger] self.pool[i]).id == id;
            assert(after.pool[i].id == id);
        }
    }

    /// Shutting down closes every buffer, wherever it stands, and nothing
    /// leaves that state.
    pub proof fn lemma_close_state(self, id: u32)
        requires
            self.wf(),
            id < self.total,
            !self.closed,
        ensures
            self.state_of(id).is_some(),
            self.close().state_of(id) == next_state(self.state_of(id).unwrap(), BufferEvent::Fatal),
            self.close().state_of(id) == Some(BufferState::Closed),
    {
        self.lemma_one_place(id);
        self.lemma_close_wf();
    }
}

} // verus!
