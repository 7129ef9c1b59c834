//! What holds of the relay at every instant: no buffer is lost or doubled,
//! nothing overtakes, nothing stale travels, and a full pipeline holds
//! capture back until a buffer returns.

use vstd::prelude::*;
use crate::model::{held, holds_id, is_prefix_of, PipelineView, Step};

verus! {

impl PipelineView {
    /// Conservation: at every instant the buffers in the pool, in capture, in
    /// the two queues and in the sinks' hands add up to the number the relay
    /// was built with.
    pub proof fn lemma_conservation(self)
        requires
            self.wf(),
        ensures
            self.pool.len() + held(self.filling).len() + self.ready.len() + self.queued.len()
                + self.in_flight() == self.total,
    {
    }

    /// Conservation at any snapshot: whatever the stages have asked for since
    /// the relay was built, in whatever order, the buffers in the pool, in
    /// capture, in the two queues and in the sinks' hands add up to the number
    /// it was built with, and each of them is in exactly one place.
    pub proof fn lemma_every_snapshot_conserved(total: nat, capacity: nat, steps: Seq<Step>)
        requires
            total <= u32::MAX,
        ensures
            ({
                let now = Self::initial(total, capacity).run(steps);
                &&& now.wf()
                &&& now.pool.len() + held(now.filling).len() + now.ready.len() + now.queued.len()
                    + now.in_flight() == total
                &&& now.ring().len() == total
                &&& forall|i: int, j: int|
                    0 <= i < j < now.ring().len() ==> (#[trigger] now.ring()[i]).id != (
                    #[trigger] now.ring()[j]).id
            }),
    {
        Self::lemma_initial_wf(total, capacity);
        Self::initial(total, capacity).lemma_run_wf(steps);
    }

    /// Where each place of the relay lies in the ring.
    proof fn lemma_ring_places(self)
        ensures
            self.in_storage.is_some() ==> self.ring()[0] == self.in_storage.unwrap(),
            forall|i: int|
                0 <= i < self.queued.len() ==> self.ring()[held(self.in_storage).len() + i]
                    == #[trigger] self.queued[i],
            self.in_network.is_some() ==> self.ring()[(held(self.in_storage).len()
                + self.queued.len()) as int] == self.in_network.unwrap(),
            forall|i: int|
                0 <= i < self.ready.len() ==> self.ring()[held(self.in_storage).len()
                    + self.queued.len() + held(self.in_network).len() + i]
                    == #[trigger] self.ready[i],
            self.filling.is_some() ==> self.ring()[(held(self.in_storage).len()
                + self.queued.len() + held(self.in_network).len() + self.ready.len()) as int]
                == self.filling.unwrap(),
            forall|i: int|
                0 <= i < self.pool.len() ==> self.ring()[held(self.in_storage).len()
                    + self.queued.len() + held(self.in_network).len() + self.ready.len() + held(
                    self.filling,
                ).len() + i] == #[trigger] self.pool[i],
    {
    }

    /// Each buffer once: a buffer of the relay is in exactly one place.
    pub proof fn lemma_one_place(self, id: u32)
        requires
            self.wf(),
        ensures
            id < self.total <==> holds_id(self.ring(), id),
            holds_id(self.ring(), id) <==> holds_id(self.pool, id) || holds_id(
                held(self.filling),
                id,
            ) || holds_id(self.ready, id) || holds_id(held(self.in_network), id) || holds_id(
                self.queued,
                id,
            ) || holds_id(held(self.in_storage), id),
            !(holds_id(self.pool, id) && holds_id(held(self.filling), id)),
            !(holds_id(self.pool, id) && holds_id(self.ready, id)),
            !(holds_id(self.pool, id) && holds_id(held(self.in_network), id)),
            !(holds_id(self.pool, id) && holds_id(self.queued, id)),
            !(holds_id(self.pool, id) && holds_id(held(self.in_storage), id)),
            !(holds_id(held(self.filling), id) && holds_id(self.ready, id)),
            !(holds_id(held(self.filling), id) && holds_id(held(self.in_network), id)),
            !(holds_id(held(self.filling), id) && holds_id(self.queued, id)),
            !(holds_id(held(self.filling), id) && holds_id(held(self.in_storage), id)),
            !(holds_id(self.ready, id) && holds_id(held(self.in_network), id)),
            !(holds_id(self.ready, id) && holds_id(self.queued, id)),
            !(holds_id(self.ready, id) && holds_id(held(self.in_storage), id)),
            !(holds_id(held(self.in_network), id) && holds_id(self.queued, id)),
            !(holds_id(held(self.in_network), id) && holds_id(held(self.in_storage), id)),
            !(holds_id(self.queued, id) && holds_id(held(self.in_storage), id)),
    {
        self.lemma_ring_places();
        let ring = self.ring();
        let a = held(self.in_storage).len() as int;
        let b = a + self.queued.len();
        let c = b + held(self.in_network).len();
        let d = c + self.ready.len();
        let e = d + held(self.filling).len();
        if holds_id(ring, id) {
            let k = choose|k: int| 0 <= k < ring.len() && (#[trigger] ring[k]).id == id;
            if k < a {
                assert(held(self.in_storage)[0].id == id);
            } else if k < b {
                assert(self.queued[k - a].id == id);
            } else if k < c {
                assert(held(self.in_network)[0].id == id);
            } else if k < d {
                assert(self.ready[k - c].id == id);
            } else if k < e {
                assert(held(self.filling)[0].id == id);
            } else {
                assert(self.pool[k - e].id == id);
            }
        }
        if holds_id(held(self.in_storage), id) {
            assert(ring[0].id == id);
        }
        if holds_id(self.queued, id) {
            let i = choose|i: int| 0 <= i < self.queued.len() && (#[trigger] self.queued[i]).id == id;
            assert(ring[a + i].id == id);
        }
        if holds_id(held(self.in_network), id) {
            assert(ring[b].id == id);
        }
        if holds_id(self.ready, id) {
            let i = choose|i: int| 0 <= i < self.ready.len() && (#[trigger] self.ready[i]).id == id;
            assert(ring[c + i].id == id);
        }
        if holds_id(held(self.filling), id) {
            assert(ring[d].id == id);
        }
        if holds_id(self.pool, id) {
            let i = choose|i: int| 0 <= i < self.pool.len() && (#[trigger] self.pool[i]).id == id;
            assert(ring[e + i].id == id);
        }
        if holds_id(ring, id) {
            let k = choose|k: int| 0 <= k < ring.len() && (#[trigger] ring[k]).id == id;
            assert(ring[k].id < self.total);
        }
    }

    /// Backpressure: once every buffer is downstream of capture the pool is
    /// empty, so capture cannot take one and has to wait.
    pub proof fn lemma_backpressure(self)
        requires
            self.wf(),
            self.ready.len() + self.queued.len() + self.in_flight() == self.total,
        ensures
            self.pool.len() == 0,
            !self.can_acquire(),
    {
    }

    /// Backpressure ends with the first buffer that comes back: after a
    /// recycle the pool is not empty, and an idle capture stage can take from
    /// it at once.
    pub proof fn lemma_recycle_unblocks(self)
        requires
            self.wf(),
            self.can_recycle(),
        ensures
            self.recycle().pool.len() > 0,
            self.filling.is_none() ==> self.recycle().can_acquire(),
    {
    }

    /// Ordering: what the storage sink was handed is a leading part of what
    /// the network sink was handed, and that is a leading part of what was
    /// captured. Nothing overtakes, nothing is skipped.
    pub proof fn lemma_order_preserved(self)
        ensures
            is_prefix_of(self.stored(), self.sent()),
            is_prefix_of(self.sent(), self.captured()),
            is_prefix_of(self.stored(), self.captured()),
    {
        assert(self.sent().take(self.stored().len() as int) =~= self.stored());
        assert(self.captured().take(self.sent().len() as int) =~= self.sent());
        assert(self.captured().take(self.stored().len() as int) =~= self.stored());
    }

    /// The histories move only at their ends. Capture appends what it filled;
    /// the network sink takes the oldest capture not yet taken; the storage
    /// sink takes the oldest buffer the network sink has passed on; every
    /// other step leaves all three histories as they are.
    pub proof fn lemma_histories(self, samples: Seq<i16>)
        ensures
            self.filling.is_some() ==> {
                &&& self.fill(samples).captured() == self.captured().push(samples)
                &&& self.fill(samples).sent() == self.sent()
                &&& self.fill(samples).stored() == self.stored()
            },
            self.ready.len() > 0 && self.in_network.is_none() ==> {
                &&& self.start_network().captured() == self.captured()
                &&& self.start_network().sent() == self.sent().push(self.ready[0].samples)
                &&& self.start_network().sent() == self.captured().take(self.sent().len() as int + 1)
                &&& self.start_network().stored() == self.stored()
            },
            self.in_network.is_some() ==> {
                &&& self.finish_network().captured() == self.captured()
                &&& self.finish_network().sent() == self.sent()
                &&& self.finish_network().stored() == self.stored()
            },
            self.queued.len() > 0 && self.in_storage.is_none() ==> {
                &&& self.start_storage().captured() == self.captured()
                &&& self.start_storage().sent() == self.sent()
                &&& self.start_storage().stored() == self.stored().push(self.queued[0].samples)
                &&& self.start_storage().stored() == self.sent().take(self.stored().len() as int + 1)
            },
            self.in_storage.is_some() ==> {
                &&& self.recycle().captured() == self.captured()
                &&& self.recycle().sent() == self.sent()
                &&& self.recycle().stored() == self.stored()
            },
            self.pool.len() > 0 ==> {
                &&& self.acquire().captured() == self.captured()
                &&& self.acquire().sent() == self.sent()
                &&& self.acquire().stored() == self.stored()
            },
            self.close().captured() == self.captured(),
            self.close().sent() == self.sent(),
            self.close().stored() == self.stored(),
    {
        if self.filling.is_some() {
            let after = self.fill(samples);
            assert(after.captured() =~= self.captured().push(samples));
        }
        if self.ready.len() > 0 && self.in_network.is_none() {
            let after = self.start_network();
            assert(after.sent() =~= self.sent().push(self.ready[0].samples));
            assert(after.captured() =~= self.captured());
            assert(after.sent() =~= self.captured().take(self.sent().len() as int + 1));
        }
        if self.in_network.is_some() {
            let after = self.finish_network();
            assert(after.sent() =~= self.sent());
            assert(after.captured() =~= self.captured());
        }
        if self.queued.len() > 0 && self.in_storage.is_none() {
            let after = self.start_storage();
            assert(after.stored() =~= self.stored().push(self.queued[0].samples));
            assert(after.sent() =~= self.sent());
            assert(after.captured() =~= self.captured());
            assert(after.stored() =~= self.sent().take(self.stored().len() as int + 1));
        }
        if self.in_storage.is_some() {
            let after = self.recycle();
            assert(after.stored() =~= self.stored());
            assert(after.sent() =~= self.sent());
            assert(after.captured() =~= self.captured());
        }
        if self.pool.len() > 0 {
            let after = self.acquire();
            assert(after.captured() =~= self.captured());
        }
    }

    /// Nothing stale travels: a buffer that is idle or being filled holds no
    /// samples, so the samples of a buffer handed on are those of the capture
    /// that filled it and no others; a capture of nothing hands nothing on.
    pub proof fn lemma_nothing_stale(self, samples: Seq<i16>)
        requires
            self.wf(),
            self.can_fill(samples),
        ensures
            self.filling.unwrap().samples == Seq::<i16>::empty(),
            forall|i: int| 0 <= i < self.pool.len() ==> (#[trigger] self.pool[i]).samples
                == Seq::<i16>::empty(),
            self.fill(samples).ready.last().samples == samples,
            self.fill(samples).captured().last() == samples,
            self.fill(samples).ready.len() == self.ready.len() + 1,
    {
        assert(self.filling.unwrap().samples =~= Seq::<i16>::empty());
        assert forall|i: int| 0 <= i < self.pool.len() implies (#[trigger] self.pool[i]).samples
            == Seq::<i16>::empty() by {
            assert(self.pool[i].samples =~= Seq::<i16>::empty());
        }
        self.lemma_histories(samples);
    }
}

} // verus!
