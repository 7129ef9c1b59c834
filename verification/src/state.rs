//! The life cycle of one buffer: a single lane from the pool through capture
//! and both sinks back to the pool, with shutdown reachable from anywhere.

use vstd::prelude::*;

verus! {

/// Where a buffer stands in its cycle.
#[derive(Clone, Copy, Debug, PartialEq, Eq, Structural)]
pub enum BufferState {
    /// Idle in the pool.
    Empty,
    /// Owned by the capture stage and being filled.
    Filling,
    /// Filled and queued for the network sink.
    Ready,
    /// Owned by the network sink.
    InNetworkSink,
    /// Handed to the storage sink.
    InStorageSink,
    /// Done with both sinks and on its way back to the pool.
    Recycling,
    /// The pipeline has shut down; the buffer is abandoned where it was.
    Closed,
}

/// What happens to a buffer.
#[derive(Clone, Copy, Debug, PartialEq, Eq, Structural)]
pub enum BufferEvent {
    /// The capture stage took the buffer from the pool.
    Acquired,
    /// The capture stage filled the buffer and handed it on.
    Filled,
    /// The network sink took the buffer from its queue.
    NetworkStarted,
    /// The network sink is done and handed the buffer to the storage sink.
    NetworkFinished,
    /// The storage sink is done with the buffer.
    StorageFinished,
    /// The buffer arrived back in the pool.
    Recycled,
    /// A stage reported a fatal condition.
    Fatal,
}

/// The state that follows `state` on `event`, if the event is allowed there.
pub open spec fn next_state(state: BufferState, event: BufferEvent) -> Option<BufferState> {
    match (state, event) {
        (BufferState::Closed, _) => None,
        (_, BufferEvent::Fatal) => Some(BufferState::Closed),
        (BufferState::Empty, BufferEvent::Acquired) => Some(BufferState::Filling),
        (BufferState::Filling, BufferEvent::Filled) => Some(BufferState::Ready),
        (BufferState::Ready, BufferEvent::NetworkStarted) => Some(BufferState::InNetworkSink),
        (BufferState::InNetworkSink, BufferEvent::NetworkFinished) => Some(
            BufferState::InStorageSink,
        ),
        (BufferState::InStorageSink, BufferEvent::StorageFinished) => Some(BufferState::Recycling),
        (BufferState::Recycling, BufferEvent::Recycled) => Some(BufferState::Empty),
        _ => None,
    }
}

/// The one event, other than a fatal condition, that is allowed in `state`.
pub open spec fn expected_event(state: BufferState) -> Option<BufferEvent> {
    match state {
        BufferState::Empty => Some(BufferEvent::Acquired),
        BufferState::Filling => Some(BufferEvent::Filled),
        BufferState::Ready => Some(BufferEvent::NetworkStarted),
        BufferState::InNetworkSink => Some(BufferEvent::NetworkFinished),
        BufferState::InStorageSink => Some(BufferEvent::StorageFinished),
        BufferState::Recycling => Some(BufferEvent::Recycled),
        BufferState::Closed => None,
    }
}

/// The cycle is a single lane: in every state exactly one ordinary event is
/// allowed, a fatal condition closes any state but the closed one, and
/// nothing leaves the closed state.
pub proof fn lemma_single_lane(state: BufferState, event: BufferEvent)
    ensures
        next_state(state, event).is_some() <==> state != BufferState::Closed && (event
            == BufferEvent::Fatal || expected_event(state) == Some(event)),
        next_state(state, event) == Some(BufferState::Closed) <==> state != BufferState::Closed
            && event == BufferEvent::Fatal,
{
}

/// A buffer enters `Filling` from `Empty` and from nowhere else.
pub proof fn lemma_filling_only_from_empty(state: BufferState, event: BufferEvent)
    requires
        next_state(state, event) == Some(BufferState::Filling),
    ensures
        state == BufferState::Empty,
        event == BufferEvent::Acquired,
{
}

/// Six ordinary steps lead from the pool through every stage, in order, back
/// to the pool.
pub proof fn lemma_full_cycle()
    ensures
        next_state(BufferState::Empty, BufferEvent::Acquired) == Some(BufferState::Filling),
        next_state(BufferState::Filling, BufferEvent::Filled) == Some(BufferState::Ready),
        next_state(BufferState::Ready, BufferEvent::NetworkStarted) == Some(
            BufferState::InNetworkSink,
        ),
        next_state(BufferState::InNetworkSink, BufferEvent::NetworkFinished) == Some(
            BufferState::InStorageSink,
        ),
        next_state(BufferState::InStorageSink, BufferEvent::StorageFinished) == Some(
            BufferState::Recycling,
        ),
        next_state(BufferState::Recycling, BufferEvent::Recycled) == Some(BufferState::Empty),
{
}

impl BufferState {
    /// Whether no event leads out of the state.
    pub fn is_terminal(self) -> (terminal: bool)
        ensures
            terminal == (self == BufferState::Closed),
    {
        match self {
            BufferState::Closed => true,
            _ => false,
        }
    }

    /// The state after `event`, or none where the event is not allowed.
    pub fn step(self, event: BufferEvent) -> (next: Option<BufferState>)
        ensures
            next == next_state(self, event),
    {
        match (self, event) {
            (BufferState::Closed, _) => None,
            (_, BufferEvent::Fatal) => Some(BufferState::Closed),
            (BufferState::Empty, BufferEvent::Acquired) => Some(BufferState::Filling),
            (BufferState::Filling, BufferEvent::Filled) => Some(BufferState::Ready),
            (BufferState::Ready, BufferEvent::NetworkStarted) => Some(BufferState::InNetworkSink),
            (BufferState::InNetworkSink, BufferEvent::NetworkFinished) => Some(
                BufferState::InStorageSink,
            ),
            (BufferState::InStorageSink, BufferEvent::StorageFinished) => Some(
                BufferState::Recycling,
            ),
            (BufferState::Recycling, BufferEvent::Recycled) => Some(BufferState::Empty),
            _ => None,
        }
    }
}

} // verus!
