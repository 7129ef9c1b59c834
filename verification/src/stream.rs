//! The byte streams that leave the relay, and their order: what a receiver
//! reads from the datagrams, and what is read back from the file, is the
//! captured samples in capture order.

use vstd::prelude::*;
use vstd::seq_lib::lemma_flatten_concat;
use crate::chunking::{frames, lemma_encode_flatten, lemma_frames_cover};
use crate::codec::{
    decode,
    encode,
    lemma_disk_round_trip,
    lemma_network_round_trip,
    ByteOrder,
};
use crate::model::{is_prefix_of, PipelineView};

verus! {

/// The bytes a sink emits for a history of buffers: every frame of every
/// buffer, in order, laid end to end.
pub open spec fn wire_stream(order: ByteOrder, history: Seq<Seq<i16>>, budget_bytes: nat) -> Seq<
    u8,
> {
    history.map_values(
        |samples: Seq<i16>| frames(order, samples, budget_bytes).flatten(),
    ).flatten()
}

/// Framing leaves no trace in the stream: the bytes emitted for a history of
/// buffers are the encoding of all their samples in order, whatever the frame
/// budget, and decoding them gives those samples back.
pub proof fn lemma_wire_stream(order: ByteOrder, history: Seq<Seq<i16>>, budget_bytes: nat)
    requires
        budget_bytes >= 2,
    ensures
        wire_stream(order, history, budget_bytes) == encode(order, history.flatten()),
        decode(order, wire_stream(order, history, budget_bytes)) == history.flatten(),
{
    let framed = history.map_values(
        |samples: Seq<i16>| frames(order, samples, budget_bytes).flatten(),
    );
    let encoded = history.map_values(|part: Seq<i16>| encode(order, part));
    assert forall|i: int| 0 <= i < history.len() implies framed[i] == encoded[i] by {
        lemma_frames_cover(order, history[i], budget_bytes);
    }
    assert(framed =~= encoded);
    lemma_encode_flatten(order, history);
    match order {
        ByteOrder::BigEndian => lemma_network_round_trip(history.flatten()),
        ByteOrder::LittleEndian => lemma_disk_round_trip(history.flatten()),
    }
}

/// A leading part of a history, laid end to end, is a leading part of the
/// whole history laid end to end.
pub proof fn lemma_prefix_flatten<T>(shorter: Seq<Seq<T>>, longer: Seq<Seq<T>>)
    requires
        is_prefix_of(shorter, longer),
    ensures
        is_prefix_of(shorter.flatten(), longer.flatten()),
{
    let rest = longer.skip(shorter.len() as int);
    assert(longer =~= shorter + rest);
    lemma_flatten_concat(shorter, rest);
    assert((shorter.flatten() + rest.flatten()).take(shorter.flatten().len() as int)
        =~= shorter.flatten());
}

/// Ordering of the streams: at every instant, the samples a receiver decodes
/// from the datagrams emitted so far, and the samples read back from what was
/// appended to the file so far, are each a leading part of the samples
/// captured so far, in capture order.
pub proof fn lemma_streams_follow_capture(relay: PipelineView, budget_bytes: nat)
    requires
        budget_bytes >= 2,
    ensures
        is_prefix_of(
            decode(
                ByteOrder::BigEndian,
                wire_stream(ByteOrder::BigEndian, relay.sent(), budget_bytes),
            ),
            relay.captured().flatten(),
        ),
        is_prefix_of(
            decode(
                ByteOrder::LittleEndian,
                wire_stream(ByteOrder::LittleEndian, relay.stored(), budget_bytes),
            ),
            relay.captured().flatten(),
        ),
{
    relay.lemma_order_preserved();
    lemma_wire_stream(ByteOrder::BigEndian, relay.sent(), budget_bytes);
    lemma_wire_stream(ByteOrder::LittleEndian, relay.stored(), budget_bytes);
    lemma_prefix_flatten(relay.sent(), relay.captured());
    lemma_prefix_flatten(relay.stored(), relay.captured());
}

} // verus!
