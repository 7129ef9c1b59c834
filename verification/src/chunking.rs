//! Partition of a buffer's valid samples into consecutive chunks that each fit
//! one frame of a given byte budget.

use vstd::prelude::*;
use vstd::arithmetic::div_mod::{
    lemma_fundamental_div_mod,
    lemma_fundamental_div_mod_converse,
    lemma_mod_bound,
};
use vstd::arithmetic::mul::lemma_mul_inequality;
use crate::codec::{
    decode,
    encode,
    lemma_disk_round_trip,
    lemma_encode_be_concat,
    lemma_encode_le_concat,
    lemma_network_round_trip,
    ByteOrder,
    SAMPLE_WIDTH,
};

verus! {

/// Whole samples that fit in a frame of `budget_bytes` bytes.
pub open spec fn samples_per_frame(budget_bytes: nat) -> nat {
    budget_bytes / 2
}

/// Length in samples of the next chunk when `remaining` samples are left.
pub open spec fn chunk_len(remaining: nat, budget_bytes: nat) -> nat {
    if remaining <= samples_per_frame(budget_bytes) {
        remaining
    } else {
        samples_per_frame(budget_bytes)
    }
}

/// Number of chunks into which `fill` samples are split: `fill` divided by the
/// samples per frame, rounded up.
pub open spec fn chunk_count(fill: nat, budget_bytes: nat) -> nat {
    let per = samples_per_frame(budget_bytes);
    if per == 0 {
        0
    } else {
        ((fill + per - 1) / (per as int)) as nat
    }
}

/// Index of the first sample of chunk `index`.
pub open spec fn chunk_start(index: nat, budget_bytes: nat) -> nat {
    index * samples_per_frame(budget_bytes)
}

/// Index one past the last sample of chunk `index`: relative to the chunk's
/// own start, and never beyond the fill count.
pub open spec fn chunk_end(index: nat, fill: nat, budget_bytes: nat) -> nat {
    let start = chunk_start(index, budget_bytes);
    if start >= fill {
        fill
    } else {
        start + chunk_len((fill - start) as nat, budget_bytes)
    }
}

/// The samples of chunk `index`.
pub open spec fn chunk(samples: Seq<i16>, index: nat, budget_bytes: nat) -> Seq<i16> {
    samples.subrange(
        chunk_start(index, budget_bytes) as int,
        chunk_end(index, samples.len(), budget_bytes) as int,
    )
}

/// All chunks of a run of samples, in order.
pub open spec fn chunks(samples: Seq<i16>, budget_bytes: nat) -> Seq<Seq<i16>> {
    Seq::new(
        chunk_count(samples.len(), budget_bytes),
        |i: int| chunk(samples, i as nat, budget_bytes),
    )
}

/// The frames of a run of samples: each chunk in the given byte order.
pub open spec fn frames(order: ByteOrder, samples: Seq<i16>, budget_bytes: nat) -> Seq<Seq<u8>> {
    Seq::new(
        chunk_count(samples.len(), budget_bytes),
        |i: int| encode(order, chunk(samples, i as nat, budget_bytes)),
    )
}

/// The chunk count brackets the fill count: all chunks but the last are full
/// and the last holds at least one sample.
pub proof fn lemma_chunk_count_bounds(fill: nat, budget_bytes: nat)
    requires
        budget_bytes >= 2,
    ensures
        chunk_count(fill, budget_bytes) == 0 <==> fill == 0,
        fill <= chunk_count(fill, budget_bytes) * samples_per_frame(budget_bytes),
        fill > 0 ==> (chunk_count(fill, budget_bytes) - 1) * samples_per_frame(budget_bytes)
            < fill,
{
    let per = samples_per_frame(budget_bytes) as int;
    let x = fill + per - 1;
    let q = x / per;
    let r = x % per;
    lemma_fundamental_div_mod(x, per);
    lemma_mod_bound(x, per);
    assert(x == per * q + r);
    assert(q >= 0) by (nonlinear_arith)
        requires
            x == per * q + r,
            x >= 0,
            per > 0,
            0 <= r < per,
    ;
    assert(per * q == q * per && (q - 1) * per == q * per - per) by (nonlinear_arith);
}

/// With an even byte budget `F` the chunk count is `ceil(2 * fill / F)`. For
/// any budget it is that quotient taken over the bytes a frame can actually
/// carry, which is `F` less its odd byte.
pub proof fn lemma_chunk_count_formula(fill: nat, budget_bytes: nat)
    requires
        budget_bytes >= 2,
    ensures
        chunk_count(fill, budget_bytes) == (2 * fill + (budget_bytes - budget_bytes % 2) - 1) / (
        (budget_bytes - budget_bytes % 2) as int),
        budget_bytes % 2 == 0 ==> chunk_count(fill, budget_bytes) == (2 * fill + budget_bytes - 1)
            / (budget_bytes as int),
{
    let per = samples_per_frame(budget_bytes) as int;
    let usable = budget_bytes - budget_bytes % 2;
    assert(usable == 2 * per);
    let x = fill + per - 1;
    let q = x / per;
    let r = x % per;
    lemma_fundamental_div_mod(x, per);
    lemma_mod_bound(x, per);
    assert(2 * fill + usable - 1 == q * usable + (2 * r + 1)) by (nonlinear_arith)
        requires
            x == per * q + r,
            x == fill + per - 1,
            usable == 2 * per,
    ;
    lemma_fundamental_div_mod_converse(2 * fill + usable - 1, usable, q, 2 * r + 1);
    lemma_chunk_count_bounds(fill, budget_bytes);
}

/// Every chunk starts inside the run, holds at least one sample and at most a
/// frame's worth; every chunk but the last is full; each starts where the one
/// before it ended, and the last ends at the fill count.
pub proof fn lemma_chunk_shape(fill: nat, budget_bytes: nat, index: nat)
    requires
        budget_bytes >= 2,
        index < chunk_count(fill, budget_bytes),
    ensures
        chunk_start(index, budget_bytes) < chunk_end(index, fill, budget_bytes) <= fill,
        chunk_end(index, fill, budget_bytes) - chunk_start(index, budget_bytes)
            <= samples_per_frame(budget_bytes),
        index + 1 < chunk_count(fill, budget_bytes) ==> chunk_end(index, fill, budget_bytes)
            - chunk_start(index, budget_bytes) == samples_per_frame(budget_bytes),
        index + 1 < chunk_count(fill, budget_bytes) ==> chunk_end(index, fill, budget_bytes)
            == chunk_start(index + 1, budget_bytes),
        index + 1 == chunk_count(fill, budget_bytes) ==> chunk_end(index, fill, budget_bytes)
            == fill,
{
    let per = samples_per_frame(budget_bytes) as int;
    let count = chunk_count(fill, budget_bytes) as int;
    lemma_chunk_count_bounds(fill, budget_bytes);
    lemma_mul_inequality(index as int, count - 1, per);
    assert((index + 1) * per == index * per + per) by (nonlinear_arith);
    if index + 1 < count {
        lemma_mul_inequality(index as int + 1, count - 1, per);
    } else {
        assert(count * per == (count - 1) * per + per) by (nonlinear_arith);
    }
}

/// The first `upto` chunks, laid end to end, are the samples up to the start
/// of chunk `upto`.
proof fn lemma_chunks_prefix(samples: Seq<i16>, budget_bytes: nat, upto: nat)
    requires
        budget_bytes >= 2,
        upto <= chunk_count(samples.len(), budget_bytes),
    ensures
        upto < chunk_count(samples.len(), budget_bytes) ==> chunks(samples, budget_bytes).take(
            upto as int,
        ).flatten() == samples.take(chunk_start(upto, budget_bytes) as int),
        upto == chunk_count(samples.len(), budget_bytes) ==> chunks(samples, budget_bytes).take(
            upto as int,
        ).flatten() == samples,
    decreases upto,
{
    let all = chunks(samples, budget_bytes);
    if upto == 0 {
        assert(all.take(0) =~= Seq::<Seq<i16>>::empty());
        assert(all.take(0).flatten() =~= Seq::<i16>::empty());
        lemma_chunk_count_bounds(samples.len(), budget_bytes);
        assert(samples.take(0) =~= Seq::<i16>::empty());
        if chunk_count(samples.len(), budget_bytes) == 0 {
            assert(samples =~= Seq::<i16>::empty());
        }
    } else {
        let last = (upto - 1) as nat;
        lemma_chunks_prefix(samples, budget_bytes, last);
        lemma_chunk_shape(samples.len(), budget_bytes, last);
        assert(all.take(upto as int) =~= all.take(last as int).push(all[last as int]));
        all.take(last as int).lemma_flatten_push(all[last as int]);
        let start = chunk_start(last, budget_bytes) as int;
        let end = chunk_end(last, samples.len(), budget_bytes) as int;
        assert(samples.take(start) + samples.subrange(start, end) =~= samples.take(end));
        assert(samples.take(samples.len() as int) =~= samples);
    }
}

/// Laying all chunks end to end reproduces the samples: nothing is dropped,
/// repeated or out of place.
pub proof fn lemma_chunks_cover(samples: Seq<i16>, budget_bytes: nat)
    requires
        budget_bytes >= 2,
    ensures
        chunks(samples, budget_bytes).flatten() == samples,
{
    let all = chunks(samples, budget_bytes);
    lemma_chunks_prefix(samples, budget_bytes, all.len());
    assert(all.take(all.len() as int) =~= all);
}

/// Encoding each part and laying the results end to end is encoding the parts
/// laid end to end.
pub proof fn lemma_encode_flatten(order: ByteOrder, parts: Seq<Seq<i16>>)
    ensures
        parts.map_values(|part: Seq<i16>| encode(order, part)).flatten() == encode(
            order,
            parts.flatten(),
        ),
    decreases parts.len(),
{
    let encoded = parts.map_values(|part: Seq<i16>| encode(order, part));
    if parts.len() == 0 {
        assert(parts.flatten() =~= Seq::<i16>::empty());
        assert(encoded.flatten() =~= Seq::<u8>::empty());
        assert(encode(order, Seq::<i16>::empty()) =~= Seq::<u8>::empty());
    } else {
        let front = parts.drop_last();
        lemma_encode_flatten(order, front);
        let front_encoded = front.map_values(|part: Seq<i16>| encode(order, part));
        assert(parts =~= front.push(parts.last()));
        assert(encoded =~= front_encoded.push(encode(order, parts.last())));
        front.lemma_flatten_push(parts.last());
        front_encoded.lemma_flatten_push(encode(order, parts.last()));
        match order {
            ByteOrder::BigEndian => lemma_encode_be_concat(front.flatten(), parts.last()),
            ByteOrder::LittleEndian => lemma_encode_le_concat(front.flatten(), parts.last()),
        }
    }
}

/// The frames of a run of samples, laid end to end, are the encoding of the
/// whole run, and decoding that stream reproduces the samples exactly.
pub proof fn lemma_frames_cover(order: ByteOrder, samples: Seq<i16>, budget_bytes: nat)
    requires
        budget_bytes >= 2,
    ensures
        frames(order, samples, budget_bytes).len() == chunk_count(samples.len(), budget_bytes),
        frames(order, samples, budget_bytes).flatten() == encode(order, samples),
        decode(order, frames(order, samples, budget_bytes).flatten()) == samples,
{
    let parts = chunks(samples, budget_bytes);
    assert(frames(order, samples, budget_bytes) =~= parts.map_values(
        |part: Seq<i16>| encode(order, part),
    ));
    lemma_encode_flatten(order, parts);
    lemma_chunks_cover(samples, budget_bytes);
    match order {
        ByteOrder::BigEndian => lemma_network_round_trip(samples),
        ByteOrder::LittleEndian => lemma_disk_round_trip(samples),
    }
}

/// Whole samples that fit in a frame of `budget_bytes` bytes.
pub fn frame_samples(budget_bytes: usize) -> (per: usize)
    ensures
        per == samples_per_frame(budget_bytes as nat),
{
    budget_bytes / SAMPLE_WIDTH
}

/// Length of the next chunk when `remaining` samples are left.
pub fn next_chunk_len(remaining: usize, budget_bytes: usize) -> (len: usize)
    ensures
        len == chunk_len(remaining as nat, budget_bytes as nat),
{
    let per: usize = frame_samples(budget_bytes);
    if remaining <= per {
        remaining
    } else {
        per
    }
}

/// Number of chunks into which `fill` samples are split.
pub fn count_chunks(fill: usize, budget_bytes: usize) -> (count: usize)
    ensures
        count == chunk_count(fill as nat, budget_bytes as nat),
{
    let per: usize = frame_samples(budget_bytes);
    if per == 0 {
        return 0;
    }
    let whole: usize = fill / per;
    let rest: usize = fill % per;
    proof {
        lemma_fundamental_div_mod(fill as int, per as int);
        assert(per * whole == whole * per) by (nonlinear_arith);
        if rest == 0 {
            lemma_fundamental_div_mod_converse(
                fill + per - 1,
                per as int,
                whole as int,
                per - 1,
            );
        } else {
            assert((whole + 1) * per == whole * per + per) by (nonlinear_arith);
            lemma_fundamental_div_mod_converse(
                fill + per - 1,
                per as int,
                whole + 1,
                rest - 1,
            );
            assert(whole < usize::MAX) by (nonlinear_arith)
                requires
                    fill == whole * per + rest,
                    0 < rest < per,
                    fill <= usize::MAX,
                    whole >= 0,
            ;
        }
    }
    if rest == 0 {
        whole
    } else {
        whole + 1
    }
}

} // verus!
