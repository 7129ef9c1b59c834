//! Byte layouts of 16-bit signed samples: big-endian on the wire, little-endian
//! at rest and as delivered by the sampling peripheral.

use vstd::prelude::*;

verus! {

/// Bytes occupied by one sample in every layout handled here.
pub const SAMPLE_WIDTH: usize = 2;

/// The 16-bit word holding the two's-complement bit pattern of `s`.
pub open spec fn word_of(s: i16) -> int {
    if s >= 0 {
        s as int
    } else {
        s as int + 65536
    }
}

/// The most significant byte of a sample.
pub open spec fn high_byte(s: i16) -> u8 {
    (word_of(s) / 256) as u8
}

/// The least significant byte of a sample.
pub open spec fn low_byte(s: i16) -> u8 {
    (word_of(s) % 256) as u8
}

/// The sample whose most and least significant bytes are `high` and `low`.
pub open spec fn sample_of(high: u8, low: u8) -> i16 {
    let word = high as int * 256 + low as int;
    if word < 32768 {
        word as i16
    } else {
        (word - 65536) as i16
    }
}

/// Wire layout: two bytes per sample, high byte first.
pub open spec fn encode_be(samples: Seq<i16>) -> Seq<u8> {
    Seq::new(
        2 * samples.len(),
        |i: int|
            if i % 2 == 0 {
                high_byte(samples[i / 2])
            } else {
                low_byte(samples[i / 2])
            },
    )
}

/// At-rest layout: two bytes per sample, low byte first.
pub open spec fn encode_le(samples: Seq<i16>) -> Seq<u8> {
    Seq::new(
        2 * samples.len(),
        |i: int|
            if i % 2 == 0 {
                low_byte(samples[i / 2])
            } else {
                high_byte(samples[i / 2])
            },
    )
}

/// Samples read from a big-endian byte stream; a trailing odd byte is ignored.
pub open spec fn decode_be(bytes: Seq<u8>) -> Seq<i16> {
    Seq::new((bytes.len() / 2) as nat, |i: int| sample_of(bytes[2 * i], bytes[2 * i + 1]))
}

/// Samples read from a little-endian byte stream; a trailing odd byte is ignored.
pub open spec fn decode_le(bytes: Seq<u8>) -> Seq<i16> {
    Seq::new((bytes.len() / 2) as nat, |i: int| sample_of(bytes[2 * i + 1], bytes[2 * i]))
}

/// Splitting a sample into bytes and joining them again gives the sample back.
pub proof fn lemma_sample_round_trip(s: i16)
    ensures
        sample_of(high_byte(s), low_byte(s)) == s,
{
}

/// Joining two bytes into a sample and splitting it again gives the bytes back.
pub proof fn lemma_bytes_round_trip(high: u8, low: u8)
    ensures
        high_byte(sample_of(high, low)) == high,
        low_byte(sample_of(high, low)) == low,
{
}

/// Decoding the wire form of a sample sequence reproduces the sequence exactly.
pub proof fn lemma_network_round_trip(samples: Seq<i16>)
    ensures
        decode_be(encode_be(samples)) == samples,
{
    let bytes = encode_be(samples);
    assert forall|i: int| 0 <= i < samples.len() implies decode_be(bytes)[i] == samples[i] by {
        lemma_sample_round_trip(samples[i]);
        assert(bytes[2 * i] == high_byte(samples[i]));
        assert(bytes[2 * i + 1] == low_byte(samples[i]));
    }
    assert(decode_be(bytes) =~= samples);
}

/// Decoding the at-rest form of a sample sequence reproduces the sequence exactly.
pub proof fn lemma_disk_round_trip(samples: Seq<i16>)
    ensures
        decode_le(encode_le(samples)) == samples,
{
    let bytes = encode_le(samples);
    assert forall|i: int| 0 <= i < samples.len() implies decode_le(bytes)[i] == samples[i] by {
        lemma_sample_round_trip(samples[i]);
        assert(bytes[2 * i] == low_byte(samples[i]));
        assert(bytes[2 * i + 1] == high_byte(samples[i]));
    }
    assert(decode_le(bytes) =~= samples);
}

/// Encoding what was decoded from a whole number of big-endian samples gives
/// the bytes back.
pub proof fn lemma_network_bytes_round_trip(bytes: Seq<u8>)
    requires
        bytes.len() % 2 == 0,
    ensures
        encode_be(decode_be(bytes)) == bytes,
{
    let samples = decode_be(bytes);
    assert forall|i: int| 0 <= i < bytes.len() implies encode_be(samples)[i] == bytes[i] by {
        let k = i / 2;
        lemma_bytes_round_trip(bytes[2 * k], bytes[2 * k + 1]);
    }
    assert(encode_be(samples) =~= bytes);
}

/// Encoding what was decoded from a whole number of little-endian samples
/// gives the bytes back.
pub proof fn lemma_disk_bytes_round_trip(bytes: Seq<u8>)
    requires
        bytes.len() % 2 == 0,
    ensures
        encode_le(decode_le(bytes)) == bytes,
{
    let samples = decode_le(bytes);
    assert forall|i: int| 0 <= i < bytes.len() implies encode_le(samples)[i] == bytes[i] by {
        let k = i / 2;
        lemma_bytes_round_trip(bytes[2 * k + 1], bytes[2 * k]);
    }
    assert(encode_le(samples) =~= bytes);
}

/// The wire form of two runs of samples laid end to end is the wire form of
/// the first followed by that of the second.
pub proof fn lemma_encode_be_concat(a: Seq<i16>, b: Seq<i16>)
    ensures
        encode_be(a + b) == encode_be(a) + encode_be(b),
{
    assert(encode_be(a + b) =~= encode_be(a) + encode_be(b));
}

/// The at-rest form of two runs of samples laid end to end is the at-rest form
/// of the first followed by that of the second.
pub proof fn lemma_encode_le_concat(a: Seq<i16>, b: Seq<i16>)
    ensures
        encode_le(a + b) == encode_le(a) + encode_le(b),
{
    assert(encode_le(a + b) =~= encode_le(a) + encode_le(b));
}

/// Splits a sample into its high and low byte.
pub fn split_sample(s: i16) -> (bytes: (u8, u8))
    ensures
        bytes.0 == high_byte(s),
        bytes.1 == low_byte(s),
{
    let word: i32 = if s >= 0 {
        s as i32
    } else {
        s as i32 + 65536
    };
    ((word / 256) as u8, (word % 256) as u8)
}

/// Joins a high and a low byte into the sample they encode.
pub fn join_sample(high: u8, low: u8) -> (s: i16)
    ensures
        s == sample_of(high, low),
{
    let word: i32 = high as i32 * 256 + low as i32;
    if word < 32768 {
        word as i16
    } else {
        (word - 65536) as i16
    }
}

/// The byte order of an external interface.
#[derive(Clone, Copy, Debug, PartialEq, Eq, Structural)]
pub enum ByteOrder {
    /// High byte first: the wire frame format.
    BigEndian,
    /// Low byte first: the at-rest file format and the peripheral's output.
    LittleEndian,
}

/// The byte form of a run of samples in the given order.
pub open spec fn encode(order: ByteOrder, samples: Seq<i16>) -> Seq<u8> {
    match order {
        ByteOrder::BigEndian => encode_be(samples),
        ByteOrder::LittleEndian => encode_le(samples),
    }
}

/// The samples held by a byte stream in the given order.
pub open spec fn decode(order: ByteOrder, bytes: Seq<u8>) -> Seq<i16> {
    match order {
        ByteOrder::BigEndian => decode_be(bytes),
        ByteOrder::LittleEndian => decode_le(bytes),
    }
}

/// How many samples of a run of `available` fit in `capacity_bytes` bytes.
pub open spec fn fitting_samples(available: nat, capacity_bytes: nat) -> nat {
    if available <= capacity_bytes / 2 {
        available
    } else {
        capacity_bytes / 2
    }
}

/// A reusable byte buffer of fixed capacity that holds the encoded form of one
/// frame. Its view is the run of bytes written by the last encoding.
pub struct SerializationResult {
    data: Vec<u8>,
    size_bytes: usize,
    capacity_bytes: usize,
}

impl View for SerializationResult {
    type V = Seq<u8>;

    closed spec fn view(&self) -> Seq<u8> {
        self.data@.take(self.size_bytes as int)
    }
}

impl SerializationResult {
    /// The backing storage has exactly the capacity and the valid run lies
    /// within it.
    pub closed spec fn wf(&self) -> bool {
        &&& self.data@.len() == self.capacity_bytes
        &&& self.size_bytes <= self.capacity_bytes
    }

    /// The fixed number of bytes the buffer can hold.
    pub closed spec fn capacity(&self) -> nat {
        self.capacity_bytes as nat
    }

    /// An empty buffer able to hold `capacity_bytes` bytes.
    pub fn new(capacity_bytes: usize) -> (r: Self)
        ensures
            r.wf(),
            r.capacity() == capacity_bytes,
            r@ == Seq::<u8>::empty(),
    {
        let mut data: Vec<u8> = Vec::with_capacity(capacity_bytes);
        let mut i: usize = 0;
        while i < capacity_bytes
            invariant
                i <= capacity_bytes,
                data@.len() == i,
            decreases capacity_bytes - i,
        {
            data.push(0u8);
            i += 1;
        }
        let r = SerializationResult { data, size_bytes: 0, capacity_bytes };
        assert(r@ =~= Seq::<u8>::empty());
        r
    }

    /// Number of valid bytes.
    pub fn size_bytes(&self) -> (n: usize)
        requires
            self.wf(),
        ensures
            n == self@.len(),
    {
        self.size_bytes
    }

    /// The fixed capacity in bytes.
    pub fn capacity_bytes(&self) -> (n: usize)
        ensures
            n == self.capacity(),
    {
        self.capacity_bytes
    }

    /// The valid bytes.
    pub fn as_bytes(&self) -> (bytes: &[u8])
        requires
            self.wf(),
        ensures
            bytes@ == self@,
    {
        let bytes = vstd::slice::slice_subrange(self.data.as_slice(), 0, self.size_bytes);
        assert(bytes@ =~= self@);
        bytes
    }

    /// Forgets the valid run; the capacity stays.
    pub fn clear(&mut self)
        requires
            old(self).wf(),
        ensures
            final(self).wf(),
            final(self).capacity() == old(self).capacity(),
            final(self)@ == Seq::<u8>::empty(),
    {
        self.size_bytes = 0;
        assert(self@ =~= Seq::<u8>::empty());
    }

    /// Encodes as many leading samples as fit, replacing the previous content.
    pub fn write_samples(&mut self, order: ByteOrder, samples: &[i16])
        requires
            old(self).wf(),
        ensures
            final(self).wf(),
            final(self).capacity() == old(self).capacity(),
            final(self)@ == encode(
                order,
                samples@.take(fitting_samples(samples@.len(), old(self).capacity()) as int),
            ),
    {
        let room: usize = self.capacity_bytes / 2;
        let count: usize = if samples.len() <= room {
            samples.len()
        } else {
            room
        };
        let ghost taken = samples@.take(count as int);
        let mut i: usize = 0;
        while i < count
            invariant
                i <= count,
                count <= samples@.len(),
                2 * count <= self.capacity_bytes,
                self.data@.len() == self.capacity_bytes,
                self.capacity_bytes == old(self).capacity_bytes,
                taken == samples@.take(count as int),
                forall|j: int| 0 <= j < 2 * i ==> self.data@[j] == encode(order, taken)[j],
            decreases count - i,
        {
            let (high, low) = split_sample(samples[i]);
            let (first, second) = match order {
                ByteOrder::BigEndian => (high, low),
                ByteOrder::LittleEndian => (low, high),
            };
            self.data.set(2 * i, first);
            self.data.set(2 * i + 1, second);
            i += 1;
        }
        self.size_bytes = 2 * count;
        assert(self@ =~= encode(order, taken));
    }
}

/// Converts samples to the wire layout (big-endian) into `output`, as many as
/// its capacity holds.
pub fn to_network_bytes(samples: &[i16], output: &mut SerializationResult)
    requires
        old(output).wf(),
    ensures
        final(output).wf(),
        final(output).capacity() == old(output).capacity(),
        final(output)@ == encode_be(
            samples@.take(fitting_samples(samples@.len(), old(output).capacity()) as int),
        ),
{
    output.write_samples(ByteOrder::BigEndian, samples);
}

/// Converts samples to the at-rest layout (little-endian) into `output`, as
/// many as its capacity holds.
pub fn to_disk_bytes(samples: &[i16], output: &mut SerializationResult)
    requires
        old(output).wf(),
    ensures
        final(output).wf(),
        final(output).capacity() == old(output).capacity(),
        final(output)@ == encode_le(
            samples@.take(fitting_samples(samples@.len(), old(output).capacity()) as int),
        ),
{
    output.write_samples(ByteOrder::LittleEndian, samples);
}

/// Reads the samples of a byte stream in the given order; a trailing odd byte
/// is ignored.
pub fn decode_samples(order: ByteOrder, data: &[u8]) -> (samples: Vec<i16>)
    ensures
        samples@ == decode(order, data@),
{
    let count: usize = data.len() / 2;
    let mut samples: Vec<i16> = Vec::with_capacity(count);
    let mut i: usize = 0;
    while i < count
        invariant
            i <= count,
            count == data@.len() / 2,
            2 * count <= data@.len() <= usize::MAX,
            samples@.len() == i,
            forall|j: int| 0 <= j < i ==> samples@[j] == decode(order, data@)[j],
        decreases count - i,
    {
        let sample = match order {
            ByteOrder::BigEndian => join_sample(data[2 * i], data[2 * i + 1]),
            ByteOrder::LittleEndian => join_sample(data[2 * i + 1], data[2 * i]),
        };
        samples.push(sample);
        i += 1;
    }
    assert(samples@ =~= decode(order, data@));
    samples
}

/// Decodes a received datagram payload: big-endian 16-bit samples.
pub fn convert_network_to_host_samples(data: &[u8]) -> (samples: Vec<i16>)
    ensures
        samples@ == decode_be(data@),
{
    decode_samples(ByteOrder::BigEndian, data)
}

/// Decodes a stretch of the at-rest file: little-endian 16-bit samples.
pub fn convert_disk_to_host_samples(data: &[u8]) -> (samples: Vec<i16>)
    ensures
        samples@ == decode_le(data@),
{
    decode_samples(ByteOrder::LittleEndian, data)
}

/// The little-endian byte form of a run of samples, freshly allocated.
pub fn to_le_bytes(samples: &[i16]) -> (bytes: Vec<u8>)
    ensures
        bytes@ == encode_le(samples@),
{
    let mut bytes: Vec<u8> = Vec::new();
    let mut i: usize = 0;
    while i < samples.len()
        invariant
            i <= samples@.len(),
            bytes@.len() == 2 * i,
            forall|j: int| 0 <= j < 2 * i ==> bytes@[j] == encode_le(samples@)[j],
        decreases samples@.len() - i,
    {
        let (high, low) = split_sample(samples[i]);
        bytes.push(low);
        bytes.push(high);
        i += 1;
    }
    assert(bytes@ =~= encode_le(samples@));
    bytes
}

} // verus!
