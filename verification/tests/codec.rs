use esp_audio_streamer::codec::{
    convert_disk_to_host_samples, convert_network_to_host_samples, decode_samples, join_sample,
    split_sample, to_disk_bytes, to_le_bytes, to_network_bytes, ByteOrder, SerializationResult,
    SAMPLE_WIDTH,
};

#[test]
fn sample_width_is_two_bytes() {
    assert_eq!(SAMPLE_WIDTH, 2);
    assert_eq!(SAMPLE_WIDTH, std::mem::size_of::<i16>());
}

#[test]
fn split_sample_gives_high_then_low() {
    assert_eq!(split_sample(0x1234), (0x12, 0x34));
    assert_eq!(split_sample(0), (0, 0));
    assert_eq!(split_sample(1), (0, 1));
    assert_eq!(split_sample(-1), (0xFF, 0xFF));
    assert_eq!(split_sample(-2), (0xFF, 0xFE));
    assert_eq!(split_sample(i16::MAX), (0x7F, 0xFF));
    assert_eq!(split_sample(i16::MIN), (0x80, 0x00));
    assert_eq!(split_sample(256), (1, 0));
    assert_eq!(split_sample(-256), (0xFF, 0x00));
}

#[test]
fn join_sample_reads_high_then_low() {
    assert_eq!(join_sample(0x12, 0x34), 0x1234);
    assert_eq!(join_sample(0xFF, 0xFF), -1);
    assert_eq!(join_sample(0x80, 0x00), i16::MIN);
    assert_eq!(join_sample(0x7F, 0xFF), i16::MAX);
    assert_eq!(join_sample(0x00, 0x80), 128);
    assert_eq!(join_sample(0x80, 0x01), -32767);
}

#[test]
fn split_and_join_agree_with_std_for_every_sample() {
    let mut value = i16::MIN;
    loop {
        let (high, low) = split_sample(value);
        assert_eq!([high, low], value.to_be_bytes());
        assert_eq!([low, high], value.to_le_bytes());
        assert_eq!(join_sample(high, low), value);
        if value == i16::MAX {
            break;
        }
        value += 1;
    }
}

#[test]
fn join_agrees_with_std_for_every_byte_pair() {
    for high in 0..=255u8 {
        for low in 0..=255u8 {
            let sample = join_sample(high, low);
            assert_eq!(sample, i16::from_be_bytes([high, low]));
            assert_eq!(split_sample(sample), (high, low));
        }
    }
}

#[test]
fn network_bytes_are_big_endian() {
    let mut out = SerializationResult::new(1024);
    to_network_bytes(&[1, -2, 0x1234, i16::MIN], &mut out);
    assert_eq!(out.as_bytes(), &[0x00, 0x01, 0xFF, 0xFE, 0x12, 0x34, 0x80, 0x00]);
    assert_eq!(out.size_bytes(), 8);
    assert_eq!(out.capacity_bytes(), 1024);
}

#[test]
fn disk_bytes_are_little_endian() {
    let mut out = SerializationResult::new(1024);
    to_disk_bytes(&[1, -2, 0x1234, i16::MIN], &mut out);
    assert_eq!(out.as_bytes(), &[0x01, 0x00, 0xFE, 0xFF, 0x34, 0x12, 0x00, 0x80]);
    assert_eq!(out.size_bytes(), 8);
}

#[test]
fn network_and_disk_forms_differ_for_the_same_samples() {
    let samples = [0x0102i16, 0x0304];
    let mut wire = SerializationResult::new(16);
    let mut disk = SerializationResult::new(16);
    to_network_bytes(&samples, &mut wire);
    to_disk_bytes(&samples, &mut disk);
    assert_eq!(wire.as_bytes(), &[1, 2, 3, 4]);
    assert_eq!(disk.as_bytes(), &[2, 1, 4, 3]);
    assert_ne!(wire.as_bytes(), disk.as_bytes());
}

#[test]
fn encoding_stops_at_the_capacity() {
    let mut out = SerializationResult::new(4);
    to_network_bytes(&[10, 20, 30], &mut out);
    assert_eq!(out.as_bytes(), &[0, 10, 0, 20]);
    assert_eq!(out.size_bytes(), 4);
}

#[test]
fn an_odd_capacity_leaves_its_last_byte_unused() {
    let mut out = SerializationResult::new(5);
    to_disk_bytes(&[10, 20, 30], &mut out);
    assert_eq!(out.as_bytes(), &[10, 0, 20, 0]);
    assert_eq!(out.capacity_bytes(), 5);
}

#[test]
fn a_capacity_below_one_sample_holds_nothing() {
    let mut none = SerializationResult::new(0);
    to_network_bytes(&[7, 8], &mut none);
    assert_eq!(none.size_bytes(), 0);
    let mut one = SerializationResult::new(1);
    to_network_bytes(&[7, 8], &mut one);
    assert_eq!(one.size_bytes(), 0);
    assert!(one.as_bytes().is_empty());
}

#[test]
fn encoding_no_samples_leaves_nothing_of_the_previous_frame() {
    let mut out = SerializationResult::new(8);
    to_network_bytes(&[1, 2, 3], &mut out);
    assert_eq!(out.size_bytes(), 6);
    to_network_bytes(&[], &mut out);
    assert_eq!(out.size_bytes(), 0);
    assert!(out.as_bytes().is_empty());
}

#[test]
fn a_shorter_frame_replaces_a_longer_one() {
    let mut out = SerializationResult::new(8);
    to_disk_bytes(&[1, 2, 3, 4], &mut out);
    to_disk_bytes(&[9], &mut out);
    assert_eq!(out.as_bytes(), &[9, 0]);
}

#[test]
fn write_samples_follows_the_given_order() {
    let mut out = SerializationResult::new(4);
    out.write_samples(ByteOrder::BigEndian, &[0x0A0B]);
    assert_eq!(out.as_bytes(), &[0x0A, 0x0B]);
    out.write_samples(ByteOrder::LittleEndian, &[0x0A0B]);
    assert_eq!(out.as_bytes(), &[0x0B, 0x0A]);
}

#[test]
fn clear_empties_and_keeps_capacity() {
    let mut out = SerializationResult::new(6);
    to_network_bytes(&[5, 6], &mut out);
    out.clear();
    assert_eq!(out.size_bytes(), 0);
    assert_eq!(out.capacity_bytes(), 6);
}

#[test]
fn new_scratch_is_empty() {
    let out = SerializationResult::new(1024);
    assert_eq!(out.size_bytes(), 0);
    assert_eq!(out.capacity_bytes(), 1024);
    assert!(out.as_bytes().is_empty());
}

#[test]
fn network_decoder_reads_big_endian() {
    assert_eq!(
        convert_network_to_host_samples(&[0x00, 0x01, 0xFF, 0xFE, 0x12, 0x34]),
        vec![1, -2, 0x1234]
    );
}

#[test]
fn disk_decoder_reads_little_endian() {
    assert_eq!(
        convert_disk_to_host_samples(&[0x01, 0x00, 0xFE, 0xFF, 0x34, 0x12]),
        vec![1, -2, 0x1234]
    );
}

#[test]
fn decoders_ignore_a_trailing_odd_byte() {
    assert_eq!(convert_network_to_host_samples(&[0x00, 0x05, 0x77]), vec![5]);
    assert_eq!(convert_disk_to_host_samples(&[0x05, 0x00, 0x77]), vec![5]);
    assert_eq!(convert_network_to_host_samples(&[0x42]), Vec::<i16>::new());
    assert_eq!(convert_network_to_host_samples(&[]), Vec::<i16>::new());
}

#[test]
fn decode_samples_follows_the_given_order() {
    assert_eq!(decode_samples(ByteOrder::BigEndian, &[1, 2]), vec![0x0102]);
    assert_eq!(decode_samples(ByteOrder::LittleEndian, &[1, 2]), vec![0x0201]);
}

#[test]
fn to_le_bytes_is_low_byte_first() {
    assert_eq!(to_le_bytes(&[1, -2, 0x1234]), vec![0x01, 0x00, 0xFE, 0xFF, 0x34, 0x12]);
    assert_eq!(to_le_bytes(&[]), Vec::<u8>::new());
}

fn known_samples() -> Vec<i16> {
    let mut samples: Vec<i16> = vec![0, 1, -1, 2, -2, 255, 256, -255, -256, i16::MAX, i16::MIN];
    let mut value: i16 = -30000;
    while value < 30000 {
        samples.push(value);
        value += 997;
    }
    samples
}

#[test]
fn network_round_trip_reproduces_the_samples() {
    let samples = known_samples();
    let mut out = SerializationResult::new(2 * samples.len());
    to_network_bytes(&samples, &mut out);
    assert_eq!(out.size_bytes(), 2 * samples.len());
    assert_eq!(convert_network_to_host_samples(out.as_bytes()), samples);
}

#[test]
fn disk_round_trip_reproduces_the_samples() {
    let samples = known_samples();
    let mut out = SerializationResult::new(2 * samples.len());
    to_disk_bytes(&samples, &mut out);
    assert_eq!(convert_disk_to_host_samples(out.as_bytes()), samples);
    assert_eq!(convert_disk_to_host_samples(&to_le_bytes(&samples)), samples);
}

#[test]
fn receiver_rewrites_wire_bytes_as_file_bytes() {
    let samples = known_samples();
    let mut wire = SerializationResult::new(2 * samples.len());
    to_network_bytes(&samples, &mut wire);
    let received = convert_network_to_host_samples(wire.as_bytes());
    let mut disk = SerializationResult::new(2 * samples.len());
    to_disk_bytes(&samples, &mut disk);
    assert_eq!(to_le_bytes(&received), disk.as_bytes());
}

#[test]
fn bytes_round_trip_through_samples() {
    let bytes: Vec<u8> = (0..=255u8).collect();
    let be = convert_network_to_host_samples(&bytes);
    let mut out = SerializationResult::new(256);
    to_network_bytes(&be, &mut out);
    assert_eq!(out.as_bytes(), &bytes[..]);
    let le = convert_disk_to_host_samples(&bytes);
    assert_eq!(to_le_bytes(&le), bytes);
}
