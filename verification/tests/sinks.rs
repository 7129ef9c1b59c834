use esp_audio_streamer::chunking::count_chunks;
use esp_audio_streamer::codec::{
    convert_disk_to_host_samples, convert_network_to_host_samples, to_le_bytes, ByteOrder,
    SerializationResult,
};
use esp_audio_streamer::error::PipelineError;
use esp_audio_streamer::sample_buffer::SampleBuffer;
use esp_audio_streamer::sink::{encode_chunk, encode_frames, NetworkSink, StorageSink};
use esp_audio_streamer::throughput::ThroughputCounter;

fn filled(capacity: usize, samples: &[i16]) -> SampleBuffer {
    let mut buffer = SampleBuffer::new(0, capacity);
    let raw = to_le_bytes(samples);
    assert_eq!(buffer.capture_into(&raw, raw.len()), Ok(samples.len()));
    buffer
}

fn ramp(count: usize) -> Vec<i16> {
    (0..count).map(|i| (i as i16).wrapping_mul(37).wrapping_sub(1000)).collect()
}

#[test]
fn sinks_refuse_a_budget_below_one_sample() {
    assert!(matches!(NetworkSink::new(0, true), Err(PipelineError::FrameTooSmall)));
    assert!(matches!(NetworkSink::new(1, true), Err(PipelineError::FrameTooSmall)));
    assert!(matches!(StorageSink::new(0, 100, 0), Err(PipelineError::FrameTooSmall)));
    assert!(matches!(StorageSink::new(1, 100, 0), Err(PipelineError::FrameTooSmall)));
    assert!(NetworkSink::new(2, true).is_ok());
    assert!(StorageSink::new(2, 100, 0).is_ok());
}

#[test]
fn chunk_upper_bound_is_relative_to_its_offset() {
    let samples = [10, 11, 12, 13, 14];
    let buffer = filled(8, &samples);
    let mut sink = NetworkSink::new(4, true).unwrap();
    assert_eq!(sink.next_frame(&buffer, 0), 2);
    assert_eq!(sink.frame_bytes(), &[0, 10, 0, 11]);
    assert_eq!(sink.next_frame(&buffer, 2), 4);
    assert_eq!(sink.frame_bytes(), &[0, 12, 0, 13]);
    assert_eq!(sink.next_frame(&buffer, 4), 5);
    assert_eq!(sink.frame_bytes(), &[0, 14]);
    assert_eq!(sink.next_frame(&buffer, 5), 5);
    assert!(sink.frame_bytes().is_empty());
}

#[test]
fn a_chunk_may_start_anywhere() {
    let buffer = filled(8, &[10, 11, 12, 13, 14]);
    let mut sink = StorageSink::new(6, 100, 0).unwrap();
    assert_eq!(sink.next_frame(&buffer, 1), 4);
    assert_eq!(sink.frame_bytes(), &[11, 0, 12, 0, 13, 0]);
    assert_eq!(sink.next_frame(&buffer, 9), 9);
    assert!(sink.frame_bytes().is_empty());
}

#[test]
fn encode_chunk_follows_the_order() {
    let buffer = filled(4, &[0x0102, 0x0304, 0x0506]);
    let mut scratch = SerializationResult::new(4);
    assert_eq!(encode_chunk(ByteOrder::BigEndian, &buffer, 0, &mut scratch), 2);
    assert_eq!(scratch.as_bytes(), &[1, 2, 3, 4]);
    assert_eq!(encode_chunk(ByteOrder::LittleEndian, &buffer, 2, &mut scratch), 3);
    assert_eq!(scratch.as_bytes(), &[6, 5]);
    assert_eq!(encode_chunk(ByteOrder::LittleEndian, &buffer, 3, &mut scratch), 3);
    assert_eq!(scratch.size_bytes(), 0);
}

#[test]
fn a_full_buffer_splits_into_the_expected_frames() {
    let samples = ramp(512);
    let buffer = filled(512, &samples);
    for budget in [1024usize, 1000, 512, 100, 64, 6, 4, 2] {
        let mut sink = NetworkSink::new(budget, true).unwrap();
        let frames = sink.process(&buffer);
        assert_eq!(frames.len(), (512 * 2 + budget - 1) / budget);
        let last = frames.len() - 1;
        for (i, frame) in frames.iter().enumerate() {
            if i < last {
                assert_eq!(frame.len(), budget);
            } else {
                assert!(frame.len() >= 2 && frame.len() <= budget);
            }
        }
        let stream: Vec<u8> = frames.concat();
        assert_eq!(convert_network_to_host_samples(&stream), samples);
    }
}

#[test]
fn frames_of_an_odd_budget_still_cover_the_buffer() {
    let samples = ramp(5);
    let buffer = filled(5, &samples);
    let mut sink = NetworkSink::new(3, true).unwrap();
    let frames = sink.process(&buffer);
    assert_eq!(frames.len(), 5);
    for frame in frames.iter() {
        assert_eq!(frame.len(), 2);
    }
    assert_eq!(convert_network_to_host_samples(&frames.concat()), samples);
}

#[test]
fn one_frame_when_the_buffer_fits_the_budget() {
    let samples = ramp(512);
    let buffer = filled(512, &samples);
    let mut sink = NetworkSink::new(1024, true).unwrap();
    let frames = sink.process(&buffer);
    assert_eq!(frames.len(), 1);
    assert_eq!(frames[0].len(), 1024);
    assert_eq!(convert_network_to_host_samples(&frames[0]), samples);
}

#[test]
fn a_partly_filled_buffer_sends_only_its_valid_samples() {
    let samples = ramp(300);
    let buffer = filled(512, &samples);
    let mut sink = NetworkSink::new(256, true).unwrap();
    let frames = sink.process(&buffer);
    assert_eq!(frames.len(), 3);
    assert_eq!(frames[0].len(), 256);
    assert_eq!(frames[1].len(), 256);
    assert_eq!(frames[2].len(), 88);
    assert_eq!(convert_network_to_host_samples(&frames.concat()), samples);
}

#[test]
fn an_empty_buffer_gives_no_frames() {
    let buffer = SampleBuffer::new(0, 16);
    let mut network = NetworkSink::new(8, true).unwrap();
    assert!(network.process(&buffer).is_empty());
    let mut storage = StorageSink::new(8, 100, 0).unwrap();
    assert!(storage.process(&buffer).is_empty());
    assert_eq!(storage.counter().samples, 0);
}

#[test]
fn encode_frames_matches_stepwise_encoding() {
    let samples = ramp(23);
    let buffer = filled(32, &samples);
    let mut scratch = SerializationResult::new(10);
    let frames = encode_frames(ByteOrder::LittleEndian, &buffer, &mut scratch);
    assert_eq!(frames.len(), count_chunks(23, 10));
    let mut step = SerializationResult::new(10);
    let mut offset = 0;
    let mut index = 0;
    while offset < buffer.len() {
        offset = encode_chunk(ByteOrder::LittleEndian, &buffer, offset, &mut step);
        assert_eq!(step.as_bytes(), &frames[index][..]);
        index += 1;
    }
    assert_eq!(index, frames.len());
    assert_eq!(convert_disk_to_host_samples(&frames.concat()), samples);
}

#[test]
fn an_unresolved_destination_discards_every_frame() {
    let buffer = filled(8, &[1, 2, 3]);
    let mut sink = NetworkSink::new(4, false).unwrap();
    assert!(!sink.destination_resolved());
    assert!(sink.process(&buffer).is_empty());
    sink.set_destination_resolved(true);
    assert!(sink.destination_resolved());
    assert_eq!(sink.process(&buffer), vec![vec![0, 1, 0, 2], vec![0, 3]]);
}

#[test]
fn storage_frames_are_little_endian() {
    let buffer = filled(8, &[1, 2, 3]);
    let mut sink = StorageSink::new(4, 100, 0).unwrap();
    assert_eq!(sink.process(&buffer), vec![vec![1, 0, 2, 0], vec![3, 0]]);
}

#[test]
fn storage_counts_what_was_appended() {
    let buffer = filled(8, &[1, 2, 3, 4, 5]);
    let mut sink = StorageSink::new(4, 100, 50).unwrap();
    assert_eq!(sink.counter(), ThroughputCounter { bytes: 0, samples: 0, window_start_ms: 50 });
    let mut offset = sink.next_frame(&buffer, 0);
    assert_eq!(sink.counter().samples, 0);
    sink.frame_appended();
    assert_eq!(sink.counter().samples, 2);
    assert_eq!(sink.counter().bytes, 4);
    offset = sink.next_frame(&buffer, offset);
    sink.frame_appended();
    offset = sink.next_frame(&buffer, offset);
    sink.frame_appended();
    assert_eq!(offset, 5);
    assert_eq!(sink.counter(), ThroughputCounter { bytes: 10, samples: 5, window_start_ms: 50 });
}

#[test]
fn process_counts_the_whole_buffer() {
    let buffer = filled(8, &[1, 2, 3, 4, 5]);
    let mut sink = StorageSink::new(4, 100, 0).unwrap();
    let frames = sink.process(&buffer);
    assert_eq!(frames.len(), 3);
    assert_eq!(sink.counter().samples, 5);
    assert_eq!(sink.counter().bytes, 10);
    sink.process(&buffer);
    assert_eq!(sink.counter().samples, 10);
    assert_eq!(sink.counter().bytes, 20);
}

#[test]
fn checkpoint_is_due_only_above_the_threshold() {
    let buffer = filled(8, &[1, 2, 3, 4, 5]);
    let mut sink = StorageSink::new(1024, 10, 1_000).unwrap();
    assert_eq!(sink.threshold(), 10);
    sink.process(&buffer);
    assert_eq!(sink.checkpoint(2_000), None);
    sink.process(&buffer);
    assert_eq!(sink.counter().samples, 10);
    assert_eq!(sink.checkpoint(3_000), None);
    assert_eq!(sink.counter().window_start_ms, 1_000);
    sink.process(&buffer);
    let report = sink.checkpoint(4_000).unwrap();
    assert_eq!(report.samples, 15);
    assert_eq!(report.bytes, 30);
    assert_eq!(report.elapsed_ms, 3_000);
    assert_eq!(report.samples_per_second(), Some(5));
    assert_eq!(sink.counter(), ThroughputCounter { bytes: 0, samples: 0, window_start_ms: 4_000 });
    assert_eq!(sink.checkpoint(5_000), None);
}

#[test]
fn checkpoint_after_a_hundred_thousand_samples() {
    let samples = ramp(512);
    let buffer = filled(512, &samples);
    let mut sink = StorageSink::new(1024, 100_000, 0).unwrap();
    let mut buffers = 0;
    loop {
        sink.process(&buffer);
        buffers += 1;
        if let Some(report) = sink.checkpoint(10_000) {
            assert_eq!(buffers, 196);
            assert_eq!(report.samples, 196 * 512);
            assert_eq!(report.bytes, 196 * 1024);
            assert_eq!(report.samples_per_second(), Some(10_035));
            break;
        }
        assert!(buffers < 196);
    }
}
