use esp_audio_streamer::codec::to_le_bytes;
use esp_audio_streamer::error::PipelineError;
use esp_audio_streamer::sample_buffer::SampleBuffer;

#[test]
fn new_buffer_is_empty() {
    let buffer = SampleBuffer::new(7, 512);
    assert_eq!(buffer.id(), 7);
    assert_eq!(buffer.capacity(), 512);
    assert_eq!(buffer.len(), 0);
    assert!(buffer.is_empty());
    assert!(buffer.samples().is_empty());
}

#[test]
fn capture_decodes_little_endian() {
    let mut buffer = SampleBuffer::new(0, 8);
    let raw = [0x01, 0x00, 0xFE, 0xFF, 0x34, 0x12];
    assert_eq!(buffer.capture_into(&raw, 6), Ok(3));
    assert_eq!(buffer.samples(), &[1, -2, 0x1234]);
    assert_eq!(buffer.len(), 3);
    assert!(!buffer.is_empty());
    assert_eq!(buffer.id(), 0);
    assert_eq!(buffer.capacity(), 8);
}

#[test]
fn capture_takes_only_the_bytes_read() {
    let mut buffer = SampleBuffer::new(0, 8);
    let raw = [1, 0, 2, 0, 3, 0, 4, 0];
    assert_eq!(buffer.capture_into(&raw, 4), Ok(2));
    assert_eq!(buffer.samples(), &[1, 2]);
}

#[test]
fn capture_stops_at_capacity() {
    let mut buffer = SampleBuffer::new(0, 2);
    let raw = [1, 0, 2, 0, 3, 0, 4, 0];
    assert_eq!(buffer.capture_into(&raw, 8), Ok(2));
    assert_eq!(buffer.samples(), &[1, 2]);
    assert_eq!(buffer.len(), buffer.capacity());
}

#[test]
fn capture_of_nothing_empties_the_buffer() {
    let mut buffer = SampleBuffer::new(0, 4);
    assert_eq!(buffer.capture_into(&[9, 0, 8, 0], 4), Ok(2));
    assert_eq!(buffer.capture_into(&[9, 0, 8, 0], 0), Ok(0));
    assert_eq!(buffer.len(), 0);
    assert!(buffer.samples().is_empty());
}

#[test]
fn a_shorter_capture_hides_the_longer_one_before_it() {
    let mut buffer = SampleBuffer::new(0, 4);
    assert_eq!(buffer.capture_into(&[1, 0, 2, 0, 3, 0], 6), Ok(3));
    assert_eq!(buffer.capture_into(&[7, 0], 2), Ok(1));
    assert_eq!(buffer.samples(), &[7]);
}

#[test]
fn capture_of_an_odd_byte_count_is_malformed() {
    let mut buffer = SampleBuffer::new(0, 4);
    assert_eq!(buffer.capture_into(&[1, 0, 2, 0], 4), Ok(2));
    assert_eq!(buffer.capture_into(&[5, 0, 6, 0], 3), Err(PipelineError::MalformedCapture));
    assert_eq!(buffer.samples(), &[1, 2]);
    assert_eq!(buffer.capture_into(&[5, 0, 6, 0], 1), Err(PipelineError::MalformedCapture));
}

#[test]
fn capture_beyond_the_raw_buffer_is_malformed() {
    let mut buffer = SampleBuffer::new(0, 4);
    assert_eq!(buffer.capture_into(&[5, 0], 4), Err(PipelineError::MalformedCapture));
    assert_eq!(buffer.capture_into(&[], 2), Err(PipelineError::MalformedCapture));
    assert_eq!(buffer.len(), 0);
}

#[test]
fn capture_into_a_buffer_of_no_capacity_takes_nothing() {
    let mut buffer = SampleBuffer::new(0, 0);
    assert_eq!(buffer.capture_into(&[1, 0], 2), Ok(0));
    assert!(buffer.is_empty());
}

#[test]
fn range_is_relative_to_the_valid_samples() {
    let mut buffer = SampleBuffer::new(0, 8);
    let raw = to_le_bytes(&[10, 11, 12, 13, 14]);
    assert_eq!(buffer.capture_into(&raw, raw.len()), Ok(5));
    assert_eq!(buffer.range(0, 5), &[10, 11, 12, 13, 14]);
    assert_eq!(buffer.range(2, 4), &[12, 13]);
    assert_eq!(buffer.range(4, 5), &[14]);
    assert!(buffer.range(3, 3).is_empty());
}

#[test]
fn clear_keeps_identity_and_capacity() {
    let mut buffer = SampleBuffer::new(3, 4);
    assert_eq!(buffer.capture_into(&[1, 0, 2, 0], 4), Ok(2));
    buffer.clear();
    assert_eq!(buffer.len(), 0);
    assert_eq!(buffer.id(), 3);
    assert_eq!(buffer.capacity(), 4);
    assert!(buffer.samples().is_empty());
}
