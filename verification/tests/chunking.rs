use esp_audio_streamer::chunking::{count_chunks, frame_samples, next_chunk_len};

#[test]
fn frame_samples_rounds_down() {
    assert_eq!(frame_samples(1024), 512);
    assert_eq!(frame_samples(1400), 700);
    assert_eq!(frame_samples(5), 2);
    assert_eq!(frame_samples(2), 1);
    assert_eq!(frame_samples(1), 0);
    assert_eq!(frame_samples(0), 0);
}

#[test]
fn next_chunk_is_a_full_frame_or_what_is_left() {
    assert_eq!(next_chunk_len(512, 1024), 512);
    assert_eq!(next_chunk_len(513, 1024), 512);
    assert_eq!(next_chunk_len(511, 1024), 511);
    assert_eq!(next_chunk_len(1, 1024), 1);
    assert_eq!(next_chunk_len(0, 1024), 0);
    assert_eq!(next_chunk_len(10, 1), 0);
    assert_eq!(next_chunk_len(usize::MAX, usize::MAX), usize::MAX / 2);
}

#[test]
fn chunk_count_is_the_rounded_up_quotient() {
    assert_eq!(count_chunks(512, 1024), 1);
    assert_eq!(count_chunks(513, 1024), 2);
    assert_eq!(count_chunks(1024, 1024), 2);
    assert_eq!(count_chunks(1025, 1024), 3);
    assert_eq!(count_chunks(1, 1024), 1);
    assert_eq!(count_chunks(0, 1024), 0);
    assert_eq!(count_chunks(700, 1400), 1);
    assert_eq!(count_chunks(7, 2), 7);
}

#[test]
fn chunk_count_matches_ceil_of_bytes_over_an_even_budget() {
    for fill in 0..200usize {
        for half in 1..40usize {
            let budget = 2 * half;
            let expected = (2 * fill + budget - 1) / budget;
            assert_eq!(count_chunks(fill, budget), expected);
        }
    }
}

#[test]
fn an_odd_budget_counts_by_the_bytes_it_can_carry() {
    assert_eq!(count_chunks(5, 3), 5);
    assert_eq!(count_chunks(5, 5), 3);
    for fill in 0..200usize {
        for half in 1..40usize {
            let budget = 2 * half + 1;
            let usable = budget - 1;
            assert_eq!(count_chunks(fill, budget), (2 * fill + usable - 1) / usable);
        }
    }
}

#[test]
fn a_budget_below_one_sample_gives_no_chunks() {
    assert_eq!(count_chunks(10, 0), 0);
    assert_eq!(count_chunks(10, 1), 0);
}

#[test]
fn chunk_count_does_not_overflow_at_the_limits() {
    assert_eq!(count_chunks(usize::MAX, 2), usize::MAX);
    assert_eq!(count_chunks(usize::MAX, 4), usize::MAX / 2 + 1);
    assert_eq!(count_chunks(usize::MAX, usize::MAX), 3);
}

#[test]
fn stepping_by_chunk_length_takes_chunk_count_steps() {
    for fill in 0..100usize {
        for budget in 2..30usize {
            let mut offset = 0;
            let mut steps = 0;
            while offset < fill {
                let len = next_chunk_len(fill - offset, budget);
                assert!(len >= 1);
                assert!(len <= budget / 2);
                offset += len;
                steps += 1;
            }
            assert_eq!(offset, fill);
            assert_eq!(steps, count_chunks(fill, budget));
        }
    }
}
