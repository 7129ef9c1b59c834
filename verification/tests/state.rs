use esp_audio_streamer::state::{BufferEvent, BufferState};

fn states() -> [BufferState; 7] {
    [
        BufferState::Empty,
        BufferState::Filling,
        BufferState::Ready,
        BufferState::InNetworkSink,
        BufferState::InStorageSink,
        BufferState::Recycling,
        BufferState::Closed,
    ]
}

fn events() -> [BufferEvent; 7] {
    [
        BufferEvent::Acquired,
        BufferEvent::Filled,
        BufferEvent::NetworkStarted,
        BufferEvent::NetworkFinished,
        BufferEvent::StorageFinished,
        BufferEvent::Recycled,
        BufferEvent::Fatal,
    ]
}

#[test]
fn the_cycle_runs_in_one_lane() {
    let mut state = BufferState::Empty;
    let lane = [
        (BufferEvent::Acquired, BufferState::Filling),
        (BufferEvent::Filled, BufferState::Ready),
        (BufferEvent::NetworkStarted, BufferState::InNetworkSink),
        (BufferEvent::NetworkFinished, BufferState::InStorageSink),
        (BufferEvent::StorageFinished, BufferState::Recycling),
        (BufferEvent::Recycled, BufferState::Empty),
    ];
    for (event, expected) in lane {
        state = state.step(event).unwrap();
        assert_eq!(state, expected);
    }
    assert_eq!(state, BufferState::Empty);
}

#[test]
fn each_state_allows_one_ordinary_event() {
    for (i, state) in states().iter().enumerate() {
        for (j, event) in events().iter().enumerate() {
            let next = state.step(*event);
            if *state == BufferState::Closed {
                assert_eq!(next, None);
            } else if *event == BufferEvent::Fatal {
                assert_eq!(next, Some(BufferState::Closed));
            } else if i == j {
                assert_eq!(next, Some(states()[(i + 1) % 6]));
            } else {
                assert_eq!(next, None);
            }
        }
    }
}

#[test]
fn no_stage_is_skipped() {
    assert_eq!(BufferState::Ready.step(BufferEvent::NetworkFinished), None);
    assert_eq!(BufferState::Ready.step(BufferEvent::StorageFinished), None);
    assert_eq!(BufferState::InNetworkSink.step(BufferEvent::Recycled), None);
    assert_eq!(BufferState::Filling.step(BufferEvent::Recycled), None);
}

#[test]
fn filling_is_entered_only_from_empty() {
    for state in states() {
        for event in events() {
            if state.step(event) == Some(BufferState::Filling) {
                assert_eq!(state, BufferState::Empty);
                assert_eq!(event, BufferEvent::Acquired);
            }
        }
    }
}

#[test]
fn closed_is_terminal() {
    for state in states() {
        assert_eq!(state.is_terminal(), state == BufferState::Closed);
    }
    for event in events() {
        assert_eq!(BufferState::Closed.step(event), None);
    }
}

#[test]
fn a_fatal_condition_closes_from_anywhere() {
    for state in states() {
        if state != BufferState::Closed {
            assert_eq!(state.step(BufferEvent::Fatal), Some(BufferState::Closed));
        }
    }
}
