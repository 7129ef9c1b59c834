use esp_audio_streamer::error::PipelineError;

#[test]
fn every_condition_has_its_own_text() {
    let all = [
        PipelineError::PipelineClosed,
        PipelineError::MalformedCapture,
        PipelineError::WouldBlock,
        PipelineError::StageBusy,
        PipelineError::StageIdle,
        PipelineError::FrameTooSmall,
    ];
    for (i, a) in all.iter().enumerate() {
        assert!(!a.describe().is_empty());
        for (j, b) in all.iter().enumerate() {
            assert_eq!(a.describe() == b.describe(), i == j);
            assert_eq!(a == b, i == j);
        }
    }
    assert_eq!(PipelineError::PipelineClosed.describe(), "pipeline closed");
    assert_eq!(PipelineError::MalformedCapture.describe(), "malformed capture");
}
