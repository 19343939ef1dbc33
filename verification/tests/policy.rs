use task_queue::supervisor::{
    compute_timeout, failure_message, is_large_job, poll_step, progress_estimate, stage_message,
    stage_progress, climb_message, timeout_message, PollDecision, TranscriptionStage,
    validate_risk_payload, validate_transcription_payload,
};
use task_queue::task::{TaskPayload, TaskType};

const MB: u64 = 1024 * 1024;

#[test]
fn timeout_base_is_five_minutes() {
    assert_eq!(compute_timeout(0, 0), 300);
    assert_eq!(compute_timeout(50 * MB, 0), 300);
    assert_eq!(compute_timeout(0, 30 * 60), 300);
}

#[test]
fn timeout_grows_with_input_size() {
    // one minute more per 50 MB beyond the first 50 MB
    assert_eq!(compute_timeout(100 * MB, 0), 360);
    assert_eq!(compute_timeout(150 * MB, 0), 420);
    // pro rata for a partial step: 75 MB is half a step beyond 50 MB
    assert_eq!(compute_timeout(75 * MB, 0), 330);
}

#[test]
fn timeout_grows_with_estimated_duration() {
    // two minutes more per 30 minutes beyond the first 30 minutes
    assert_eq!(compute_timeout(0, 60 * 60), 420);
    assert_eq!(compute_timeout(0, 90 * 60), 540);
    // both surcharges add up
    assert_eq!(compute_timeout(100 * MB, 60 * 60), 480);
}

#[test]
fn timeout_is_capped_at_thirty_minutes() {
    assert_eq!(compute_timeout(100_000 * MB, 0), 1800);
    assert_eq!(compute_timeout(0, 100 * 3600), 1800);
    assert_eq!(compute_timeout(u64::MAX, u64::MAX), 1800);
}

#[test]
fn large_job_criterion() {
    assert!(!is_large_job(100 * MB, 60 * 60));
    assert!(is_large_job(101 * MB, 0));
    assert!(is_large_job(0, 61 * 60));
    assert!(!is_large_job(0, 0));
}

#[test]
fn poll_step_times_out_past_the_budget() {
    match poll_step(301, 300, false) {
        PollDecision::TimedOut { message } => {
            assert_eq!(message, "Transcription timed out after 5 minutes");
        }
        _ => panic!("the budget was spent"),
    }
    match poll_step(1801, 1800, true) {
        PollDecision::TimedOut { message } => {
            assert_eq!(
                message,
                "Large file processing timed out after 30 minutes. \
                 Consider splitting the file into smaller segments."
            );
        }
        _ => panic!("the budget was spent"),
    }
}

#[test]
fn poll_step_climbs_and_throttles() {
    match poll_step(0, 300, false) {
        PollDecision::Continue { progress, broadcast } => {
            assert_eq!(progress, 35);
            assert!(broadcast);
        }
        _ => panic!("the budget was not spent"),
    }
    match poll_step(150, 300, false) {
        PollDecision::Continue { progress, broadcast } => {
            assert_eq!(progress, 60);
            assert!(broadcast);
        }
        _ => panic!("the budget was not spent"),
    }
    match poll_step(152, 300, false) {
        PollDecision::Continue { broadcast, .. } => assert!(!broadcast),
        _ => panic!("the budget was not spent"),
    }
    // the synthetic climb never passes 90
    match poll_step(300, 300, false) {
        PollDecision::Continue { progress, .. } => assert_eq!(progress, 85),
        _ => panic!("the budget was not spent"),
    }
    match poll_step(1800, 1800, false) {
        PollDecision::Continue { progress, .. } => assert_eq!(progress, 85),
        _ => panic!("the budget was not spent"),
    }
}

#[test]
fn progress_estimate_is_monotone_in_time() {
    let mut last = 0;
    for elapsed in [0u64, 10, 50, 100, 200, 250, 299, 300] {
        let p = progress_estimate(elapsed, 300);
        assert!(p >= last);
        assert!((35..=90).contains(&p));
        last = p;
    }
}

#[test]
fn timeout_message_wording() {
    assert_eq!(timeout_message(360, false), "Transcription timed out after 6 minutes");
    assert_eq!(
        timeout_message(420, true),
        "Large file processing timed out after 7 minutes. \
         Consider splitting the file into smaller segments."
    );
}

#[test]
fn transcription_payload_validation() {
    let mut p = TaskPayload::empty();
    match validate_transcription_payload(&p) {
        Err(e) => assert_eq!(e, "Missing file_path in payload"),
        Ok(_) => panic!("a missing file path must be rejected"),
    }

    p.file_path = Some("a.wav".to_string());
    let params = validate_transcription_payload(&p).unwrap();
    assert_eq!(params.file_path, "a.wav");
    assert_eq!(params.backend, "auto");
    assert!(params.language.is_none());

    p.backend = Some("gpu".to_string());
    p.language = Some("th".to_string());
    let params = validate_transcription_payload(&p).unwrap();
    assert_eq!(params.backend, "gpu");
    assert_eq!(params.language.as_deref(), Some("th"));
}

#[test]
fn risk_payload_validation() {
    let p = TaskPayload::empty();
    match validate_risk_payload(&p) {
        Err(e) => assert_eq!(e, "Missing text in payload"),
        Ok(_) => panic!("a missing text must be rejected"),
    }
    let mut p = TaskPayload::empty();
    p.text = Some("words".to_string());
    assert_eq!(validate_risk_payload(&p).unwrap(), "words");
}

#[test]
fn failure_messages_name_the_task_kind() {
    assert_eq!(
        failure_message(TaskType::Transcription, "boom"),
        "Transcription failed: boom"
    );
    assert_eq!(
        failure_message(TaskType::RiskAnalysis, "LLM unavailable"),
        "Risk analysis failed: LLM unavailable"
    );
}

#[test]
fn transcription_checkpoints() {
    assert_eq!(stage_progress(TranscriptionStage::Validated), 5);
    assert_eq!(stage_progress(TranscriptionStage::Preprocessed), 10);
    assert_eq!(stage_progress(TranscriptionStage::EngineReady), 20);
    assert_eq!(stage_progress(TranscriptionStage::Started), 30);
    assert_eq!(stage_progress(TranscriptionStage::ResultReceived), 95);
    assert_eq!(stage_message(TranscriptionStage::Validated), "Audio file loaded and validated");
    assert_eq!(stage_message(TranscriptionStage::Started), "Starting transcription process");
    assert_eq!(stage_message(TranscriptionStage::ResultReceived), "Finalizing transcription");
}

#[test]
fn climb_messages_by_band() {
    assert_eq!(climb_message(40), "Processing audio segments");
    assert_eq!(climb_message(60), "Running speech recognition");
    assert_eq!(climb_message(80), "Post-processing results");
    assert_eq!(climb_message(90), "Preparing final output");
    assert_eq!(climb_message(10), "Transcribing audio");
}
