use task_queue::event::{Event, EventKind};
use task_queue::queue::{TaskOutcome, TaskQueue};
use task_queue::render::{dec_string, format_bytes, validate_files};
use task_queue::task::{TaskPayload, TaskRequest, TaskResult, TaskStatus, TaskType};

fn pending_record(id: u64, at: u64) -> TaskResult {
    TaskResult {
        id,
        status: TaskStatus::Pending,
        created_at: at,
        updated_at: at,
        started_at: None,
        completed_at: None,
        result: None,
        error: None,
        progress: 0,
    }
}

fn processing_record(id: u64, started: u64, progress: u8) -> TaskResult {
    TaskResult {
        id,
        status: TaskStatus::Processing,
        created_at: started,
        updated_at: started,
        started_at: Some(started),
        completed_at: None,
        result: None,
        error: None,
        progress,
    }
}

fn completed_record(id: u64, at: u64) -> TaskResult {
    TaskResult {
        id,
        status: TaskStatus::Completed,
        created_at: at,
        updated_at: at,
        started_at: Some(at),
        completed_at: Some(at),
        result: Some("{}".to_string()),
        error: None,
        progress: 100,
    }
}

fn request_for(id: u64, task_type: TaskType, at: u64) -> TaskRequest {
    TaskRequest {
        id,
        task_type,
        created_at: at,
        updated_at: at,
        priority: 0,
        payload: TaskPayload::empty(),
    }
}

#[test]
fn recovery_requeues_interrupted_task_exactly_once() {
    // task 1 was waiting, task 2 was mid-run when the process died
    let results = vec![pending_record(1, 10), processing_record(2, 20, 35)];
    let requests = vec![
        request_for(1, TaskType::Transcription, 10),
        request_for(2, TaskType::Transcription, 20),
    ];
    let queue = vec![1];
    let mut q = TaskQueue::new(results, requests, queue, 100);

    // the interrupted task starts a fresh pending lifetime
    let recovered = q.get_task_status(2).unwrap();
    assert_eq!(recovered.status, TaskStatus::Pending);
    assert_eq!(recovered.progress, 0);
    assert!(recovered.started_at.is_none());
    assert_eq!(recovered.updated_at, 100);

    // exactly one queue entry per pending task, never two
    assert_eq!(q.queue_depth(), 2);
    let (first, _) = q.process_next_task(101).unwrap();
    assert_eq!(first.result.id, 1);
    let (second, _) = q.process_next_task(102).unwrap();
    assert_eq!(second.result.id, 2);
    assert!(q.process_next_task(103).is_none());
}

#[test]
fn recovery_keeps_terminal_records_and_drops_their_requests() {
    let results = vec![completed_record(5, 50), processing_record(7, 60, 80)];
    let requests = vec![
        request_for(5, TaskType::Transcription, 50),
        request_for(7, TaskType::RiskAnalysis, 60),
    ];
    let mut q = TaskQueue::new(results, requests, Vec::new(), 200);

    let done = q.get_task_status(5).unwrap();
    assert_eq!(done.status, TaskStatus::Completed);
    assert_eq!(done.progress, 100);
    assert!(q.get_task_request(5).is_none());
    assert!(q.get_task_request(7).is_some());
    assert_eq!(q.queue_depth(), 1);

    // fresh ids start above every persisted id
    let (new_id, _) = q.submit_task(TaskType::RiskAnalysis, TaskPayload::empty(), None, 201);
    assert_eq!(new_id, 8);
}

#[test]
fn recovery_requeues_pending_task_whose_queue_entry_was_lost() {
    let results = vec![pending_record(3, 30)];
    let requests = vec![request_for(3, TaskType::Transcription, 30)];
    let mut q = TaskQueue::new(results, requests, Vec::new(), 100);
    assert_eq!(q.queue_depth(), 1);
    let (first, _) = q.process_next_task(101).unwrap();
    assert_eq!(first.result.id, 3);
}

#[test]
fn stale_tasks_are_reaped_with_the_fixed_error() {
    let mut q = TaskQueue::new(Vec::new(), Vec::new(), Vec::new(), 0);
    let mut p = TaskPayload::empty();
    p.file_path = Some("a.wav".to_string());
    let (stuck, _) = q.submit_task(TaskType::Transcription, p.clone(), None, 0);
    let (fresh, _) = q.submit_task(TaskType::Transcription, p.clone(), None, 0);
    let (waiting, _) = q.submit_task(TaskType::Transcription, p, None, 0);

    let _ = q.process_next_task(0).unwrap(); // stuck starts at 0
    let _ = q.process_next_task(3000).unwrap(); // fresh starts at 3000

    // just at the threshold nothing is stale yet
    let (count, events) = q.cleanup_stale_tasks(3600);
    assert_eq!(count, 0);
    assert!(events.is_empty());

    // past the threshold only the old run is reaped
    let (count, events) = q.cleanup_stale_tasks(3601);
    assert_eq!(count, 1);
    assert_eq!(events.len(), 1);
    assert_eq!(events[0].kind, EventKind::TaskCompleted);
    assert_eq!(events[0].task_id, stuck);
    assert_eq!(events[0].message.as_deref(), Some("Task timed out and was cleaned up"));

    let reaped = q.get_task_status(stuck).unwrap();
    assert_eq!(reaped.status, TaskStatus::Failed);
    assert_eq!(reaped.error.as_deref(), Some("Task timed out and was cleaned up"));
    assert_eq!(reaped.completed_at, Some(3601));
    assert!(q.get_task_request(stuck).is_none());

    // unrelated tasks are unaffected
    assert_eq!(q.get_task_status(fresh).unwrap().status, TaskStatus::Processing);
    assert_eq!(q.get_task_status(waiting).unwrap().status, TaskStatus::Pending);
    assert!(q.get_task_request(fresh).is_some());
    assert!(q.get_task_request(waiting).is_some());
}

#[test]
fn auto_chain_skips_short_or_missing_text() {
    let mut q = TaskQueue::new(Vec::new(), Vec::new(), Vec::new(), 0);
    let source = TaskPayload::empty();

    // nine characters: skipped
    let (id, events) =
        q.auto_submit_risk_analysis(1, "{\"text\":\"ninechars\"}", &source, 10);
    assert!(id.is_none());
    assert!(events.is_empty());

    // no text field at all: skipped
    let (id, _) = q.auto_submit_risk_analysis(1, "{\"segments\":[]}", &source, 11);
    assert!(id.is_none());

    // not even a JSON document: skipped
    let (id, _) = q.auto_submit_risk_analysis(1, "garbage", &source, 12);
    assert!(id.is_none());

    // a text field that is not a string: skipped
    let (id, _) = q.auto_submit_risk_analysis(1, "{\"text\":12345678901}", &source, 13);
    assert!(id.is_none());

    let stats = q.get_queue_stats();
    assert_eq!(stats.total_tasks, 0);
    assert_eq!(q.queue_depth(), 0);

    // ten characters: exactly one submission
    let (id, events) =
        q.auto_submit_risk_analysis(1, "{\"text\":\"exactly 10\"}", &source, 14);
    let id = id.unwrap();
    assert_eq!(events.len(), 2);
    assert_eq!(q.get_queue_stats().total_tasks, 1);
    assert_eq!(q.queue_depth(), 1);
    let req = q.get_task_request(id).unwrap();
    assert_eq!(req.payload.text.as_deref(), Some("exactly 10"));
}

#[test]
fn observers_receive_every_broadcast_once() {
    let mut q = TaskQueue::new(Vec::new(), Vec::new(), Vec::new(), 0);
    q.add_websocket_session(11);
    q.add_websocket_session(22);
    q.add_websocket_session(11); // registering twice changes nothing

    let event = Event {
        kind: EventKind::QueueStatsUpdate,
        task_id: 0,
        status: None,
        progress: None,
        message: None,
        related_task_id: None,
        timestamp: 5,
    };
    let deliveries = q.broadcast_event(&event);
    assert_eq!(deliveries.len(), 2);
    assert_eq!(deliveries[0].observer, 11);
    assert_eq!(deliveries[1].observer, 22);
    assert_eq!(deliveries[0].event.kind, EventKind::QueueStatsUpdate);
    assert_eq!(deliveries[0].event.timestamp, 5);

    q.remove_websocket_session(11);
    let deliveries = q.broadcast_event(&event);
    assert_eq!(deliveries.len(), 1);
    assert_eq!(deliveries[0].observer, 22);

    q.remove_websocket_session(22);
    assert!(q.broadcast_event(&event).is_empty());
}

#[test]
fn byte_sizes_render_with_one_decimal() {
    assert_eq!(format_bytes(0), "0.0 B");
    assert_eq!(format_bytes(512), "512.0 B");
    assert_eq!(format_bytes(1023), "1023.0 B");
    assert_eq!(format_bytes(1024), "1.0 KB");
    assert_eq!(format_bytes(1536), "1.5 KB");
    assert_eq!(format_bytes(1024 * 1024), "1.0 MB");
    assert_eq!(format_bytes(5 * 1024 * 1024 + 256 * 1024), "5.2 MB");
    assert_eq!(format_bytes(1024 * 1024 * 1024), "1.0 GB");
    assert_eq!(format_bytes(u64::MAX), "17179869183.9 GB");
}

#[test]
fn decimal_rendering() {
    assert_eq!(dec_string(0), "0");
    assert_eq!(dec_string(7), "7");
    assert_eq!(dec_string(10), "10");
    assert_eq!(dec_string(1234567890), "1234567890");
    assert_eq!(dec_string(u64::MAX), "18446744073709551615");
}

#[test]
fn file_validation_names_the_missing_file() {
    assert!(validate_files("a.wav", "model.bin", true, true).is_ok());
    assert_eq!(
        validate_files("a.wav", "model.bin", false, true).unwrap_err(),
        "Audio file 'a.wav' not found"
    );
    // the audio file is checked first
    assert_eq!(
        validate_files("a.wav", "model.bin", false, false).unwrap_err(),
        "Audio file 'a.wav' not found"
    );
    assert_eq!(
        validate_files("a.wav", "model.bin", true, false).unwrap_err(),
        "Model file 'model.bin' not found"
    );
}

#[test]
fn completing_a_recovered_task_works_like_any_other() {
    let results = vec![processing_record(4, 40, 50)];
    let requests = vec![request_for(4, TaskType::RiskAnalysis, 40)];
    let mut q = TaskQueue::new(results, requests, Vec::new(), 100);
    let (dispatched, _) = q.process_next_task(110).unwrap();
    assert_eq!(dispatched.result.id, 4);
    let (_, _) = q.finish_task(4, TaskOutcome::Success("{}".to_string()), 120);
    let done = q.get_task_status(4).unwrap();
    assert_eq!(done.status, TaskStatus::Completed);
    assert_eq!(done.progress, 100);
}
