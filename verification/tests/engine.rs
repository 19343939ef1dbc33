use task_queue::chain::CHAIN_PRIORITY;
use task_queue::event::EventKind;
use task_queue::queue::{FollowUp, TaskOutcome, TaskQueue};
use task_queue::supervisor::failure_message;
use task_queue::task::{TaskPayload, TaskStatus, TaskType};

fn empty_queue() -> TaskQueue {
    TaskQueue::new(Vec::new(), Vec::new(), Vec::new(), 0)
}

fn transcription_payload(path: &str) -> TaskPayload {
    let mut p = TaskPayload::empty();
    p.file_path = Some(path.to_string());
    p
}

fn risk_payload(text: &str) -> TaskPayload {
    let mut p = TaskPayload::empty();
    p.text = Some(text.to_string());
    p
}

#[test]
fn transcription_lifecycle_with_auto_chain() {
    let mut q = empty_queue();
    let (id, ev) = q.submit_task(TaskType::Transcription, transcription_payload("a.wav"), None, 10);
    assert_eq!(ev.kind, EventKind::NewTask);
    assert_eq!(ev.task_id, id);

    let st = q.get_task_status(id).unwrap();
    assert_eq!(st.status, TaskStatus::Pending);
    assert_eq!(st.progress, 0);

    let (dispatched, status_ev) = q.process_next_task(20).unwrap();
    assert_eq!(dispatched.result.status, TaskStatus::Processing);
    assert_eq!(dispatched.result.started_at, Some(20));
    assert_eq!(status_ev.kind, EventKind::TaskStatusUpdate);
    assert_eq!(q.get_task_status(id).unwrap().status, TaskStatus::Processing);

    let doc = "{\"text\":\"hello world this is a test\"}".to_string();
    let (done_ev, follow) = q.finish_task(id, TaskOutcome::Success(doc.clone()), 30);
    assert_eq!(done_ev.kind, EventKind::TaskCompleted);
    let st = q.get_task_status(id).unwrap();
    assert_eq!(st.status, TaskStatus::Completed);
    assert_eq!(st.progress, 100);
    assert_eq!(st.completed_at, Some(30));
    assert_eq!(st.result.as_deref(), Some(doc.as_str()));
    assert!(st.error.is_none());

    match follow {
        FollowUp::ChainRiskAnalysis { transcription_id, source_payload } => {
            assert_eq!(transcription_id, id);
            let (risk_id, events) =
                q.auto_submit_risk_analysis(transcription_id, &doc, &source_payload, 40);
            let risk_id = risk_id.unwrap();
            assert_eq!(events.len(), 2);
            assert_eq!(events[0].kind, EventKind::NewTask);
            assert_eq!(events[1].kind, EventKind::AutoRiskAnalysisTriggered);
            assert_eq!(events[1].related_task_id, Some(id));

            // exactly one risk-analysis task appears alongside the
            // transcription
            let history = q.get_task_history(None, None);
            assert_eq!(history.len(), 2);

            // the chained request carries the extracted text, not the
            // whole document
            let req = q.get_task_request(risk_id).unwrap();
            assert!(matches!(req.task_type, TaskType::RiskAnalysis));
            assert_eq!(req.payload.text.as_deref(), Some("hello world this is a test"));
            assert!(req.payload.auto_triggered);
            assert_eq!(req.payload.source_file.as_deref(), Some("a.wav"));
            assert_eq!(req.priority, CHAIN_PRIORITY);
        }
        _ => panic!("a successful transcription must chain a risk analysis"),
    }
}

#[test]
fn risk_analysis_failure_records_prefixed_error() {
    let mut q = empty_queue();
    let (id, _) = q.submit_task(TaskType::RiskAnalysis, risk_payload("hi"), None, 1);
    let _ = q.process_next_task(2).unwrap();
    let message = failure_message(TaskType::RiskAnalysis, "LLM unavailable");
    let (_, follow) = q.finish_task(id, TaskOutcome::Failure(message), 3);
    let st = q.get_task_status(id).unwrap();
    assert_eq!(st.status, TaskStatus::Failed);
    assert_eq!(st.error.as_deref(), Some("Risk analysis failed: LLM unavailable"));
    assert!(st.result.is_none());
    assert!(matches!(follow, FollowUp::Nothing));
}

#[test]
fn back_to_back_submissions_dispatch_in_admission_order() {
    let mut q = empty_queue();
    let (a, _) = q.submit_task(TaskType::Transcription, transcription_payload("a.wav"), None, 1);
    let (b, _) = q.submit_task(TaskType::Transcription, transcription_payload("b.wav"), None, 1);

    // single-slot collaborator: only the first task is dispatched
    let (first, _) = q.process_next_task(5).unwrap();
    assert_eq!(first.result.id, a);
    assert_eq!(q.get_task_status(a).unwrap().status, TaskStatus::Processing);
    assert_eq!(q.get_task_status(b).unwrap().status, TaskStatus::Pending);

    let (second, _) = q.process_next_task(6).unwrap();
    assert_eq!(second.result.id, b);
    assert!(q.process_next_task(7).is_none());
}

#[test]
fn failed_transcription_chains_nothing() {
    let mut q = empty_queue();
    let (id, _) = q.submit_task(TaskType::Transcription, transcription_payload("a.wav"), None, 1);
    let _ = q.process_next_task(2).unwrap();
    let message = failure_message(TaskType::Transcription, "no model");
    let (_, follow) = q.finish_task(id, TaskOutcome::Failure(message), 3);
    assert!(matches!(follow, FollowUp::Nothing));
    let st = q.get_task_status(id).unwrap();
    assert_eq!(st.error.as_deref(), Some("Transcription failed: no model"));
}

#[test]
fn auto_triggered_risk_analysis_requests_notification() {
    let mut q = empty_queue();
    let mut payload = risk_payload("some transcribed words");
    payload.auto_triggered = true;
    let (id, _) = q.submit_task(TaskType::RiskAnalysis, payload, Some(CHAIN_PRIORITY), 1);
    let _ = q.process_next_task(2).unwrap();
    let (_, follow) = q.finish_task(id, TaskOutcome::Success("{}".to_string()), 3);
    match follow {
        FollowUp::NotifyExternal { task_id, succeeded } => {
            assert_eq!(task_id, id);
            assert!(succeeded);
        }
        _ => panic!("an auto-triggered risk analysis must request a notification"),
    }

    // a failing auto-triggered analysis also notifies, marked unsuccessful
    let mut payload = risk_payload("more transcribed words");
    payload.auto_triggered = true;
    let (id2, _) = q.submit_task(TaskType::RiskAnalysis, payload, Some(CHAIN_PRIORITY), 4);
    let _ = q.process_next_task(5).unwrap();
    let message = failure_message(TaskType::RiskAnalysis, "LLM unavailable");
    let (_, follow) = q.finish_task(id2, TaskOutcome::Failure(message), 6);
    match follow {
        FollowUp::NotifyExternal { task_id, succeeded } => {
            assert_eq!(task_id, id2);
            assert!(!succeeded);
        }
        _ => panic!("a failed auto-triggered risk analysis must still request a notification"),
    }
}

#[test]
fn manual_risk_analysis_does_not_notify() {
    let mut q = empty_queue();
    let (id, _) = q.submit_task(TaskType::RiskAnalysis, risk_payload("typed in by hand"), None, 1);
    let _ = q.process_next_task(2).unwrap();
    let (_, follow) = q.finish_task(id, TaskOutcome::Success("{}".to_string()), 3);
    assert!(matches!(follow, FollowUp::Nothing));
}

#[test]
fn queue_stats_count_by_status() {
    let mut q = empty_queue();
    let (a, _) = q.submit_task(TaskType::Transcription, transcription_payload("a.wav"), None, 1);
    let (_b, _) = q.submit_task(TaskType::Transcription, transcription_payload("b.wav"), None, 2);
    let (c, _) = q.submit_task(TaskType::RiskAnalysis, risk_payload("words"), None, 3);

    let stats = q.get_queue_stats();
    assert_eq!(stats.pending_count, 3);
    assert_eq!(stats.processing_count, 0);
    assert_eq!(stats.total_tasks, 3);
    assert_eq!(q.queue_depth(), 3);

    let _ = q.process_next_task(4).unwrap();
    let (_, _) = q.finish_task(a, TaskOutcome::Failure("Transcription failed: x".to_string()), 5);
    let _ = q.process_next_task(6).unwrap();

    let stats = q.get_queue_stats();
    assert_eq!(stats.pending_count, 1);
    assert_eq!(stats.processing_count, 1);
    assert_eq!(stats.failed_count, 1);
    assert_eq!(stats.completed_count, 0);
    assert_eq!(stats.total_tasks, 3);
    assert_eq!(q.queue_depth(), 1);

    let (third, _) = q.process_next_task(7).unwrap();
    assert_eq!(third.result.id, c);
    let (_, _) = q.finish_task(c, TaskOutcome::Success("{}".to_string()), 8);
    let stats = q.get_queue_stats();
    assert_eq!(stats.completed_count, 1);
    assert_eq!(stats.pending_count, 0);
    assert_eq!(stats.processing_count, 1);
}

#[test]
fn history_sorts_newest_first_and_clips() {
    let mut q = empty_queue();
    let (a, _) = q.submit_task(TaskType::Transcription, transcription_payload("a.wav"), None, 10);
    let (b, _) = q.submit_task(TaskType::Transcription, transcription_payload("b.wav"), None, 20);
    let (c, _) = q.submit_task(TaskType::RiskAnalysis, risk_payload("words"), None, 30);

    // work a to completion last, so it carries the newest update
    let _ = q.process_next_task(40).unwrap();
    let (_, _) = q.finish_task(a, TaskOutcome::Success("{}".to_string()), 90);

    let history = q.get_task_history(None, None);
    assert_eq!(history.len(), 3);
    assert_eq!(history[0].id, a);
    assert_eq!(history[0].updated_at, 90);
    assert_eq!(history[1].id, c);
    assert_eq!(history[2].id, b);

    let top_two = q.get_task_history(Some(2), None);
    assert_eq!(top_two.len(), 2);
    assert_eq!(top_two[0].id, a);
    assert_eq!(top_two[1].id, c);

    let pending_only = q.get_task_history(None, Some(TaskStatus::Pending));
    assert_eq!(pending_only.len(), 2);
    assert_eq!(pending_only[0].id, c);
    assert_eq!(pending_only[1].id, b);

    let failed_only = q.get_task_history(None, Some(TaskStatus::Failed));
    assert!(failed_only.is_empty());

    let none_at_all = q.get_task_history(Some(0), None);
    assert!(none_at_all.is_empty());
}

#[test]
fn progress_reports_are_monotone_and_capped() {
    let mut q = empty_queue();
    let (id, _) = q.submit_task(TaskType::Transcription, transcription_payload("a.wav"), None, 1);

    // a pending task accepts no progress report
    assert!(q.report_progress(id, 5, "too early", 2).is_none());

    let _ = q.process_next_task(3).unwrap();
    let ev = q.report_progress(id, 30, "Starting transcription process", 4).unwrap();
    assert_eq!(ev.kind, EventKind::TaskProgress);
    assert_eq!(ev.progress, Some(30));
    assert_eq!(q.get_task_status(id).unwrap().progress, 30);

    // a lower report is refused and changes nothing
    assert!(q.report_progress(id, 20, "backwards", 5).is_none());
    assert_eq!(q.get_task_status(id).unwrap().progress, 30);

    // an equal report is accepted
    assert!(q.report_progress(id, 30, "same", 6).is_some());

    // 100 is reserved for completion
    assert!(q.report_progress(id, 100, "done?", 7).is_none());
    assert!(q.report_progress(id, 95, "Finalizing transcription", 8).is_some());
    assert_eq!(q.get_task_status(id).unwrap().progress, 95);

    // an unknown id is refused
    assert!(q.report_progress(id + 100, 50, "who?", 9).is_none());

    // terminal tasks accept no further reports
    let (_, _) = q.finish_task(id, TaskOutcome::Success("{}".to_string()), 10);
    assert!(q.report_progress(id, 99, "late", 11).is_none());
    assert_eq!(q.get_task_status(id).unwrap().progress, 100);
}

#[test]
fn get_status_of_unknown_id_is_none() {
    let q = empty_queue();
    assert!(q.get_task_status(7).is_none());
    assert!(q.get_task_request(7).is_none());
}

#[test]
fn request_is_deleted_on_terminal_transition() {
    let mut q = empty_queue();
    let (id, _) = q.submit_task(TaskType::RiskAnalysis, risk_payload("words"), None, 1);
    assert!(q.get_task_request(id).is_some());
    let _ = q.process_next_task(2).unwrap();
    assert!(q.get_task_request(id).is_some());
    let (_, _) = q.finish_task(id, TaskOutcome::Success("{}".to_string()), 3);
    assert!(q.get_task_request(id).is_none());
}
