//! The auto-chain policy: on a successful transcription, extract the
//! result text and, unless the skip rule applies, admit a follow-on
//! risk-analysis task at elevated priority, tagged as auto-triggered and
//! carrying the source metadata.

use vstd::prelude::*;
use vstd::string::StrSliceExecFns;
use crate::event::{Event, EventKind, EventView};
use crate::queue::{new_task_event, submit_spec, TaskQueue};
use crate::task::{clone_opt_string, opt_str_view, PayloadView, TaskPayload, TaskType};

verus! {

/// The priority given to auto-chained risk-analysis tasks.
pub const CHAIN_PRIORITY: i32 = 2;

/// A transcription text shorter than this many characters is not worth a
/// risk analysis: the chain is skipped as an explicit no-op.
pub const MIN_CHAIN_TEXT_CHARS: usize = 10;

/// The `text` field of a transcription result document: the string under
/// the top-level key `text` of the JSON document, if the document parses
/// and carries one.
pub uninterp spec fn json_text_field(doc: Seq<char>) -> Option<Seq<char>>;

/// Relies on serde_json::from_str, Value::get and Value::as_str: parsing
/// a document is a function of its characters alone, so the extracted
/// field is named by `json_text_field`.
#[verifier::external_body]
fn extract_text_field(doc: &str) -> (r: Option<String>)
    ensures
        opt_str_view(r) == json_text_field(doc@),
{
    match serde_json::from_str::<serde_json::Value>(doc) {
        Ok(v) => match v.get("text") {
            Some(t) => t.as_str().map(|s| s.to_string()),
            None => None,
        },
        Err(_) => None,
    }
}

/// The payload of the follow-on risk-analysis task: the transcription
/// text, the auto-trigger tag, and the source's file path, backend and
/// language.
pub open spec fn chain_payload(text: Seq<char>, source: PayloadView) -> PayloadView {
    PayloadView {
        file_path: None,
        backend: source.backend,
        language: source.language,
        file_size_bytes: None,
        duration_seconds: None,
        text: Some(text),
        auto_triggered: true,
        source_file: source.file_path,
    }
}

/// The auto-chain decision: no text, or text shorter than
/// `MIN_CHAIN_TEXT_CHARS` characters, chains nothing; any longer text
/// chains exactly one risk-analysis payload built from it.
pub open spec fn chain_decision(
    text: Option<Seq<char>>,
    source: PayloadView,
) -> Option<PayloadView> {
    match text {
        None => None,
        Some(t) => if t.len() >= MIN_CHAIN_TEXT_CHARS {
            Some(chain_payload(t, source))
        } else {
            None
        },
    }
}

/// Applies the skip rule to an extracted transcription text and builds
/// the follow-on payload where one is owed.
pub fn plan_auto_chain(text: &Option<String>, source: &TaskPayload) -> (r: Option<TaskPayload>)
    ensures
        r is Some <==> chain_decision(opt_str_view(*text), source@) is Some,
        (r matches Some(p) ==> Some(p@) == chain_decision(opt_str_view(*text), source@)),
{
    match text {
        None => None,
        Some(t) => {
            if t.as_str().unicode_len() >= MIN_CHAIN_TEXT_CHARS {
                Some(
                    TaskPayload {
                        file_path: None,
                        backend: clone_opt_string(&source.backend),
                        language: clone_opt_string(&source.language),
                        file_size_bytes: None,
                        duration_seconds: None,
                        text: Some(t.clone()),
                        auto_triggered: true,
                        source_file: clone_opt_string(&source.file_path),
                    },
                )
            } else {
                None
            }
        },
    }
}

/// The event broadcast when a risk analysis is chained onto a completed
/// transcription, referencing both task ids.
pub open spec fn chain_event(transcription_id: u64, risk_id: u64, now: u64) -> EventView {
    EventView {
        kind: EventKind::AutoRiskAnalysisTriggered,
        task_id: risk_id,
        status: None,
        progress: None,
        message: Some("Risk analysis automatically triggered for completed transcription"@),
        related_task_id: Some(transcription_id),
        timestamp: now,
    }
}

impl TaskQueue {
    /// Runs the auto-chain policy for a completed transcription: extracts
    /// the result text from the collaborator's document and, unless the
    /// skip rule applies, admits the follow-on risk-analysis task at
    /// `CHAIN_PRIORITY`, yielding its id and the events to broadcast. The
    /// skip is an explicit no-op: the engine state stays untouched and
    /// nothing is announced.
    pub fn auto_submit_risk_analysis(
        &mut self,
        transcription_id: u64,
        result_doc: &str,
        source_payload: &TaskPayload,
        now: u64,
    ) -> (r: (Option<u64>, Vec<Event>))
        requires
            old(self)@.inv(),
            old(self)@.next_id < u64::MAX,
        ensures
            final(self)@.inv(),
            ({
                let decision = chain_decision(json_text_field(result_doc@), source_payload@);
                match decision {
                    None => {
                        &&& final(self)@ == old(self)@
                        &&& r.0 is None
                        &&& r.1@.len() == 0
                    },
                    Some(p) => {
                        &&& final(self)@ == submit_spec(
                            old(self)@,
                            TaskType::RiskAnalysis,
                            p,
                            Some(CHAIN_PRIORITY),
                            now,
                        )
                        &&& r.0 == Some(old(self)@.next_id)
                        &&& r.1@.len() == 2
                        &&& r.1@[0]@ == new_task_event(old(self)@.next_id, now)
                        &&& r.1@[1]@ == chain_event(transcription_id, old(self)@.next_id, now)
                    },
                }
            }),
    {
        let text = extract_text_field(result_doc);
        match plan_auto_chain(&text, source_payload) {
            None => (None, Vec::new()),
            Some(payload) => {
                let (risk_id, new_task) = self.submit_task(
                    TaskType::RiskAnalysis,
                    payload,
                    Some(CHAIN_PRIORITY),
                    now,
                );
                let announcement = Event {
                    kind: EventKind::AutoRiskAnalysisTriggered,
                    task_id: risk_id,
                    status: None,
                    progress: None,
                    message: Some(
                        {
                            proof {
                                reveal_strlit(
                                    "Risk analysis automatically triggered for completed transcription",
                                );
                            }
                            "Risk analysis automatically triggered for completed transcription".to_owned()
                        },
                    ),
                    related_task_id: Some(transcription_id),
                    timestamp: now,
                };
                let mut events: Vec<Event> = Vec::new();
                events.push(new_task);
                events.push(announcement);
                (Some(risk_id), events)
            },
        }
    }
}

} // verus!
