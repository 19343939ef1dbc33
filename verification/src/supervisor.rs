//! Execution-supervision policy: the size-aware timeout budget, the
//! synthetic progress estimate, the per-tick poll decision, payload
//! validation and the wording of failure messages.
//!
//! The collaborator call itself runs outside the engine; these functions
//! decide everything around it from plain values.

use vstd::prelude::*;
use vstd::string::*;
use vstd::arithmetic::div_mod::lemma_div_is_ordered;
use crate::render::dec_digits;
use crate::render::dec_string;
use crate::task::{clone_opt_string, opt_str_view, TaskPayload, TaskType};

verus! {

/// Base execution budget in seconds.
pub const BASE_TIMEOUT_SECS: u64 = 300;

/// Hard cap on the execution budget in seconds.
pub const MAX_TIMEOUT_SECS: u64 = 1800;

/// Bytes per megabyte.
pub const BYTES_PER_MB: u64 = 0x100000;

/// The execution budget in seconds for a task with the given input size
/// and estimated duration: 300 s base, plus 60 s per 50 MB of input
/// beyond 50 MB, plus 120 s per 30 minutes of estimated duration beyond
/// 30 minutes, capped at 1800 s.
pub open spec fn timeout_secs_spec(file_size_bytes: u64, duration_seconds: u64) -> int {
    let mb = file_size_bytes as int / BYTES_PER_MB as int;
    let minutes = duration_seconds as int / 60;
    let size_extra = if mb > 50 {
        (mb - 50) * 6 / 5
    } else {
        0
    };
    let time_extra = if minutes > 30 {
        (minutes - 30) * 4
    } else {
        0
    };
    vstd::math::min(300 + size_extra + time_extra, 1800)
}

/// Computes the execution budget from the payload's size and duration
/// hints (absent hints count as zero).
pub fn compute_timeout(file_size_bytes: u64, duration_seconds: u64) -> (t: u64)
    ensures
        t as int == timeout_secs_spec(file_size_bytes, duration_seconds),
        BASE_TIMEOUT_SECS <= t <= MAX_TIMEOUT_SECS,
{
    let mb = file_size_bytes / BYTES_PER_MB;
    let minutes = duration_seconds / 60;
    let mut total: u64 = 300;
    if mb > 50 {
        let beyond = mb - 50;
        if beyond >= 1250 {
            proof {
                lemma_div_is_ordered(7500, beyond as int * 6, 5);
            }
            return 1800;
        }
        total = total + beyond * 6 / 5;
    }
    if minutes > 30 {
        let extra_minutes = minutes - 30;
        if extra_minutes >= 375 {
            return 1800;
        }
        total = total + extra_minutes * 4;
    }
    if total > 1800 {
        1800
    } else {
        total
    }
}

/// Whether the size and duration hints indicate a very large job, which
/// earns a distinct timeout message suggesting the caller split the
/// input: more than 100 MB of input or more than 60 minutes of estimated
/// duration.
pub open spec fn is_large_job_spec(file_size_bytes: u64, duration_seconds: u64) -> bool {
    file_size_bytes as int / BYTES_PER_MB as int > 100 || duration_seconds as int / 60 > 60
}

/// Decides whether a job counts as very large for timeout wording.
pub fn is_large_job(file_size_bytes: u64, duration_seconds: u64) -> (r: bool)
    ensures
        r == is_large_job_spec(file_size_bytes, duration_seconds),
{
    file_size_bytes / BYTES_PER_MB > 100 || duration_seconds / 60 > 60
}

/// The synthetic progress estimate while waiting on the collaborator:
/// 35 at the start of the wait, climbing linearly with elapsed time over
/// the budget, capped at 90.
pub open spec fn progress_estimate_spec(elapsed: u64, budget: u64) -> int {
    vstd::math::min(35 + elapsed as int * 50 / budget as int, 90)
}

/// Progress never moves backwards as time elapses.
pub proof fn lemma_progress_estimate_monotone(e1: u64, e2: u64, budget: u64)
    requires
        e1 <= e2,
        budget >= 1,
    ensures
        progress_estimate_spec(e1, budget) <= progress_estimate_spec(e2, budget),
{
    lemma_div_is_ordered(e1 as int * 50, e2 as int * 50, budget as int);
}

/// Computes the synthetic progress estimate for an elapsed wait.
pub fn progress_estimate(elapsed: u64, budget: u64) -> (p: u8)
    requires
        1 <= budget <= MAX_TIMEOUT_SECS,
        elapsed <= budget,
    ensures
        p as int == progress_estimate_spec(elapsed, budget),
        35 <= p <= 90,
{
    let climb = elapsed * 50 / budget;
    if climb >= 55 {
        90
    } else {
        (35 + climb) as u8
    }
}

/// The timeout message for an ordinary job.
pub open spec fn timeout_message_spec(budget: int) -> Seq<char> {
    "Transcription timed out after "@ + dec_digits(budget / 60) + " minutes"@
}

/// The timeout message for a very large job, suggesting the caller split
/// the input.
pub open spec fn large_timeout_message_spec(budget: int) -> Seq<char> {
    "Large file processing timed out after "@ + dec_digits(budget / 60)
        + " minutes. Consider splitting the file into smaller segments."@
}

/// Renders the timeout message for a budget, with the distinct wording
/// for very large jobs.
pub fn timeout_message(budget: u64, large: bool) -> (m: String)
    ensures
        large ==> m@ == large_timeout_message_spec(budget as int),
        !large ==> m@ == timeout_message_spec(budget as int),
{
    let minutes = dec_string(budget / 60);
    if large {
        let mut m = {
            proof { reveal_strlit("Large file processing timed out after "); }
            "Large file processing timed out after ".to_owned()
        };
        m.append(minutes.as_str());
        proof {
            reveal_strlit(" minutes. Consider splitting the file into smaller segments.");
        }
        m.append(" minutes. Consider splitting the file into smaller segments.");
        proof {
            assert(m@ =~= large_timeout_message_spec(budget as int));
        }
        m
    } else {
        let mut m = {
            proof { reveal_strlit("Transcription timed out after "); }
            "Transcription timed out after ".to_owned()
        };
        m.append(minutes.as_str());
        proof { reveal_strlit(" minutes"); }
        m.append(" minutes");
        proof {
            assert(m@ =~= timeout_message_spec(budget as int));
        }
        m
    }
}

/// What the supervisor does on one two-second poll tick while the
/// collaborator has not answered yet.
pub enum PollDecision {
    /// Keep waiting, showing this progress estimate; broadcast it only on
    /// the throttle boundary, roughly once per ten elapsed seconds.
    Continue { progress: u8, broadcast: bool },
    /// The budget is spent: fail the task with this message.
    TimedOut { message: String },
}

/// Decides one poll tick: the task times out once the elapsed wait
/// exceeds the budget, and otherwise keeps waiting under the synthetic
/// progress estimate.
pub fn poll_step(elapsed: u64, budget: u64, large: bool) -> (r: PollDecision)
    requires
        1 <= budget <= MAX_TIMEOUT_SECS,
    ensures
        elapsed > budget <==> r is TimedOut,
        (r matches PollDecision::TimedOut { message } ==> {
            &&& large ==> message@ == large_timeout_message_spec(budget as int)
            &&& !large ==> message@ == timeout_message_spec(budget as int)
        }),
        (r matches PollDecision::Continue { progress, broadcast } ==> {
            &&& progress as int == progress_estimate_spec(elapsed, budget)
            &&& broadcast == (elapsed % 10 == 0)
        }),
{
    if elapsed > budget {
        PollDecision::TimedOut { message: timeout_message(budget, large) }
    } else {
        PollDecision::Continue {
            progress: progress_estimate(elapsed, budget),
            broadcast: elapsed % 10 == 0,
        }
    }
}

/// The validated inputs of a transcription task.
pub struct TranscriptionParams {
    pub file_path: String,
    pub backend: String,
    pub language: Option<String>,
}

/// Mathematical value of `TranscriptionParams`.
pub ghost struct TranscriptionParamsView {
    pub file_path: Seq<char>,
    pub backend: Seq<char>,
    pub language: Option<Seq<char>>,
}

impl View for TranscriptionParams {
    type V = TranscriptionParamsView;

    open spec fn view(&self) -> TranscriptionParamsView {
        TranscriptionParamsView {
            file_path: self.file_path@,
            backend: self.backend@,
            language: opt_str_view(self.language),
        }
    }
}

/// Extracts the transcription inputs from a payload: the file path is
/// required, the backend defaults to `auto`, the language stays optional.
pub fn validate_transcription_payload(p: &TaskPayload) -> (r: Result<
    TranscriptionParams,
    String,
>)
    ensures
        r is Ok <==> p@.file_path is Some,
        (r matches Ok(params) ==> {
            &&& Some(params@.file_path) == p@.file_path
            &&& params@.backend == (match p@.backend {
                Some(b) => b,
                None => "auto"@,
            })
            &&& params@.language == p@.language
        }),
        (r matches Err(e) ==> e@ == "Missing file_path in payload"@),
{
    match &p.file_path {
        None => {
            proof { reveal_strlit("Missing file_path in payload"); }
            Err("Missing file_path in payload".to_owned())
        },
        Some(f) => Ok(
            TranscriptionParams {
                file_path: f.clone(),
                backend: match &p.backend {
                    Some(b) => b.clone(),
                    None => "auto".to_owned(),
                },
                language: clone_opt_string(&p.language),
            },
        ),
    }
}

/// Extracts the text of a risk-analysis task, which is required.
pub fn validate_risk_payload(p: &TaskPayload) -> (r: Result<String, String>)
    ensures
        r is Ok <==> p@.text is Some,
        (r matches Ok(text) ==> Some(text@) == p@.text),
        (r matches Err(e) ==> e@ == "Missing text in payload"@),
{
    match &p.text {
        None => {
            proof { reveal_strlit("Missing text in payload"); }
            Err("Missing text in payload".to_owned())
        },
        Some(t) => Ok(t.clone()),
    }
}

/// The error recorded when a collaborator reports a failure: the
/// collaborator's own words under a prefix naming the task kind.
pub open spec fn failure_message_spec(task_type: TaskType, error: Seq<char>) -> Seq<char> {
    match task_type {
        TaskType::Transcription => "Transcription failed: "@ + error,
        TaskType::RiskAnalysis => "Risk analysis failed: "@ + error,
    }
}

/// Renders the recorded error for a collaborator failure.
pub fn failure_message(task_type: TaskType, error: &str) -> (m: String)
    ensures
        m@ == failure_message_spec(task_type, error@),
{
    match task_type {
        TaskType::Transcription => {
            let mut m = {
                proof { reveal_strlit("Transcription failed: "); }
                "Transcription failed: ".to_owned()
            };
            m.append(error);
            m
        },
        TaskType::RiskAnalysis => {
            let mut m = {
                proof { reveal_strlit("Risk analysis failed: "); }
                "Risk analysis failed: ".to_owned()
            };
            m.append(error);
            m
        },
    }
}

/// The fixed checkpoints a transcription run reports before and after
/// the collaborator call.
#[derive(Clone, Copy, Debug, PartialEq, Eq, Structural)]
pub enum TranscriptionStage {
    /// The input was validated.
    Validated,
    /// The audio is being prepared.
    Preprocessed,
    /// The engine is initialized.
    EngineReady,
    /// The collaborator call has started.
    Started,
    /// The collaborator answered; the result is being finalized.
    ResultReceived,
}

/// The progress value of a fixed transcription checkpoint.
pub open spec fn stage_progress_spec(s: TranscriptionStage) -> u8 {
    match s {
        TranscriptionStage::Validated => 5,
        TranscriptionStage::Preprocessed => 10,
        TranscriptionStage::EngineReady => 20,
        TranscriptionStage::Started => 30,
        TranscriptionStage::ResultReceived => 95,
    }
}

/// Reads the progress value of a fixed checkpoint.
pub fn stage_progress(s: TranscriptionStage) -> (p: u8)
    ensures
        p == stage_progress_spec(s),
{
    match s {
        TranscriptionStage::Validated => 5,
        TranscriptionStage::Preprocessed => 10,
        TranscriptionStage::EngineReady => 20,
        TranscriptionStage::Started => 30,
        TranscriptionStage::ResultReceived => 95,
    }
}

/// The broadcast message of a fixed checkpoint.
pub fn stage_message(s: TranscriptionStage) -> (m: &'static str)
    ensures
        m@ == (match s {
            TranscriptionStage::Validated => "Audio file loaded and validated"@,
            TranscriptionStage::Preprocessed => "Preprocessing audio file"@,
            TranscriptionStage::EngineReady => "Initializing transcription model"@,
            TranscriptionStage::Started => "Starting transcription process"@,
            TranscriptionStage::ResultReceived => "Finalizing transcription"@,
        }),
{
    match s {
        TranscriptionStage::Validated => "Audio file loaded and validated",
        TranscriptionStage::Preprocessed => "Preprocessing audio file",
        TranscriptionStage::EngineReady => "Initializing transcription model",
        TranscriptionStage::Started => "Starting transcription process",
        TranscriptionStage::ResultReceived => "Finalizing transcription",
    }
}

/// The contextual message shown while the progress estimate climbs.
pub fn climb_message(progress: u8) -> (m: &'static str)
    ensures
        m@ == (if 35 <= progress <= 50 {
            "Processing audio segments"@
        } else if 51 <= progress <= 70 {
            "Running speech recognition"@
        } else if 71 <= progress <= 85 {
            "Post-processing results"@
        } else if 86 <= progress <= 90 {
            "Preparing final output"@
        } else {
            "Transcribing audio"@
        }),
{
    if 35 <= progress && progress <= 50 {
        "Processing audio segments"
    } else if 51 <= progress && progress <= 70 {
        "Running speech recognition"
    } else if 71 <= progress && progress <= 85 {
        "Post-processing results"
    } else if 86 <= progress && progress <= 90 {
        "Preparing final output"
    } else {
        "Transcribing audio"
    }
}

} // verus!
