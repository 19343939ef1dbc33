//! A durable, prioritized job queue for long-running work requests.
//!
//! The queue admits transcription and risk-analysis tasks, tracks their
//! lifecycle from `Pending` through `Processing` to a terminal status,
//! survives restarts by rebuilding its state from a persisted snapshot,
//! dequeues strictly in admission order, fails stale tasks, chains a
//! risk-analysis task onto every sufficiently long transcription result,
//! and fans lifecycle events out to registered observers.
//!
//! The engine itself is a deterministic state machine: every operation
//! takes the current time and any collaborator outcome as explicit
//! arguments, so the surrounding process owns all clocks, stores and
//! network calls and the engine owns every decision.

pub mod chain;
pub mod laws;
pub mod event;
pub mod queue;
pub mod render;
pub mod supervisor;
pub mod task;
