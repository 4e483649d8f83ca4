//! The scheduler-bridge protocol: the messages exchanged with the external
//! scheduling authority, and the bridge endpoint itself.
//!
//! Bridge messages travel in the same length-prefixed frames as the worker
//! protocol but carry a structured, human-readable encoding. The connection
//! layer outside the library performs that encoding; the library supplies the
//! message values and the framing.

use crate::messages::{TaskId, WorkerId};
use vstd::prelude::*;

verus! {

/// The summary of one worker reported to the scheduling authority.
#[derive(Clone, Copy, Debug, PartialEq, Eq, Structural)]
pub struct WorkerInfo {
    pub id: WorkerId,
    pub ncpus: u32,
}

/// The bridge's handshake with the scheduling authority.
#[derive(Clone, Debug, PartialEq, Eq)]
pub struct SchedulerRegistration {
    pub protocol_version: u32,
    pub scheduler_name: String,
}

/// One placement decision of the scheduling authority: which worker is
/// to run which task.
#[derive(Clone, Copy, Debug, PartialEq, Eq, Structural)]
pub struct TaskAssignment {
    pub task: TaskId,
    pub worker: WorkerId,
}

/// Events this process reports to the scheduling authority.
#[derive(Clone, Debug, PartialEq, Eq)]
pub enum ToSchedulerMessage {
    Register(SchedulerRegistration),
    NewWorker(WorkerInfo),
    RemoveWorker(WorkerId),
    TaskFinished(TaskId),
    TaskErred(TaskId),
}

/// Decisions the scheduling authority sends back.
#[derive(Clone, Debug, PartialEq, Eq)]
pub enum FromSchedulerMessage {
    TaskAssignments(Vec<TaskAssignment>),
}

/// The endpoint of the single long-lived connection to the external
/// scheduling authority. The bridge's connection pump lives outside the
/// library: it serializes `ToSchedulerMessage` values into frames and decodes
/// received frames into `FromSchedulerMessage` values, terminating as soon as
/// either direction ends or errors.
pub struct RemoteScheduler;

} // verus!
