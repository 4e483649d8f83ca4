//! The worker wire protocol: the structured messages that travel, inside
//! length-prefixed frames, between the scheduler and its workers.
//!
//! The crate works on these plain values; turning them into and out of their
//! compact binary wire encoding is the connection layer's job.

use vstd::prelude::*;

verus! {

/// Identifier of a worker, issued by the registry's monotonic counter.
pub type WorkerId = u64;

/// Identifier (key) of a task, supplied by the task-graph source.
pub type TaskId = u64;

/// Outcome flag carried by worker reports.
#[derive(Clone, Copy, Debug, PartialEq, Eq, Structural)]
pub enum Status {
    Success,
    Failure,
}

/// A worker's registration handshake: its advertised listen address and,
/// when reported, its number of concurrent execution slots.
#[derive(Clone, Debug, PartialEq, Eq)]
pub struct RegisterWorkerMsg {
    pub address: String,
    pub ncpus: Option<u32>,
}

/// The immediate acknowledgement of a registration handshake.
#[derive(Clone, Debug, PartialEq, Eq)]
pub struct HeartbeatResponse {
    pub status: Status,
    /// Wall-clock time of the acknowledgement, in microseconds.
    pub time: u64,
    /// How often the worker is expected to report in, in microseconds.
    pub heartbeat_interval: u64,
    /// Plugins the worker must load; empty by default.
    pub worker_plugins: Vec<String>,
}

/// A worker's report that a task it ran completed successfully.
#[derive(Clone, Debug, PartialEq, Eq)]
pub struct TaskFinishedMsg {
    pub status: Status,
    pub key: TaskId,
    pub byte_size: u64,
    pub type_tag: Vec<u8>,
    /// Timing spans: a label with start and stop times in microseconds.
    pub timing_spans: Vec<(String, u64, u64)>,
}

/// A worker's report that a task it ran failed.
#[derive(Clone, Debug, PartialEq, Eq)]
pub struct TaskErredMsg {
    pub status: Status,
    pub key: TaskId,
    pub error_info: String,
}

/// A worker's announcement that it now holds the results for these keys.
#[derive(Clone, Debug, PartialEq, Eq)]
pub struct AddKeysMsg {
    pub keys: Vec<TaskId>,
}

/// An order to compute one task: its key and, for every dependency, the
/// address at which that dependency's result can be fetched.
#[derive(Clone, Debug, PartialEq, Eq)]
pub struct ComputeTaskMsg {
    pub key: TaskId,
    pub who_has: Vec<(TaskId, String)>,
}

/// Messages a worker sends to the scheduler after its handshake.
#[derive(Clone, Debug, PartialEq, Eq)]
pub enum FromWorkerMessage {
    TaskFinished(TaskFinishedMsg),
    TaskErred(TaskErredMsg),
    AddKeys(AddKeysMsg),
    /// Exists purely to keep the transport alive; carries nothing.
    KeepAlive,
}

/// Messages the scheduler sends to a worker inside a dispatch batch.
#[derive(Clone, Debug, PartialEq, Eq)]
pub enum ToWorkerMessage {
    ComputeTask(ComputeTaskMsg),
}

/// One item of a worker's outbound channel: exactly one wire frame each.
#[derive(Clone, Debug, PartialEq, Eq)]
pub enum WorkerOutbound {
    /// The handshake acknowledgement, sent alone in its own frame.
    Heartbeat(HeartbeatResponse),
    /// A dispatch batch: all tasks newly assigned to this worker in one
    /// processing cycle, sent together in one frame.
    TaskBatch(Vec<ToWorkerMessage>),
}

} // verus!
