//! Control-plane core of a distributed task-execution cluster.
//!
//! The crate verifies the logic a scheduler process shares between its
//! worker connections: the worker/task registry with its task state machine,
//! the dispatch-batching policy, the length-prefixed wire framing, and the
//! worker-side reactor that answers compute orders. The asynchronous
//! connection pumps and the wire encodings of the message values live
//! outside, feeding this logic plain values and draining its queues.

pub mod codec;
pub mod messages;
pub mod reactor;
pub mod registry;
pub mod scheduler;
pub mod worker;
