//! Messages of the relay worker.
use vstd::prelude::*;

verus! {

/// What a worker reports.
pub struct WorkerOutput {
    pub value: u32,
    pub uri: String,
}

/// What the worker is told.
pub enum WebsocketWorkerInputMsg {
    Uri(String),
    Exit,
}

/// What the worker tells itself.
pub enum ThisWorkerMsg {
    Loop,
    Stop,
}

/// What the application hears from a worker.
pub enum WorkerMsg {
    Event(WorkerOutput),
    RelayInfo,
    Result,
    Auth,
}

} // verus!
