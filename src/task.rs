//! The per-connection task as an explicit state machine, with the echo body as its step.
//!
//! A task has one suspension point: it waits for the next chunk. Resuming it with a chunk runs
//! one step of its body, which for the echo filter writes that same chunk back to the task's
//! connection. Writes are fire-and-forget, so they are handed back as values for the host to
//! carry out rather than awaited.
use crate::chunk::{ChunkModel, ConnectionId, DataChunk};
use vstd::prelude::*;

verus! {

/// Where a live task stands between two resumptions. A task is created and resumed only within
/// a call of the executor, and the echo body never returns, so the one state a task persists in
/// is waiting for the next chunk. It leaves the registry only when the host cancels it.
#[derive(Clone, Copy, Debug, PartialEq, Eq, Structural)]
pub enum TaskPhase {
    /// Suspended, waiting for the next chunk.
    Awaiting,
}

/// The echo task of one connection.
#[derive(Clone, Copy, Debug, PartialEq, Eq, Structural)]
pub struct EchoTask {
    pub connection: ConnectionId,
    pub phase: TaskPhase,
}

/// A write of a chunk to a connection, for the host's outbound path.
#[derive(Clone, Debug)]
pub struct Write {
    pub connection: ConnectionId,
    pub chunk: DataChunk,
}

/// What a write stands for: the connection it goes to and the chunk it carries.
pub struct WriteModel {
    pub connection: u64,
    pub chunk: ChunkModel,
}

impl View for Write {
    type V = WriteModel;

    open spec fn view(&self) -> WriteModel {
        WriteModel { connection: self.connection.id, chunk: self.chunk@ }
    }
}

impl EchoTask {
    /// Creates the task for `connection` and runs its body to the first suspension point.
    pub fn start(connection: ConnectionId) -> (r: EchoTask)
        ensures
            r == (EchoTask { connection, phase: TaskPhase::Awaiting }),
    {
        EchoTask { connection, phase: TaskPhase::Awaiting }
    }

    /// The connection whose data the task handles.
    pub fn connection(&self) -> (r: ConnectionId)
        ensures
            r == self.connection,
    {
        self.connection
    }

    /// Resumes the suspended task with `chunk`: the body writes the chunk back, unchanged, to the
    /// task's own connection and loops to wait for the next one, whether or not the chunk ends
    /// the stream.
    pub fn resume(self, chunk: DataChunk) -> (r: (EchoTask, Write))
        ensures
            r.0 == (EchoTask { connection: self.connection, phase: TaskPhase::Awaiting }),
            r.1@ == (WriteModel { connection: self.connection.id, chunk: chunk@ }),
    {
        let connection = self.connection();
        (EchoTask { connection, phase: TaskPhase::Awaiting }, Write { connection, chunk })
    }
}

} // verus!
