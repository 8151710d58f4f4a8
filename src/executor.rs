//! The executor: the registry of live tasks, keyed by connection, and the only place where a
//! task's lifetime is decided.
use crate::chunk::{ChunkModel, ConnectionId, DataChunk};
use crate::task::{EchoTask, TaskPhase, Write, WriteModel};
use std::collections::HashMap;
use vstd::prelude::*;

verus! {

broadcast use vstd::std_specs::hash::group_hash_axioms;

/// What became of one delivered chunk.
#[derive(Debug)]
pub enum Delivery {
    /// No task is registered for the connection (it was torn down): nothing happened.
    Stale,
    /// The task was resumed once with the chunk and asks for this write.
    Resumed(Write),
}

/// What a delivery stands for.
pub enum DeliveryModel {
    Stale,
    Resumed(WriteModel),
}

impl View for Delivery {
    type V = DeliveryModel;

    open spec fn view(&self) -> DeliveryModel {
        match self {
            Delivery::Stale => DeliveryModel::Stale,
            Delivery::Resumed(w) => DeliveryModel::Resumed(w@),
        }
    }
}

/// Every task in the registry is bound to the connection it is filed under.
pub open spec fn well_keyed(reg: Map<u64, EchoTask>) -> bool {
    forall|k: u64| #[trigger] reg.contains_key(k) ==> reg[k].connection.id == k
}

/// Delivering chunk `c` to connection `id`: the registry afterwards, and what came of it. A
/// registered task is resumed and, having written the chunk back, waits again as it was; a
/// connection with no task is left alone.
pub open spec fn deliver_step(reg: Map<u64, EchoTask>, id: u64, c: ChunkModel) -> (Map<
    u64,
    EchoTask,
>, DeliveryModel) {
    if reg.contains_key(id) {
        (reg, DeliveryModel::Resumed(WriteModel { connection: id, chunk: c }))
    } else {
        (reg, DeliveryModel::Stale)
    }
}

/// Owns the task of every live connection and drives it when the host signals data.
pub struct Executor {
    tasks: HashMap<u64, EchoTask>,
}

impl View for Executor {
    type V = Map<u64, EchoTask>;

    closed spec fn view(&self) -> Map<u64, EchoTask> {
        self.tasks@
    }
}

impl Executor {
    pub open spec fn wf(&self) -> bool {
        well_keyed(self@)
    }

    /// An executor with no tasks.
    pub fn new() -> (r: Executor)
        ensures
            r.wf(),
            r@ == Map::<u64, EchoTask>::empty(),
    {
        Executor { tasks: HashMap::new() }
    }

    /// Creates the task for a new connection, files it and runs it to its first suspension.
    /// The host registers each connection once.
    pub fn register(&mut self, connection: ConnectionId)
        requires
            old(self).wf(),
            !old(self)@.contains_key(connection.id),
        ensures
            final(self).wf(),
            final(self)@ == old(self)@.insert(
                connection.id,
                EchoTask { connection, phase: TaskPhase::Awaiting },
            ),
    {
        let task = EchoTask::start(connection);
        self.tasks.insert(connection.id, task);
    }

    /// Resumes the task of `connection` once with `chunk`, if it has one.
    pub fn deliver(&mut self, connection: ConnectionId, chunk: DataChunk) -> (r: Delivery)
        requires
            old(self).wf(),
        ensures
            final(self).wf(),
            (final(self)@, r@) == deliver_step(old(self)@, connection.id, chunk@),
    {
        let id = connection.id;
        match self.tasks.get(&id) {
            None => Delivery::Stale,
            Some(task) => {
                let task = *task;
                let (next, write) = task.resume(chunk);
                self.tasks.insert(id, next);
                proof {
                    assert(self@ =~= old(self)@);
                }
                Delivery::Resumed(write)
            },
        }
    }

    /// Discards the task of `connection`, whatever its phase; true when there was one.
    pub fn cancel(&mut self, connection: ConnectionId) -> (r: bool)
        requires
            old(self).wf(),
        ensures
            final(self).wf(),
            final(self)@ == old(self)@.remove(connection.id),
            r == old(self)@.contains_key(connection.id),
    {
        let removed = self.tasks.remove(&connection.id);
        removed.is_some()
    }

    /// Whether a task is filed for `connection`.
    pub fn is_registered(&self, connection: ConnectionId) -> (r: bool)
        ensures
            r == self@.contains_key(connection.id),
    {
        self.tasks.contains_key(&connection.id)
    }

    /// The phase of the task of `connection`, if it has one.
    pub fn phase(&self, connection: ConnectionId) -> (r: Option<TaskPhase>)
        ensures
            r == (if self@.contains_key(connection.id) {
                Some(self@[connection.id].phase)
            } else {
                None
            }),
    {
        match self.tasks.get(&connection.id) {
            Some(task) => Some(task.phase),
            None => None,
        }
    }

    /// The number of live tasks.
    pub fn len(&self) -> (r: usize)
        ensures
            r == self@.len(),
    {
        self.tasks.len()
    }
}

} // verus!
