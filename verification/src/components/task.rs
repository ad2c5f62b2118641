use vstd::prelude::*;

verus! {

/// The work or the outcome carried between an orchestrator and its workers.
#[derive(Debug, Clone, Copy, PartialEq, Eq, Structural)]
pub enum Task {
    TaskResult { result: u32 },
    TaskTimeout {},
    TaskInput { input: u32 },
    /// A unit of multiplication work sent by an orchestrator to a worker.
    Multiply { a: u32, b: u32, k: usize },
    /// A multiplication result sent by a worker back to its orchestrator.
    PartialResult { value: u32, k: usize },
}

/// A task travelling between a worker and the orchestrator.
#[derive(Debug, Clone, Copy, PartialEq, Eq, Structural)]
pub struct TaskEvent {
    pub worker_id: u32,
    pub task_id: u32,
    pub task: Task,
}

impl TaskEvent {
    pub fn new(worker_id: u32, task_id: u32, task: Task) -> (event: Self)
        ensures
            event == (TaskEvent { worker_id, task_id, task }),
    {
        TaskEvent { worker_id, task_id, task }
    }
}

} // verus!
