use vstd::prelude::*;
use crate::components::text::{decimal, push_decimal, push_text};

verus! {

/// Who produced a monitor event.
#[derive(Clone, Copy, Debug, PartialEq, Eq, Structural)]
pub enum Source {
    Orchestrator,
    Worker(u32),
}

/// The text shown for a source.
pub open spec fn source_text(source: Source) -> Seq<char> {
    match source {
        Source::Orchestrator => "Orchestrator"@,
        Source::Worker(id) => "Worker "@ + decimal(id as nat),
    }
}

impl Source {
    /// Writes the source as text: `Orchestrator` or `Worker <id>`.
    pub fn to_string(&self) -> (s: String)
        ensures
            s@ == source_text(*self),
    {
        let mut s = String::new();
        match self {
            Source::Orchestrator => {
                push_text(&mut s, "Orchestrator");
            },
            Source::Worker(id) => {
                push_text(&mut s, "Worker ");
                push_decimal(&mut s, *id as u64);
            },
        }
        s
    }
}

/// What happened to a task, as reported to the monitor.
#[derive(Debug, PartialEq)]
pub enum EventPayload {
    TaskAssigned { task_id: u32, worker_id: u32 },
    TaskStarted { task_id: u32, worker_id: u32 },
    TaskCompleted { task_id: u32, worker_id: u32 },
    TaskFailed { task_id: u32, worker_id: u32, reason: String },
    TaskDuplicated { task_id: u32, worker_id: u32 },
    TaskOrdered { task_id: u32, worker_id: u32 },
}

impl Clone for EventPayload {
    fn clone(&self) -> (res: Self)
        ensures
            res == *self,
    {
        match self {
            EventPayload::TaskAssigned { task_id, worker_id } => EventPayload::TaskAssigned {
                task_id: *task_id,
                worker_id: *worker_id,
            },
            EventPayload::TaskStarted { task_id, worker_id } => EventPayload::TaskStarted {
                task_id: *task_id,
                worker_id: *worker_id,
            },
            EventPayload::TaskCompleted { task_id, worker_id } => EventPayload::TaskCompleted {
                task_id: *task_id,
                worker_id: *worker_id,
            },
            EventPayload::TaskFailed { task_id, worker_id, reason } => EventPayload::TaskFailed {
                task_id: *task_id,
                worker_id: *worker_id,
                reason: reason.clone(),
            },
            EventPayload::TaskDuplicated { task_id, worker_id } => EventPayload::TaskDuplicated {
                task_id: *task_id,
                worker_id: *worker_id,
            },
            EventPayload::TaskOrdered { task_id, worker_id } => EventPayload::TaskOrdered {
                task_id: *task_id,
                worker_id: *worker_id,
            },
        }
    }
}

/// An observability event sent by the orchestrator or a worker to the
/// monitor. The timestamp is in milliseconds.
#[derive(Debug)]
pub struct MonitorEvent {
    pub id: u32,
    pub timestamp: u64,
    pub source: Source,
    pub payload: EventPayload,
}

impl Clone for MonitorEvent {
    fn clone(&self) -> (res: Self)
        ensures
            res == *self,
    {
        MonitorEvent {
            id: self.id,
            timestamp: self.timestamp,
            source: self.source,
            payload: self.payload.clone(),
        }
    }
}

/// The text shown for an event: its id and its source.
pub open spec fn event_text(e: MonitorEvent) -> Seq<char> {
    "Event "@ + decimal(e.id as nat) + " with source "@ + source_text(e.source) + " "@
}

impl MonitorEvent {
    pub fn new(id: u32, timestamp: u64, source: Source, payload: EventPayload) -> (e: Self)
        ensures
            e == (MonitorEvent { id, timestamp, source, payload }),
    {
        MonitorEvent { id: id, timestamp: timestamp, source: source, payload: payload }
    }

    /// Writes the event as text: `Event <id> with source <source> `.
    pub fn to_string(&self) -> (s: String)
        ensures
            s@ == event_text(*self),
    {
        let mut s = String::new();
        push_text(&mut s, "Event ");
        push_decimal(&mut s, self.id as u64);
        push_text(&mut s, " with source ");
        let src = self.source.to_string();
        push_text(&mut s, src.as_str());
        push_text(&mut s, " ");
        s
    }
}

} // verus!
