use vstd::prelude::*;
use crate::components::event::{EventPayload, MonitorEvent, Source};
use crate::components::task::{Task, TaskEvent};
use crate::components::text::{decimal, push_decimal, push_text};

verus! {

/// A worker of the calculation grid. It multiplies what the orchestrator
/// sends it and reports each step to the monitor.
pub struct Worker {
    pub id: u32,
}

/// What a worker reports for one task: the value it returns, the event for the
/// monitor and the task event for the orchestrator.
pub struct WorkerReport {
    pub result: u32,
    pub notice: MonitorEvent,
    pub message: TaskEvent,
}

/// The event a worker sends the monitor about task `task_id`.
pub open spec fn worker_notice(id: u32, now: u64, payload: EventPayload) -> MonitorEvent {
    MonitorEvent { id, timestamp: now, source: Source::Worker(id), payload }
}

/// The text shown for a worker.
pub open spec fn worker_text(id: u32) -> Seq<char> {
    "Worker:  id "@ + decimal(id as nat)
}

/// The multiplication of `task` fits in a `u32`.
pub open spec fn multiply_fits(task: Task) -> bool {
    task matches Task::Multiply { a, b, .. } ==> a * b <= u32::MAX
}

impl Worker {
    pub fn new(id: u32) -> (w: Self)
        ensures
            w.id == id,
    {
        Worker { id }
    }

    /// Handles a task from the orchestrator. A multiplication `a * b` of
    /// iteration `k` is answered with its value as a partial result, and the
    /// monitor is told the task started and then completed; any other task is
    /// ignored.
    pub fn handle_task(&self, task_event: TaskEvent, now: u64) -> (reply: Option<(Vec<MonitorEvent>, TaskEvent)>)
        requires
            multiply_fits(task_event.task),
        ensures
            match task_event.task {
                Task::Multiply { a, b, k } => reply matches Some((notices, message)) && notices@ == seq![
                    worker_notice(self.id, now, EventPayload::TaskStarted { task_id: task_event.task_id, worker_id: self.id }),
                    worker_notice(self.id, now, EventPayload::TaskCompleted { task_id: task_event.task_id, worker_id: self.id }),
                ] && message == (TaskEvent {
                    worker_id: self.id,
                    task_id: task_event.task_id,
                    task: Task::PartialResult { value: (a * b) as u32, k },
                }),
                _ => reply is None,
            },
    {
        match task_event.task {
            Task::Multiply { a, b, k } => {
                let mut notices: Vec<MonitorEvent> = Vec::new();
                notices.push(MonitorEvent::new(
                    self.id,
                    now,
                    Source::Worker(self.id),
                    EventPayload::TaskStarted { task_id: task_event.task_id, worker_id: self.id },
                ));
                let value = a * b;
                notices.push(MonitorEvent::new(
                    self.id,
                    now,
                    Source::Worker(self.id),
                    EventPayload::TaskCompleted { task_id: task_event.task_id, worker_id: self.id },
                ));
                let message = TaskEvent::new(self.id, task_event.task_id, Task::PartialResult { value, k });
                Some((notices, message))
            },
            _ => None,
        }
    }

    /// Reports a completed calculation of task `task_id`, whose result is
    /// always 42.
    pub fn calculate(&self, task_id: u32, now: u64) -> (report: WorkerReport)
        ensures
            report.result == 42,
            report.notice == worker_notice(self.id, now, EventPayload::TaskCompleted { task_id, worker_id: self.id }),
            report.message == (TaskEvent { worker_id: self.id, task_id, task: Task::TaskResult { result: 42 } }),
    {
        WorkerReport {
            result: 42,
            notice: MonitorEvent::new(self.id, now, Source::Worker(self.id), EventPayload::TaskCompleted { task_id, worker_id: self.id }),
            message: TaskEvent::new(self.id, task_id, Task::TaskResult { result: 42 }),
        }
    }

    /// Reports that task `task_id` timed out.
    pub fn timeout(&self, task_id: u32, now: u64) -> (report: WorkerReport)
        ensures
            report.result == 42,
            report.notice.id == self.id,
            report.notice.timestamp == now,
            report.notice.source == Source::Worker(self.id),
            report.notice.payload matches EventPayload::TaskFailed { task_id: t, worker_id: w, reason } && t == task_id && w
                == self.id && reason@ == "Timeout"@,
            report.message == (TaskEvent { worker_id: self.id, task_id, task: Task::TaskTimeout {} }),
    {
        let mut reason = String::new();
        push_text(&mut reason, "Timeout");
        WorkerReport {
            result: 42,
            notice: MonitorEvent::new(self.id, now, Source::Worker(self.id), EventPayload::TaskFailed { task_id, worker_id: self.id, reason }),
            message: TaskEvent::new(self.id, task_id, Task::TaskTimeout {}),
        }
    }

    /// Orders task `task_id`; the input sent is always 41, whatever `input`
    /// is.
    pub fn send_task(&self, task_id: u32, input: u32, now: u64) -> (report: WorkerReport)
        ensures
            report.result == 41,
            report.notice == worker_notice(self.id, now, EventPayload::TaskOrdered { task_id, worker_id: self.id }),
            report.message == (TaskEvent { worker_id: self.id, task_id, task: Task::TaskInput { input: 41 } }),
    {
        WorkerReport {
            result: 41,
            notice: MonitorEvent::new(self.id, now, Source::Worker(self.id), EventPayload::TaskOrdered { task_id, worker_id: self.id }),
            message: TaskEvent::new(self.id, task_id, Task::TaskInput { input: 41 }),
        }
    }

    /// Writes the worker as text: `Worker:  id <id>`.
    pub fn to_string(&self) -> (s: String)
        ensures
            s@ == worker_text(self.id),
    {
        let mut s = String::new();
        push_text(&mut s, "Worker:  id ");
        push_decimal(&mut s, self.id as u64);
        s
    }
}

} // verus!
