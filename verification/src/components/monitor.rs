use vstd::prelude::*;
use crate::components::event::{source_text, EventPayload, MonitorEvent, Source};
use crate::components::text::{decimal, push_decimal, push_text};

verus! {

/// Collects the observability events of the orchestrator and of the workers,
/// each in the order they arrive.
pub struct Monitor {
    pub id: u32,
    pub orchestrator_events: Vec<MonitorEvent>,
    pub workers_events: Vec<MonitorEvent>,
}

/// The line the monitor shows for an event.
pub open spec fn event_line(e: MonitorEvent) -> Seq<char> {
    let from = "Monitor: Task from "@ + source_text(e.source);
    match e.payload {
        EventPayload::TaskAssigned { task_id, worker_id } => from + " assigned "@ + decimal(task_id as nat) + " to "@ + decimal(
            worker_id as nat,
        ),
        EventPayload::TaskStarted { task_id, worker_id } => from + " started "@ + decimal(task_id as nat) + " by "@ + decimal(
            worker_id as nat,
        ),
        EventPayload::TaskCompleted { task_id, worker_id } => from + " completed "@ + decimal(task_id as nat) + " by "@ + decimal(
            worker_id as nat,
        ),
        EventPayload::TaskDuplicated { task_id, worker_id } => from + " duplicated "@ + decimal(task_id as nat) + " by "@
            + decimal(worker_id as nat),
        EventPayload::TaskOrdered { task_id, worker_id } => from + " ordered "@ + decimal(task_id as nat) + " by "@ + decimal(
            worker_id as nat,
        ),
        EventPayload::TaskFailed { task_id, worker_id, reason } => from + " failed with id "@ + decimal(task_id as nat)
            + " by "@ + decimal(worker_id as nat) + " because "@ + reason@,
    }
}

/// What follows the source in the line of an event with payload `p`.
spec fn line_after_source(p: EventPayload) -> Seq<char> {
    match p {
        EventPayload::TaskAssigned { task_id, worker_id } => " assigned "@ + (decimal(task_id as nat) + (" to "@ + decimal(worker_id as nat))),
        EventPayload::TaskStarted { task_id, worker_id } => " started "@ + (decimal(task_id as nat) + (" by "@ + decimal(worker_id as nat))),
        EventPayload::TaskCompleted { task_id, worker_id } => " completed "@ + (decimal(task_id as nat) + (" by "@ + decimal(worker_id as nat))),
        EventPayload::TaskDuplicated { task_id, worker_id } => " duplicated "@ + (decimal(task_id as nat) + (" by "@ + decimal(worker_id as nat))),
        EventPayload::TaskOrdered { task_id, worker_id } => " ordered "@ + (decimal(task_id as nat) + (" by "@ + decimal(worker_id as nat))),
        EventPayload::TaskFailed { task_id, worker_id, reason } => " failed with id "@ + (decimal(task_id as nat) + (" by "@ + (decimal(
            worker_id as nat,
        ) + (" because "@ + reason@)))),
    }
}

proof fn lemma_regroup4(f: Seq<char>, a: Seq<char>, b: Seq<char>, c: Seq<char>, d: Seq<char>)
    ensures
        f + a + b + c + d == f + (a + (b + (c + d))),
{
    vstd::seq_lib::lemma_concat_associative(f, a, b);
    vstd::seq_lib::lemma_concat_associative(f, a + b, c);
    vstd::seq_lib::lemma_concat_associative(a, b, c);
    vstd::seq_lib::lemma_concat_associative(f, a + (b + c), d);
    vstd::seq_lib::lemma_concat_associative(a, b + c, d);
    vstd::seq_lib::lemma_concat_associative(b, c, d);
}

proof fn lemma_regroup6(f: Seq<char>, a: Seq<char>, b: Seq<char>, c: Seq<char>, d: Seq<char>, x: Seq<char>, y: Seq<char>)
    ensures
        f + a + b + c + d + x + y == f + (a + (b + (c + (d + (x + y))))),
{
    lemma_regroup4(f, a, b, c, d);
    vstd::seq_lib::lemma_concat_associative(f, a + (b + (c + d)), x);
    vstd::seq_lib::lemma_concat_associative(a, b + (c + d), x);
    vstd::seq_lib::lemma_concat_associative(b, c + d, x);
    vstd::seq_lib::lemma_concat_associative(c, d, x);
    vstd::seq_lib::lemma_concat_associative(f, a + (b + (c + (d + x))), y);
    vstd::seq_lib::lemma_concat_associative(a, b + (c + (d + x)), y);
    vstd::seq_lib::lemma_concat_associative(b, c + (d + x), y);
    vstd::seq_lib::lemma_concat_associative(c, d + x, y);
    vstd::seq_lib::lemma_concat_associative(d, x, y);
}

proof fn lemma_line_splits(e: MonitorEvent)
    ensures
        event_line(e) == ("Monitor: Task from "@ + source_text(e.source)) + line_after_source(e.payload),
{
    let f = "Monitor: Task from "@ + source_text(e.source);
    match e.payload {
        EventPayload::TaskAssigned { task_id, worker_id } => {
            lemma_regroup4(f, " assigned "@, decimal(task_id as nat), " to "@, decimal(worker_id as nat));
        },
        EventPayload::TaskStarted { task_id, worker_id } => {
            lemma_regroup4(f, " started "@, decimal(task_id as nat), " by "@, decimal(worker_id as nat));
        },
        EventPayload::TaskCompleted { task_id, worker_id } => {
            lemma_regroup4(f, " completed "@, decimal(task_id as nat), " by "@, decimal(worker_id as nat));
        },
        EventPayload::TaskDuplicated { task_id, worker_id } => {
            lemma_regroup4(f, " duplicated "@, decimal(task_id as nat), " by "@, decimal(worker_id as nat));
        },
        EventPayload::TaskOrdered { task_id, worker_id } => {
            lemma_regroup4(f, " ordered "@, decimal(task_id as nat), " by "@, decimal(worker_id as nat));
        },
        EventPayload::TaskFailed { task_id, worker_id, reason } => {
            lemma_regroup6(f, " failed with id "@, decimal(task_id as nat), " by "@, decimal(worker_id as nat), " because "@, reason@);
        },
    }
}

/// The line of an event is `Monitor: Task from `, the event's source, then a
/// text that depends on the payload alone: two events with the same payload
/// read the same after their sources, whatever the sources are.
pub proof fn law_event_line_after_source_ignores_source(e1: MonitorEvent, e2: MonitorEvent)
    requires
        e1.payload == e2.payload,
    ensures
        event_line(e1).take(("Monitor: Task from "@ + source_text(e1.source)).len() as int) == "Monitor: Task from "@ + source_text(e1.source),
        event_line(e1).skip(("Monitor: Task from "@ + source_text(e1.source)).len() as int) == event_line(e2).skip(
            ("Monitor: Task from "@ + source_text(e2.source)).len() as int,
        ),
{
    lemma_line_splits(e1);
    lemma_line_splits(e2);
    let f1 = "Monitor: Task from "@ + source_text(e1.source);
    let f2 = "Monitor: Task from "@ + source_text(e2.source);
    let r = line_after_source(e1.payload);
    assert((f1 + r).take(f1.len() as int) =~= f1);
    assert((f1 + r).skip(f1.len() as int) =~= r);
    assert((f2 + r).skip(f2.len() as int) =~= r);
}

/// Every line names the task first and the worker second, whatever the
/// source: for a completion, `Monitor: Task from <source> completed <task>
/// by <worker>`, and likewise for the other kinds of events.
pub proof fn law_event_line_names_task_then_worker(e: MonitorEvent)
    ensures
        match e.payload {
            EventPayload::TaskAssigned { task_id, worker_id } => event_line(e) == "Monitor: Task from "@ + source_text(e.source)
                + " assigned "@ + decimal(task_id as nat) + " to "@ + decimal(worker_id as nat),
            EventPayload::TaskStarted { task_id, worker_id } => event_line(e) == "Monitor: Task from "@ + source_text(e.source)
                + " started "@ + decimal(task_id as nat) + " by "@ + decimal(worker_id as nat),
            EventPayload::TaskCompleted { task_id, worker_id } => event_line(e) == "Monitor: Task from "@ + source_text(e.source)
                + " completed "@ + decimal(task_id as nat) + " by "@ + decimal(worker_id as nat),
            EventPayload::TaskDuplicated { task_id, worker_id } => event_line(e) == "Monitor: Task from "@ + source_text(e.source)
                + " duplicated "@ + decimal(task_id as nat) + " by "@ + decimal(worker_id as nat),
            EventPayload::TaskOrdered { task_id, worker_id } => event_line(e) == "Monitor: Task from "@ + source_text(e.source)
                + " ordered "@ + decimal(task_id as nat) + " by "@ + decimal(worker_id as nat),
            EventPayload::TaskFailed { task_id, worker_id, reason } => event_line(e) == "Monitor: Task from "@ + source_text(e.source)
                + " failed with id "@ + decimal(task_id as nat) + " by "@ + decimal(worker_id as nat) + " because "@ + reason@,
        },
        e.source == Source::Orchestrator ==> event_line(e).take(("Monitor: Task from "@ + source_text(e.source)).len() as int)
            == "Monitor: Task from "@ + "Orchestrator"@,
{
    lemma_line_splits(e);
    let f = "Monitor: Task from "@ + source_text(e.source);
    assert((f + line_after_source(e.payload)).take(f.len() as int) =~= f);
}

/// The two histories, orchestrator's and workers', after recording `e`.
pub open spec fn record_step(histories: (Seq<MonitorEvent>, Seq<MonitorEvent>), e: MonitorEvent) -> (Seq<MonitorEvent>, Seq<MonitorEvent>) {
    match e.source {
        Source::Orchestrator => (histories.0.push(e), histories.1),
        Source::Worker(_) => (histories.0, histories.1.push(e)),
    }
}

/// The histories of a new monitor after recording `es` in order.
pub open spec fn record_all(es: Seq<MonitorEvent>) -> (Seq<MonitorEvent>, Seq<MonitorEvent>)
    decreases es.len(),
{
    if es.len() == 0 {
        (Seq::empty(), Seq::empty())
    } else {
        record_step(record_all(es.drop_last()), es.last())
    }
}

/// The monitor sorts events by source and keeps their order: after recording
/// `es`, the orchestrator's history is the orchestrator's events of `es` and
/// the workers' history is the workers' events of `es`, each in order.
pub proof fn law_monitor_sorts_by_source(es: Seq<MonitorEvent>)
    ensures
        record_all(es).0 == es.filter(|e: MonitorEvent| e.source == Source::Orchestrator),
        record_all(es).1 == es.filter(|e: MonitorEvent| e.source != Source::Orchestrator),
    decreases es.len(),
{
    reveal_with_fuel(Seq::<_>::filter, 1);
    if es.len() > 0 {
        law_monitor_sorts_by_source(es.drop_last());
    }
}

/// The events of `events` that worker `worker_id` sent.
pub open spec fn from_worker(events: Seq<MonitorEvent>, worker_id: u32) -> Seq<MonitorEvent> {
    events.filter(|e: MonitorEvent| e.source == Source::Worker(worker_id))
}

fn copy_events(events: &Vec<MonitorEvent>) -> (copy: Vec<MonitorEvent>)
    ensures
        copy@ == events@,
{
    let mut copy: Vec<MonitorEvent> = Vec::new();
    let mut i: usize = 0;
    while i < events.len()
        invariant
            i <= events.len(),
            copy@ == events@.take(i as int),
        decreases events.len() - i,
    {
        copy.push(events[i].clone());
        assert(events@.take(i + 1) =~= events@.take(i as int).push(events@[i as int]));
        i = i + 1;
    }
    assert(events@.take(events.len() as int) =~= events@);
    copy
}

impl Monitor {
    /// A monitor that has recorded nothing.
    pub fn new(id: u32) -> (m: Self)
        ensures
            m.id == id,
            m.orchestrator_events@ == Seq::<MonitorEvent>::empty(),
            m.workers_events@ == Seq::<MonitorEvent>::empty(),
    {
        Monitor { id, orchestrator_events: Vec::new(), workers_events: Vec::new() }
    }

    /// Records an event in the history of its source: the orchestrator's or
    /// the workers'.
    pub fn record(&mut self, event: MonitorEvent)
        ensures
            final(self).id == old(self).id,
            (final(self).orchestrator_events@, final(self).workers_events@) == record_step(
                (old(self).orchestrator_events@, old(self).workers_events@),
                event,
            ),
    {
        match event.source {
            Source::Orchestrator => self.orchestrator_events.push(event),
            Source::Worker(_) => self.workers_events.push(event),
        }
    }

    /// The line to show for an event as it is recorded.
    pub fn event_line(&self, event: &MonitorEvent) -> (line: String)
        ensures
            line@ == event_line(*event),
    {
        let mut line = String::new();
        push_text(&mut line, "Monitor: Task from ");
        let from = event.source.to_string();
        push_text(&mut line, from.as_str());
        match &event.payload {
            EventPayload::TaskAssigned { task_id, worker_id } => {
                push_text(&mut line, " assigned ");
                push_decimal(&mut line, *task_id as u64);
                push_text(&mut line, " to ");
                push_decimal(&mut line, *worker_id as u64);
            },
            EventPayload::TaskStarted { task_id, worker_id } => {
                push_text(&mut line, " started ");
                push_decimal(&mut line, *task_id as u64);
                push_text(&mut line, " by ");
                push_decimal(&mut line, *worker_id as u64);
            },
            EventPayload::TaskCompleted { task_id, worker_id } => {
                push_text(&mut line, " completed ");
                push_decimal(&mut line, *task_id as u64);
                push_text(&mut line, " by ");
                push_decimal(&mut line, *worker_id as u64);
            },
            EventPayload::TaskDuplicated { task_id, worker_id } => {
                push_text(&mut line, " duplicated ");
                push_decimal(&mut line, *task_id as u64);
                push_text(&mut line, " by ");
                push_decimal(&mut line, *worker_id as u64);
            },
            EventPayload::TaskOrdered { task_id, worker_id } => {
                push_text(&mut line, " ordered ");
                push_decimal(&mut line, *task_id as u64);
                push_text(&mut line, " by ");
                push_decimal(&mut line, *worker_id as u64);
            },
            EventPayload::TaskFailed { task_id, worker_id, reason } => {
                push_text(&mut line, " failed with id ");
                push_decimal(&mut line, *task_id as u64);
                push_text(&mut line, " by ");
                push_decimal(&mut line, *worker_id as u64);
                push_text(&mut line, " because ");
                push_text(&mut line, reason.as_str());
            },
        }
        line
    }

    /// The events recorded so far from `source`: the orchestrator's history
    /// or the workers' history, in arrival order.
    pub fn history(&self, source: Source) -> (events: Vec<MonitorEvent>)
        ensures
            events@ == match source {
                Source::Orchestrator => self.orchestrator_events@,
                Source::Worker(_) => self.workers_events@,
            },
    {
        match source {
            Source::Orchestrator => copy_events(&self.orchestrator_events),
            Source::Worker(_) => copy_events(&self.workers_events),
        }
    }

    /// The events recorded so far from worker `worker_id`, in arrival order.
    pub fn events_from_worker(&self, worker_id: u32) -> (events: Vec<MonitorEvent>)
        ensures
            events@ == from_worker(self.workers_events@, worker_id),
    {
        let mut events: Vec<MonitorEvent> = Vec::new();
        let mut i: usize = 0;
        while i < self.workers_events.len()
            invariant
                i <= self.workers_events.len(),
                events@ == from_worker(self.workers_events@.take(i as int), worker_id),
            decreases self.workers_events.len() - i,
        {
            let event = &self.workers_events[i];
            proof {
                reveal_with_fuel(Seq::<_>::filter, 1);
                assert(self.workers_events@.take(i + 1).drop_last() =~= self.workers_events@.take(i as int));
            }
            match event.source {
                Source::Worker(id) => {
                    if id == worker_id {
                        events.push(event.clone());
                    }
                },
                _ => {},
            }
            i = i + 1;
        }
        assert(self.workers_events@.take(self.workers_events.len() as int) =~= self.workers_events@);
        events
    }

    /// Writes the monitor as text: `Monitor:  id <id>`.
    pub fn to_string(&self) -> (s: String)
        ensures
            s@ == "Monitor:  id "@ + decimal(self.id as nat),
    {
        let mut s = String::new();
        push_text(&mut s, "Monitor:  id ");
        push_decimal(&mut s, self.id as u64);
        s
    }
}

} // verus!
