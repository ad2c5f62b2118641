use rcompute::components::app::to_vector;
use rcompute::components::event::{EventPayload, MonitorEvent, Source};
use rcompute::components::monitor::Monitor;
use rcompute::components::orchestrator::{DispatchOutcome, Orchestrator, SummaAction, SummaInput};
use rcompute::components::task::TaskEvent;
use rcompute::components::worker::Worker;

#[test]
fn monitor_records_orchestrator_and_worker_summa_events() {
    let mut monitor = Monitor::new(1);
    let mut orchestrator = Orchestrator::new(1, 3);
    for worker_id in 1..=9 {
        orchestrator.register_worker_channel(worker_id);
    }
    let workers: Vec<Worker> = (1..=9).map(Worker::new).collect();

    let mut notices: Vec<MonitorEvent> = Vec::new();
    let (mut run, mut action) =
        orchestrator.start_summa(to_vector([[1, 2, 3], [4, 5, 6], [7, 8, 9]]), to_vector([[9, 8, 7], [6, 5, 4], [3, 2, 1]]));
    let mut sent: Vec<TaskEvent> = Vec::new();
    loop {
        match action {
            SummaAction::Dispatch(order) => {
                sent.push(order);
                let (next, n) = orchestrator.summa_step(&mut run, SummaInput::Dispatched(DispatchOutcome::Delivered), 20);
                notices.extend(n);
                action = next;
            }
            SummaAction::Await => {
                let order = sent.remove(0);
                let (worker_notices, reply) = workers[(order.worker_id - 1) as usize].handle_task(order, 20).unwrap();
                notices.extend(worker_notices);
                let (next, n) = orchestrator.summa_step(&mut run, SummaInput::Received(reply), 20);
                notices.extend(n);
                action = next;
            }
            SummaAction::Finished(result) => {
                result.unwrap();
                break;
            }
        }
    }
    for notice in notices {
        monitor.record(notice);
    }

    let orchestrator_events = monitor.history(Source::Orchestrator);
    assert_eq!(
        orchestrator_events
            .iter()
            .filter(|event| {
                event.source == Source::Orchestrator && matches!(event.payload, EventPayload::TaskAssigned { .. })
            })
            .count(),
        27
    );
    assert_eq!(
        orchestrator_events
            .iter()
            .filter(|event| {
                event.source == Source::Orchestrator && matches!(event.payload, EventPayload::TaskCompleted { .. })
            })
            .count(),
        27
    );

    let worker_events = monitor.history(Source::Worker(0));
    assert_eq!(
        worker_events
            .iter()
            .filter(|event| matches!(event.payload, EventPayload::TaskStarted { .. }))
            .count(),
        27
    );
    assert_eq!(
        worker_events
            .iter()
            .filter(|event| matches!(event.payload, EventPayload::TaskCompleted { .. }))
            .count(),
        27
    );
}
