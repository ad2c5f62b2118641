use rcompute::components::app::to_vector;
use rcompute::components::orchestrator::{DispatchOutcome, Orchestrator, SummaAction, SummaInput};
use rcompute::components::task::TaskEvent;
use rcompute::components::worker::Worker;
use rcompute::config::app_config::AppConfig;

#[test]
fn overdue_multiplications_are_recorded_as_failed() {
    let mut config = AppConfig::new();
    config.set_config(3, 5, 1, false);
    let mut orchestrator = Orchestrator::from_config(1, config);
    for worker_id in 1..=9 {
        orchestrator.register_worker_channel(worker_id);
    }
    // Worker 1 never answers: its first multiplication has no result and
    // must be timed out locally.
    let workers: Vec<Worker> = (1..=9).map(Worker::new).collect();

    let (mut run, mut action) = orchestrator.start_summa(to_vector([[1; 3]; 3]), to_vector([[1; 3]; 3]));
    let mut sent: Vec<TaskEvent> = Vec::new();
    let result = loop {
        match action {
            SummaAction::Dispatch(order) => {
                sent.push(order);
                action = orchestrator.summa_step(&mut run, SummaInput::Dispatched(DispatchOutcome::Delivered), 0).0;
            }
            SummaAction::Await => match sent.iter().position(|order| order.worker_id != 1) {
                Some(index) => {
                    let order = sent.remove(index);
                    let (_, reply) = workers[(order.worker_id - 1) as usize].handle_task(order, 1).unwrap();
                    action = orchestrator.summa_step(&mut run, SummaInput::Received(reply), 1).0;
                }
                None => {
                    action = orchestrator.summa_step(&mut run, SummaInput::Tick, 10).0;
                }
            },
            SummaAction::Finished(result) => break result,
        }
    };

    assert!(result.is_err());
    assert!(orchestrator.failed_tasks.contains(&1));
    assert!(!orchestrator.open_tasks.contains(&1));
}
