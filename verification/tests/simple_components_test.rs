use rcompute::components::orchestrator::Orchestrator;
use rcompute::components::worker::Worker;

#[test]
fn components_can_be_instantiated() {
    let orchestrator = Orchestrator::new(1, 3);
    let worker = Worker::new(1);

    assert_eq!(orchestrator.id, 1);
    assert!(orchestrator.workers.is_empty());
    assert_eq!(worker.id, 1);
}
