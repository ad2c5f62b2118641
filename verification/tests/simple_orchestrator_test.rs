use rcompute::components::orchestrator::Orchestrator;

#[test]
fn orchestrator_setup() {
    let mut orchestrator = Orchestrator::new(1, 3);

    assert!(orchestrator.workers.is_empty());
    orchestrator.register_worker_channel(4);
    assert_eq!(orchestrator.workers.len(), 1);
    assert!(orchestrator.workers.contains(&4));
    assert!(orchestrator.busy_workers.is_empty());
}
