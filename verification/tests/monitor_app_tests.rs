use rcompute::components::app::{to_vector, Application};
use rcompute::components::event::{EventPayload, MonitorEvent, Source};
use rcompute::components::monitor::Monitor;
use rcompute::config::app_config::AppConfig;

fn event(source: Source, payload: EventPayload) -> MonitorEvent {
    MonitorEvent::new(1, 0, source, payload)
}

#[test]
fn monitor_keeps_each_history_in_order() {
    let mut monitor = Monitor::new(3);
    monitor.record(event(Source::Worker(2), EventPayload::TaskStarted { task_id: 1, worker_id: 2 }));
    monitor.record(event(Source::Orchestrator, EventPayload::TaskAssigned { task_id: 1, worker_id: 2 }));
    monitor.record(event(Source::Worker(4), EventPayload::TaskStarted { task_id: 2, worker_id: 4 }));
    monitor.record(event(Source::Worker(2), EventPayload::TaskCompleted { task_id: 1, worker_id: 2 }));

    let orchestrator_history = monitor.history(Source::Orchestrator);
    assert_eq!(orchestrator_history.len(), 1);
    assert_eq!(orchestrator_history[0].payload, EventPayload::TaskAssigned { task_id: 1, worker_id: 2 });

    let worker_history = monitor.history(Source::Worker(99));
    assert_eq!(worker_history.len(), 3);

    let from_two = monitor.events_from_worker(2);
    assert_eq!(from_two.len(), 2);
    assert_eq!(from_two[0].payload, EventPayload::TaskStarted { task_id: 1, worker_id: 2 });
    assert_eq!(from_two[1].payload, EventPayload::TaskCompleted { task_id: 1, worker_id: 2 });
    assert!(monitor.events_from_worker(7).is_empty());
    assert_eq!(monitor.to_string(), "Monitor:  id 3");
}

#[test]
fn monitor_lines_describe_events() {
    let monitor = Monitor::new(1);
    let line = |source, payload| monitor.event_line(&event(source, payload));
    assert_eq!(
        line(Source::Orchestrator, EventPayload::TaskAssigned { task_id: 12, worker_id: 3 }),
        "Monitor: Task from Orchestrator assigned 12 to 3"
    );
    assert_eq!(
        line(Source::Worker(3), EventPayload::TaskStarted { task_id: 12, worker_id: 3 }),
        "Monitor: Task from Worker 3 started 12 by 3"
    );
    assert_eq!(
        line(Source::Worker(3), EventPayload::TaskCompleted { task_id: 12, worker_id: 3 }),
        "Monitor: Task from Worker 3 completed 12 by 3"
    );
    assert_eq!(
        line(Source::Worker(3), EventPayload::TaskDuplicated { task_id: 0, worker_id: 3 }),
        "Monitor: Task from Worker 3 duplicated 0 by 3"
    );
    assert_eq!(
        line(Source::Worker(3), EventPayload::TaskOrdered { task_id: 7, worker_id: 3 }),
        "Monitor: Task from Worker 3 ordered 7 by 3"
    );
    assert_eq!(
        line(
            Source::Orchestrator,
            EventPayload::TaskFailed { task_id: 12, worker_id: 3, reason: "Timeout".to_string() }
        ),
        "Monitor: Task from Orchestrator failed with id 12 by 3 because Timeout"
    );
}

#[test]
fn events_and_sources_as_text() {
    assert_eq!(Source::Orchestrator.to_string(), "Orchestrator");
    assert_eq!(Source::Worker(41).to_string(), "Worker 41");
    let e = MonitorEvent::new(8, 0, Source::Worker(41), EventPayload::TaskOrdered { task_id: 1, worker_id: 41 });
    assert_eq!(e.to_string(), "Event 8 with source Worker 41 ");
    let copy = e.clone();
    assert_eq!(copy.id, 8);
    assert_eq!(copy.payload, e.payload);
}

#[test]
fn application_records_results() {
    let mut config = AppConfig::new();
    config.set_config(3, 30, 20, true);
    let mut app = Application::new(1, config);
    assert_eq!(app.id, 1);
    assert!(app.open_calculations.is_empty());
    assert!(app.results.is_empty());
    assert_eq!(app.config(), config);

    app.open_calculations.insert(1);
    app.record_result(1, Ok(to_vector([[1, 2, 3], [4, 5, 6], [7, 8, 9]])));
    assert!(app.open_calculations.is_empty());
    assert_eq!(app.results.get(&1), Some(&Ok(to_vector([[1, 2, 3], [4, 5, 6], [7, 8, 9]]))));
}

#[test]
fn config_tests_instantiation() {
    let config: AppConfig = AppConfig::new();

    assert_eq!(config.matrix_size, 0);
    assert_eq!(config.timeout, 0);
    assert_eq!(config.check_frequency, 0);
    assert!(!config.monitor_display);
    assert_eq!(config, AppConfig::default());
}

#[test]
fn set_config() {
    let mut config: AppConfig = AppConfig::new();

    config.set_config(10, 30, 20, true);
    assert_eq!(config.matrix_size, 10);
    assert_eq!(config.timeout, 30);
    assert_eq!(config.check_frequency, 20);
    assert!(config.monitor_display);
}
