use rcompute::components::event::{EventPayload, Source};
use rcompute::components::task::{Task, TaskEvent};
use rcompute::components::worker::Worker;

#[test]
fn test_workers() {
    let worker = Worker::new(1);
    println!("{}", worker.to_string());
    let (_notices, event) = worker
        .handle_task(TaskEvent::new(1, 1, Task::Multiply { a: 6, b: 7, k: 0 }), 0)
        .unwrap();
    match event.task {
        Task::PartialResult { value, k } => {
            assert_eq!(event.task_id, 1);
            assert_eq!(value, 42);
            assert_eq!(k, 0);
        }
        _ => panic!("We should receive a partial result"),
    }
}

#[test]
fn worker_reports_start_and_completion_to_monitor() {
    let worker = Worker::new(5);
    let (notices, _) = worker
        .handle_task(TaskEvent::new(5, 12, Task::Multiply { a: 3, b: 4, k: 1 }), 77)
        .unwrap();
    assert_eq!(notices.len(), 2);
    assert_eq!(notices[0].source, Source::Worker(5));
    assert_eq!(notices[0].timestamp, 77);
    assert_eq!(notices[0].payload, EventPayload::TaskStarted { task_id: 12, worker_id: 5 });
    assert_eq!(notices[1].payload, EventPayload::TaskCompleted { task_id: 12, worker_id: 5 });
}

#[test]
fn worker_ignores_tasks_other_than_multiplications() {
    let worker = Worker::new(2);
    assert!(worker.handle_task(TaskEvent::new(2, 1, Task::TaskInput { input: 3 }), 0).is_none());
    assert!(worker.handle_task(TaskEvent::new(2, 1, Task::PartialResult { value: 3, k: 0 }), 0).is_none());
}

#[test]
fn worker_reports_fixed_results() {
    let worker = Worker::new(4);
    let report = worker.calculate(9, 1);
    assert_eq!(report.result, 42);
    assert_eq!(report.message, TaskEvent::new(4, 9, Task::TaskResult { result: 42 }));
    assert_eq!(report.notice.payload, EventPayload::TaskCompleted { task_id: 9, worker_id: 4 });

    let report = worker.timeout(9, 1);
    assert_eq!(report.result, 42);
    assert_eq!(report.message, TaskEvent::new(4, 9, Task::TaskTimeout {}));
    assert_eq!(
        report.notice.payload,
        EventPayload::TaskFailed { task_id: 9, worker_id: 4, reason: "Timeout".to_string() }
    );

    let report = worker.send_task(9, 1000, 1);
    assert_eq!(report.result, 41);
    assert_eq!(report.message, TaskEvent::new(4, 9, Task::TaskInput { input: 41 }));
    assert_eq!(report.notice.payload, EventPayload::TaskOrdered { task_id: 9, worker_id: 4 });
    assert_eq!(worker.to_string(), "Worker:  id 4");
}
