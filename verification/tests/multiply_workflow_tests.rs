use rcompute::components::task::{Task, TaskEvent};
use rcompute::components::worker::Worker;

#[test]
fn worker_processes_multiply_and_returns_partial_result() {
    let worker = Worker::new(7);

    let (_notices, result) = worker
        .handle_task(TaskEvent::new(7, 10, Task::Multiply { a: 6, b: 7, k: 3 }), 0)
        .unwrap();
    assert_eq!(result.worker_id, 7);
    assert_eq!(result.task_id, 10);
    assert_eq!(result.task, Task::PartialResult { value: 42, k: 3 });
}
