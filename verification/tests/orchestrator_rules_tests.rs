use rcompute::components::app::to_vector;
use rcompute::components::event::{EventPayload, Source};
use rcompute::components::orchestrator::{DispatchOutcome, LoopInput, Orchestrator, SummaAction, SummaInput};
use rcompute::components::task::{Task, TaskEvent};
use rcompute::config::app_config::AppConfig;

fn grid() -> Orchestrator {
    let mut orchestrator = Orchestrator::new(1, 3);
    for worker_id in 1..=9 {
        orchestrator.register_worker_channel(worker_id);
    }
    orchestrator
}

fn error_of(action: SummaAction) -> String {
    match action {
        SummaAction::Finished(Err(message)) => message,
        other => panic!("expected an error, got {:?}", other),
    }
}

#[test]
fn summa_on_four_by_four_needs_sixteen_workers() {
    let mut orchestrator = Orchestrator::new(1, 4);
    for worker_id in 1..=15 {
        orchestrator.register_worker_channel(worker_id);
    }
    let (_, action) = orchestrator.start_summa(vec![vec![1; 4]; 4], vec![vec![1; 4]; 4]);
    assert_eq!(error_of(action), "SUMMA worker 16 is not registered");
}

#[test]
fn summa_on_four_by_four_numbers_tasks_per_iteration() {
    let mut orchestrator = Orchestrator::new(1, 4);
    for worker_id in 1..=16 {
        orchestrator.register_worker_channel(worker_id);
    }
    let a: Vec<Vec<u32>> = (0..4).map(|i| (0..4).map(|j| 10 * i + j).collect()).collect();
    let b: Vec<Vec<u32>> = (0..4).map(|i| (0..4).map(|j| 100 + 10 * i + j).collect()).collect();
    let (mut run, mut action) = orchestrator.start_summa(a, b);
    let mut orders = Vec::new();
    while let SummaAction::Dispatch(order) = action {
        orders.push(order);
        let (next, _) = orchestrator.summa_step(&mut run, SummaInput::Dispatched(DispatchOutcome::Delivered), 0);
        action = next;
    }
    assert_eq!(orders.len(), 16);
    assert_eq!(orders[6], TaskEvent::new(7, 7, Task::Multiply { a: 10, b: 102, k: 0 }));
    assert_eq!(orders[15], TaskEvent::new(16, 16, Task::Multiply { a: 30, b: 103, k: 0 }));
    assert!(matches!(action, SummaAction::Await));
    assert_eq!(orchestrator.open_tasks.len(), 16);
    assert_eq!(orchestrator.busy_workers.len(), 16);
}

#[test]
fn summa_needs_the_whole_grid() {
    let mut orchestrator = Orchestrator::new(1, 3);
    for worker_id in [1, 2, 3, 4, 6, 7, 8, 9] {
        orchestrator.register_worker_channel(worker_id);
    }
    let (_, action) = orchestrator.start_summa(to_vector([[1; 3]; 3]), to_vector([[1; 3]; 3]));
    assert_eq!(error_of(action), "SUMMA worker 5 is not registered");
}

#[test]
fn summa_first_order_goes_to_worker_one() {
    let mut orchestrator = grid();
    let (run, action) = orchestrator.start_summa(to_vector([[2, 3, 4], [5, 6, 7], [8, 9, 10]]), to_vector([[11, 12, 13], [14, 15, 16], [17, 18, 19]]));
    match action {
        SummaAction::Dispatch(order) => {
            assert_eq!(order, TaskEvent::new(1, 1, Task::Multiply { a: 2, b: 11, k: 0 }));
        }
        other => panic!("expected a dispatch, got {:?}", other),
    }
    assert_eq!(run.k, 0);
    assert!(orchestrator.busy_workers.contains(&1));
}

#[test]
fn summa_orders_follow_the_grid() {
    let mut orchestrator = grid();
    let a = [[2, 3, 4], [5, 6, 7], [8, 9, 10]];
    let b = [[11, 12, 13], [14, 15, 16], [17, 18, 19]];
    let (mut run, mut action) = orchestrator.start_summa(to_vector(a), to_vector(b));
    let mut orders = Vec::new();
    while let SummaAction::Dispatch(order) = action {
        orders.push(order);
        action = orchestrator.summa_step(&mut run, SummaInput::Dispatched(DispatchOutcome::Delivered), 5).0;
    }
    assert!(matches!(action, SummaAction::Await));
    assert_eq!(orders.len(), 9);
    // cell (1, 2) of iteration 0: worker 6, task 6, A[1][0] and B[0][2]
    assert_eq!(orders[5], TaskEvent::new(6, 6, Task::Multiply { a: 5, b: 13, k: 0 }));
    assert_eq!(orchestrator.open_tasks.len(), 9);
    assert_eq!(orchestrator.busy_workers.len(), 9);
}

#[test]
fn summa_reports_dispatch_failures() {
    let mut orchestrator = grid();
    let (mut run, _) = orchestrator.start_summa(to_vector([[1; 3]; 3]), to_vector([[1; 3]; 3]));
    let (action, notices) = orchestrator.summa_step(&mut run, SummaInput::Dispatched(DispatchOutcome::NoChannel), 0);
    assert_eq!(error_of(action), "Worker 1 has no registered work channel");
    assert!(notices.is_empty());
    assert!(orchestrator.busy_workers.is_empty());

    let mut orchestrator = grid();
    let (mut run, _) = orchestrator.start_summa(to_vector([[1; 3]; 3]), to_vector([[1; 3]; 3]));
    let (action, _) = orchestrator.summa_step(&mut run, SummaInput::Dispatched(DispatchOutcome::Disconnected), 0);
    assert_eq!(error_of(action), "Worker 1 work channel is disconnected");
}

#[test]
fn summa_refuses_busy_and_unknown_workers() {
    let mut orchestrator = grid();
    let (_, _) = orchestrator.start_summa(to_vector([[1; 3]; 3]), to_vector([[1; 3]; 3]));
    // worker 1 is now reserved: a second calculation cannot use it
    let (_, action) = orchestrator.start_summa(to_vector([[1; 3]; 3]), to_vector([[1; 3]; 3]));
    assert_eq!(error_of(action), "Worker 1 is already busy");
}

#[test]
fn summa_fails_on_disconnection_timeout_and_wrong_tasks() {
    let deliver_all = |orchestrator: &mut Orchestrator| {
        let (mut run, mut action) = orchestrator.start_summa(to_vector([[1; 3]; 3]), to_vector([[1; 3]; 3]));
        while let SummaAction::Dispatch(_) = action {
            action = orchestrator.summa_step(&mut run, SummaInput::Dispatched(DispatchOutcome::Delivered), 0).0;
        }
        run
    };

    let mut orchestrator = grid();
    let mut run = deliver_all(&mut orchestrator);
    let (action, _) = orchestrator.summa_step(&mut run, SummaInput::Disconnected, 0);
    assert_eq!(error_of(action), "Worker results disconnected during SUMMA iteration 0");

    let mut orchestrator = grid();
    let mut run = deliver_all(&mut orchestrator);
    let (action, notices) =
        orchestrator.summa_step(&mut run, SummaInput::Received(TaskEvent::new(3, 3, Task::TaskTimeout {})), 7);
    assert_eq!(error_of(action), "Worker 3 timed out");
    assert!(orchestrator.failed_tasks.contains(&3));
    assert_eq!(notices.len(), 1);
    assert_eq!(
        notices[0].payload,
        EventPayload::TaskFailed { task_id: 3, worker_id: 3, reason: "Timeout".to_string() }
    );

    let mut orchestrator = grid();
    let mut run = deliver_all(&mut orchestrator);
    let (action, _) =
        orchestrator.summa_step(&mut run, SummaInput::Received(TaskEvent::new(3, 3, Task::Multiply { a: 1, b: 1, k: 0 })), 0);
    assert_eq!(error_of(action), "Orchestrator received a Multiply task");

    let mut orchestrator = grid();
    let mut run = deliver_all(&mut orchestrator);
    let (action, _) =
        orchestrator.summa_step(&mut run, SummaInput::Received(TaskEvent::new(3, 3, Task::TaskInput { input: 1 })), 0);
    assert_eq!(error_of(action), "Orchestrator received an unexpected task");
}

#[test]
fn partial_results_fill_the_matrix_and_close_tasks() {
    let mut orchestrator = grid();
    let (mut run, mut action) = orchestrator.start_summa(to_vector([[1; 3]; 3]), to_vector([[1; 3]; 3]));
    while let SummaAction::Dispatch(_) = action {
        action = orchestrator.summa_step(&mut run, SummaInput::Dispatched(DispatchOutcome::Delivered), 0).0;
    }
    let (action, notices) = orchestrator.summa_step(
        &mut run,
        SummaInput::Received(TaskEvent::new(5, 5, Task::PartialResult { value: 11, k: 0 })),
        3,
    );
    assert!(matches!(action, SummaAction::Await));
    assert_eq!(orchestrator.result_matrix[1][1], 11);
    assert!(orchestrator.closed_tasks.contains(&5));
    assert!(!orchestrator.open_tasks.contains(&5));
    assert!(!orchestrator.busy_workers.contains(&5));
    assert_eq!(orchestrator.partial_results.get(&0), Some(&11));
    assert_eq!(notices.len(), 1);
    assert_eq!(notices[0].source, Source::Orchestrator);
    assert_eq!(notices[0].timestamp, 3);
    assert_eq!(notices[0].payload, EventPayload::TaskCompleted { task_id: 5, worker_id: 5 });
}

#[test]
fn late_result_after_timeout_is_ignored() {
    let mut config = AppConfig::new();
    config.set_config(3, 5, 1, false);
    let mut orchestrator = Orchestrator::from_config(1, config);
    for worker_id in 1..=9 {
        orchestrator.register_worker_channel(worker_id);
    }
    let (mut run, mut action) = orchestrator.start_summa(to_vector([[1; 3]; 3]), to_vector([[1; 3]; 3]));
    while let SummaAction::Dispatch(_) = action {
        action = orchestrator.summa_step(&mut run, SummaInput::Dispatched(DispatchOutcome::Delivered), 0).0;
    }
    let notices = orchestrator.check_task_timeouts(4);
    assert!(notices.is_empty());
    let notices = orchestrator.check_task_timeouts(5);
    assert_eq!(notices.len(), 9);
    assert!(orchestrator.open_tasks.is_empty());
    assert_eq!(orchestrator.failed_tasks.len(), 9);
    assert!(orchestrator.busy_workers.is_empty());

    let before = orchestrator.result_matrix.clone();
    let notice = orchestrator.handle_partial_result(2, 2, 100, 0, 6);
    assert!(notice.is_none());
    assert_eq!(orchestrator.result_matrix, before);
    assert!(!orchestrator.closed_tasks.contains(&2));
    assert!(orchestrator.partial_results.is_empty());
}

#[test]
fn configuration_controls_timeouts() {
    let mut config = AppConfig::new();
    config.set_config(3, 0, 0, true);
    let orchestrator = Orchestrator::from_config(2, config);
    assert_eq!(orchestrator.task_timeout(), None);
    assert_eq!(orchestrator.timeout_check_frequency(), 1);

    config.set_config(3, 250, 40, false);
    let orchestrator = Orchestrator::from_config(2, config);
    assert_eq!(orchestrator.task_timeout(), Some(250));
    assert_eq!(orchestrator.timeout_check_frequency(), 40);
    assert_eq!(orchestrator.matrix_size, 3);

    let orchestrator = Orchestrator::new(9, 3);
    assert_eq!(orchestrator.task_timeout(), None);
    assert_eq!(orchestrator.timeout_check_frequency(), 1000);
    assert_eq!(orchestrator.to_string(), "Orchestrator:  id 9");
}

#[test]
fn without_timeouts_nothing_expires() {
    let mut orchestrator = grid();
    let (mut run, mut action) = orchestrator.start_summa(to_vector([[1; 3]; 3]), to_vector([[1; 3]; 3]));
    while let SummaAction::Dispatch(_) = action {
        action = orchestrator.summa_step(&mut run, SummaInput::Dispatched(DispatchOutcome::Delivered), 0).0;
    }
    let (action, notices) = orchestrator.summa_step(&mut run, SummaInput::Tick, u64::MAX);
    assert!(matches!(action, SummaAction::Await));
    assert!(notices.is_empty());
    assert_eq!(orchestrator.open_tasks.len(), 9);
}

#[test]
fn incoming_tasks_are_processed_in_order_then_timeouts_checked() {
    let mut config = AppConfig::new();
    config.set_config(3, 10, 1, false);
    let mut orchestrator = Orchestrator::from_config(1, config);
    for worker_id in 1..=9 {
        orchestrator.register_worker_channel(worker_id);
    }
    let (mut run, mut action) = orchestrator.start_summa(to_vector([[1; 3]; 3]), to_vector([[1; 3]; 3]));
    while let SummaAction::Dispatch(_) = action {
        action = orchestrator.summa_step(&mut run, SummaInput::Dispatched(DispatchOutcome::Delivered), 0).0;
    }
    let events = vec![
        TaskEvent::new(1, 1, Task::PartialResult { value: 4, k: 0 }),
        TaskEvent::new(2, 2, Task::TaskTimeout {}),
        TaskEvent::new(1, 1, Task::PartialResult { value: 9, k: 0 }),
    ];
    let notices = orchestrator.process_incoming_tasks(events, 20);
    // task 1 completes once, task 2 fails, then the 7 other tasks time out
    assert_eq!(notices.len(), 9);
    assert_eq!(notices[0].payload, EventPayload::TaskCompleted { task_id: 1, worker_id: 1 });
    assert!(matches!(notices[1].payload, EventPayload::TaskFailed { task_id: 2, .. }));
    assert_eq!(orchestrator.result_matrix[0][0], 4);
    assert!(orchestrator.open_tasks.is_empty());
    assert_eq!(orchestrator.failed_tasks.len(), 8);
    assert!(orchestrator.closed_tasks.contains(&1));
}

#[test]
fn event_loop_turns() {
    let mut orchestrator = grid();
    let (keep_going, notices) = orchestrator.run_turn(LoopInput::Tick, 0);
    assert!(keep_going);
    assert!(notices.is_empty());
    let (keep_going, notices) =
        orchestrator.run_turn(LoopInput::Received(TaskEvent::new(1, 40, Task::PartialResult { value: 1, k: 0 })), 0);
    assert!(keep_going);
    assert!(notices.is_empty());
    let (keep_going, _) = orchestrator.run_turn(LoopInput::Disconnected, 0);
    assert!(!keep_going);
}

#[test]
fn accepts_event_guards_against_overflow() {
    let mut orchestrator = grid();
    let (mut run, mut action) = orchestrator.start_summa(to_vector([[1; 3]; 3]), to_vector([[1; 3]; 3]));
    while let SummaAction::Dispatch(_) = action {
        action = orchestrator.summa_step(&mut run, SummaInput::Dispatched(DispatchOutcome::Delivered), 0).0;
    }
    let big = TaskEvent::new(1, 1, Task::PartialResult { value: u32::MAX, k: 0 });
    assert!(orchestrator.accepts_event(&big));
    orchestrator.summa_step(&mut run, SummaInput::Received(big), 0);
    assert_eq!(orchestrator.result_matrix[0][0], u32::MAX);
    // task 1 is closed: a further result is ignored, so it is acceptable
    assert!(orchestrator.accepts_event(&TaskEvent::new(1, 1, Task::PartialResult { value: 1, k: 0 })));
    assert!(orchestrator.accepts_event(&TaskEvent::new(2, 2, Task::PartialResult { value: u32::MAX, k: 0 })));
}

#[test]
fn next_iteration_starts_only_after_every_result() {
    let mut orchestrator = grid();
    let (mut run, mut action) = orchestrator.start_summa(to_vector([[1; 3]; 3]), to_vector([[2; 3]; 3]));
    let mut orders = Vec::new();
    while let SummaAction::Dispatch(order) = action {
        orders.push(order);
        action = orchestrator.summa_step(&mut run, SummaInput::Dispatched(DispatchOutcome::Delivered), 0).0;
    }
    for (n, order) in orders.iter().enumerate() {
        let reply = TaskEvent::new(order.worker_id, order.task_id, Task::PartialResult { value: 2, k: 0 });
        action = orchestrator.summa_step(&mut run, SummaInput::Received(reply), 0).0;
        if n < 8 {
            assert!(matches!(action, SummaAction::Await));
            assert_eq!(run.k, 0);
        }
    }
    match action {
        SummaAction::Dispatch(order) => {
            assert_eq!(order, TaskEvent::new(1, 10, Task::Multiply { a: 1, b: 2, k: 1 }));
        }
        other => panic!("expected the first order of iteration 1, got {:?}", other),
    }
    assert_eq!(run.k, 1);
    assert!(orchestrator.open_tasks.is_empty());
    assert_eq!(orchestrator.result_matrix, [[2; 3]; 3]);
}

#[test]
fn completed_calculation_closes_every_task_and_frees_every_worker() {
    let mut orchestrator = Orchestrator::new(1, 2);
    for worker_id in 1..=4 {
        orchestrator.register_worker_channel(worker_id);
    }
    let (mut run, mut action) = orchestrator.start_summa(vec![vec![1, 2], vec![3, 4]], vec![vec![5, 6], vec![7, 8]]);
    let mut sent: Vec<TaskEvent> = Vec::new();
    let result = loop {
        match action {
            SummaAction::Dispatch(order) => {
                assert!(orchestrator.busy_workers.iter().all(|w| orchestrator.workers.contains(w)));
                sent.push(order);
                action = orchestrator.summa_step(&mut run, SummaInput::Dispatched(DispatchOutcome::Delivered), 0).0;
            }
            SummaAction::Await => {
                let order = sent.pop().unwrap();
                let value = match order.task {
                    Task::Multiply { a, b, .. } => a * b,
                    _ => panic!("expected a multiplication"),
                };
                let reply = TaskEvent::new(order.worker_id, order.task_id, Task::PartialResult { value, k: run.k });
                action = orchestrator.summa_step(&mut run, SummaInput::Received(reply), 0).0;
            }
            SummaAction::Finished(result) => break result,
        }
    };
    assert_eq!(result, Ok(vec![vec![19, 22], vec![43, 50]]));
    assert!(orchestrator.open_tasks.is_empty());
    assert!(orchestrator.busy_workers.is_empty());
    assert!(orchestrator.failed_tasks.is_empty());
    for task_id in 1..=8 {
        assert!(orchestrator.closed_tasks.contains(&task_id));
    }
    assert_eq!(orchestrator.workers.len(), 4);
}

#[test]
fn timeout_takes_worker_out_of_pool_until_late_result() {
    let mut orchestrator = grid();
    let (mut run, mut action) = orchestrator.start_summa(to_vector([[1; 3]; 3]), to_vector([[1; 3]; 3]));
    while let SummaAction::Dispatch(_) = action {
        action = orchestrator.summa_step(&mut run, SummaInput::Dispatched(DispatchOutcome::Delivered), 0).0;
    }
    orchestrator.summa_step(&mut run, SummaInput::Received(TaskEvent::new(1, 1, Task::PartialResult { value: 1, k: 0 })), 0);
    let timeout = TaskEvent::new(2, 2, Task::TaskTimeout {});
    orchestrator.summa_step(&mut run, SummaInput::Received(timeout), 0);
    assert_eq!(orchestrator.workers.len(), 8);
    assert!(!orchestrator.workers.contains(&2));
    assert!(orchestrator.inactive_workers.contains(&2));
    assert!(orchestrator.closed_tasks.contains(&1));
    assert!(orchestrator.failed_tasks.contains(&2));
    assert!(orchestrator.busy_workers.iter().all(|w| orchestrator.workers.contains(w)));
    assert!(!orchestrator.busy_workers.contains(&2));

    let before = orchestrator.result_matrix.clone();
    let notice = orchestrator.handle_partial_result(2, 2, 7, 0, 5);
    assert!(notice.is_none());
    assert_eq!(orchestrator.result_matrix, before);
    assert!(orchestrator.failed_tasks.contains(&2));
    assert!(!orchestrator.closed_tasks.contains(&2));
    assert!(orchestrator.workers.contains(&2));
    assert!(!orchestrator.inactive_workers.contains(&2));
}

#[test]
fn late_result_from_another_worker_changes_nothing() {
    let mut orchestrator = grid();
    let (mut run, mut action) = orchestrator.start_summa(to_vector([[1; 3]; 3]), to_vector([[1; 3]; 3]));
    while let SummaAction::Dispatch(_) = action {
        action = orchestrator.summa_step(&mut run, SummaInput::Dispatched(DispatchOutcome::Delivered), 0).0;
    }
    orchestrator.summa_step(&mut run, SummaInput::Received(TaskEvent::new(3, 3, Task::TaskTimeout {})), 0);
    orchestrator.handle_partial_result(3, 4, 7, 0, 5);
    assert!(!orchestrator.workers.contains(&3));
    assert!(orchestrator.inactive_workers.contains(&3));
    assert!(orchestrator.workers.contains(&4));
}

#[test]
fn timeout_check_without_timeouts_keeps_waiting() {
    let mut orchestrator = grid();
    let (mut run, mut action) = orchestrator.start_summa(to_vector([[1; 3]; 3]), to_vector([[1; 3]; 3]));
    while let SummaAction::Dispatch(_) = action {
        action = orchestrator.summa_step(&mut run, SummaInput::Dispatched(DispatchOutcome::Delivered), 0).0;
    }
    let (next, notices) = orchestrator.summa_step(&mut run, SummaInput::Tick, 1_000_000);
    assert!(matches!(next, SummaAction::Await));
    assert!(notices.is_empty());
    assert_eq!(orchestrator.open_tasks.len(), 9);
    assert_eq!(orchestrator.busy_workers.len(), 9);
    assert!(orchestrator.failed_tasks.is_empty());
    assert_eq!(run.k, 0);
}
