use rcompute::components::app::to_vector;
use rcompute::components::event::MonitorEvent;
use rcompute::components::orchestrator::{DispatchOutcome, Orchestrator, SummaAction, SummaInput};
use rcompute::components::task::TaskEvent;
use rcompute::components::worker::Worker;

/// Runs a SUMMA calculation on a `matrix_size` by `matrix_size` grid of
/// workers, delivering every order and feeding back every reply in turn.
fn calculate_summa(a: Vec<Vec<u32>>, b: Vec<Vec<u32>>, matrix_size: usize) -> Vec<Vec<u32>> {
    let mut orchestrator = Orchestrator::new(1, matrix_size);
    let size = (matrix_size * matrix_size) as u32;
    for worker_id in 1..=size {
        orchestrator.register_worker_channel(worker_id);
    }
    let workers: Vec<Worker> = (1..=size).map(Worker::new).collect();
    let mut notices: Vec<MonitorEvent> = Vec::new();
    let (mut run, mut action) = orchestrator.start_summa(a, b);
    let mut sent: Vec<TaskEvent> = Vec::new();
    loop {
        match action {
            SummaAction::Dispatch(order) => {
                sent.push(order);
                let (next, n) = orchestrator.summa_step(&mut run, SummaInput::Dispatched(DispatchOutcome::Delivered), 0);
                notices.extend(n);
                action = next;
            }
            SummaAction::Await => {
                let order = sent.remove(0);
                let worker = &workers[(order.worker_id - 1) as usize];
                let (worker_notices, reply) = worker.handle_task(order, 0).unwrap();
                notices.extend(worker_notices);
                let (next, n) = orchestrator.summa_step(&mut run, SummaInput::Received(reply), 0);
                notices.extend(n);
                action = next;
            }
            SummaAction::Finished(result) => return result.unwrap(),
        }
    }
}

#[test]
fn multithreaded_calculator_test_instantiation() {
    let orchestrator = Orchestrator::new(1, 3);

    assert_eq!(orchestrator.matrix_size, 3);
    assert_eq!(orchestrator.result_matrix, [[0; 3]; 3]);
}

#[test]
fn instantiation_four() {
    let orchestrator = Orchestrator::new(1, 4);

    assert_eq!(orchestrator.matrix_size, 4);
    assert_eq!(orchestrator.result_matrix, [[0; 4]; 4]);
}

#[test]
fn multithreaded_calculator_test_calculate_ones() {
    assert_eq!(
        calculate_summa(
            to_vector([[1, 1, 1], [1, 1, 1], [1, 1, 1]]),
            to_vector([[1, 1, 1], [1, 1, 1], [1, 1, 1]]),
            3
        ),
        to_vector([[3, 3, 3], [3, 3, 3], [3, 3, 3]])
    );
}

#[test]
fn calculate_ones_four() {
    assert_eq!(
        calculate_summa(
            [[1, 1, 1, 1], [1, 1, 1, 1], [1, 1, 1, 1], [1, 1, 1, 1]].map(|row| row.to_vec()).to_vec(),
            [[1, 1, 1, 1], [1, 1, 1, 1], [1, 1, 1, 1], [1, 1, 1, 1]].map(|row| row.to_vec()).to_vec(),
            4
        ),
        [[4, 4, 4, 4], [4, 4, 4, 4], [4, 4, 4, 4], [4, 4, 4, 4]].map(|row| row.to_vec()).to_vec()
    );
}

#[test]
fn multithreaded_calculator_test_identity() {
    let a = to_vector([[1, 2, 3], [4, 5, 6], [7, 8, 9]]);
    let identity = to_vector([[1, 0, 0], [0, 1, 0], [0, 0, 1]]);

    assert_eq!(calculate_summa(a.clone(), identity.clone(), 3), a);
    assert_eq!(calculate_summa(identity.clone(), a.clone(), 3), a);
}

#[test]
fn multithreaded_calculator_test_zero() {
    let a = to_vector([[1, 2, 3], [4, 5, 6], [7, 8, 9]]);
    let zero = to_vector([[0, 0, 0], [0, 0, 0], [0, 0, 0]]);

    assert_eq!(calculate_summa(a.clone(), zero.clone(), 3), zero);
    assert_eq!(calculate_summa(zero.clone(), a.clone(), 3), zero);
}

#[test]
fn multithreaded_calculator_test_example() {
    let a = to_vector([[1, 2, 3], [4, 5, 6], [7, 8, 9]]);
    let b = to_vector([[9, 8, 7], [6, 5, 4], [3, 2, 1]]);
    assert_eq!(calculate_summa(a.clone(), b.clone(), 3), to_vector([[30, 24, 18], [84, 69, 54], [138, 114, 90]]));
}

#[test]
fn multithreaded_calculator_test_diagonal() {
    let a = to_vector([[2, 0, 0], [0, 3, 0], [0, 0, 4]]);
    let b = to_vector([[5, 0, 0], [0, 6, 0], [0, 0, 7]]);
    assert_eq!(calculate_summa(a.clone(), b.clone(), 3), to_vector([[10, 0, 0], [0, 18, 0], [0, 0, 28]]));
}

#[test]
fn multithreaded_calculator_test_column() {
    let a = to_vector([[1, 2, 3], [4, 5, 6], [7, 8, 9]]);
    let b = to_vector([[0, 0, 0], [0, 1, 0], [0, 0, 0]]);
    assert_eq!(calculate_summa(a.clone(), b.clone(), 3), to_vector([[0, 2, 0], [0, 5, 0], [0, 8, 0]]));
}

#[test]
fn multithreaded_calculator_test_random() {
    let a = to_vector([[2, 1, 3], [0, 4, 2], [5, 2, 1]]);
    let b = to_vector([[1, 3, 2], [4, 0, 1], [2, 5, 3]]);
    assert_eq!(calculate_summa(a.clone(), b.clone(), 3), to_vector([[12, 21, 14], [20, 10, 10], [15, 20, 15]]));
}

#[test]
fn two_by_two_product_on_four_workers() {
    let a = vec![vec![1, 2], vec![3, 4]];
    let b = vec![vec![5, 6], vec![7, 8]];
    assert_eq!(calculate_summa(a, b, 2), vec![vec![19, 22], vec![43, 50]]);
}

#[test]
fn empty_grid_gives_the_empty_product() {
    assert_eq!(calculate_summa(Vec::new(), Vec::new(), 0), Vec::<Vec<u32>>::new());
}

#[test]
fn four_by_four_product() {
    let a = vec![vec![1, 2, 3, 4], vec![5, 6, 7, 8], vec![9, 10, 11, 12], vec![13, 14, 15, 16]];
    let b = vec![vec![1, 0, 0, 1], vec![0, 1, 0, 0], vec![0, 0, 1, 0], vec![2, 0, 0, 1]];
    assert_eq!(
        calculate_summa(a, b, 4),
        vec![vec![9, 2, 3, 5], vec![21, 6, 7, 13], vec![33, 10, 11, 21], vec![45, 14, 15, 29]]
    );
}
