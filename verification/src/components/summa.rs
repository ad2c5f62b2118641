use vstd::prelude::*;
use crate::components::orchestrator::{
    after_event_step, cell_col, cell_row, covers, first_missing_worker, event_fits, event_step, expects, is_square, lemma_cell_in_grid,
    lemma_task_in_range, multiply_order, partial_result_fits, prepare_step, run_in_range, summa_next, summa_start, summa_task,
    timeouts_step, wait_or_advance_step, overdue_in_flight, workers_of, law_no_timeout_before_its_time, zero_matrix, DispatchOutcome, OrchestratorState, SummaInput, SummaOutcome,
    SummaPhase, SummaRunView,
};
use crate::components::task::{Task, TaskEvent};
use crate::components::single_threaded_calculator::{dot_prefix, is_product, product_entry};

verus! {

/// Sum of the first `k` terms of the dot product of row `i` of `a` with column
/// `j` of `b`: `a[i][0] * b[0][j] + ... + a[i][k - 1] * b[k - 1][j]`.
pub open spec fn dot(a: Seq<Seq<u32>>, b: Seq<Seq<u32>>, i: int, j: int, k: int) -> int
    decreases k,
{
    if k <= 0 {
        0
    } else {
        dot(a, b, i, j, k - 1) + a[i][k - 1] * b[k - 1][j]
    }
}

/// Every entry of the n by n product `a * b` fits in a `u32`.
pub open spec fn product_fits(a: Seq<Seq<u32>>, b: Seq<Seq<u32>>, n: int) -> bool {
    forall|i: int, j: int| 0 <= i < n && 0 <= j < n ==> #[trigger] dot(a, b, i, j, n) <= u32::MAX
}

/// `c` is the n by n matrix product `a * b`.
pub open spec fn is_matrix_product(c: Seq<Seq<u32>>, a: Seq<Seq<u32>>, b: Seq<Seq<u32>>, n: int) -> bool {
    &&& is_square(c, n)
    &&& forall|i: int, j: int| 0 <= i < n && 0 <= j < n ==> c[i][j] == #[trigger] dot(a, b, i, j, n)
}

/// The n * n * n task ids of an n by n grid fit in `u32`.
pub open spec fn ids_fit(n: int) -> bool {
    n * n * n <= u32::MAX
}

/// Partial dot products grow with the number of terms and are never negative.
pub proof fn lemma_dot_monotone(a: Seq<Seq<u32>>, b: Seq<Seq<u32>>, i: int, j: int, k: int, m: int)
    requires
        k <= m,
    ensures
        0 <= dot(a, b, i, j, k) <= dot(a, b, i, j, m),
    decreases m,
{
    if m > 0 {
        let x = a[i][m - 1];
        let y = b[m - 1][j];
        assert(0 <= x * y) by (nonlinear_arith)
            requires
                0 <= x,
                0 <= y,
        ;
        if k < m {
            lemma_dot_monotone(a, b, i, j, k, m - 1);
        } else {
            lemma_dot_monotone(a, b, i, j, m - 1, m - 1);
        }
    }
}

/// Cell `i * n + j` of an n by n grid is `(i, j)`.
proof fn lemma_cell_of(n: int, i: int, j: int)
    requires
        0 <= i < n,
        0 <= j < n,
    ensures
        0 <= i * n + j < n * n,
        cell_row(n, i * n + j) == i,
        cell_col(n, i * n + j) == j,
{
    vstd::arithmetic::div_mod::lemma_fundamental_div_mod_converse(i * n + j, n, i, j);
    assert(0 <= i * n + j < n * n) by (nonlinear_arith)
        requires
            0 <= i < n,
            0 <= j < n,
    ;
}

/// The task ids of an n by n grid are `u32` values when they fit.
proof fn lemma_task_fits(n: int, k: int, c: int)
    requires
        ids_fit(n),
        0 <= k < n,
        0 <= c < n * n,
    ensures
        summa_task(n, k, c) as u32 == summa_task(n, k, c),
        summa_task(n, k, c) - k * n * n - 1 == c,
{
    lemma_task_in_range(n, k, c);
}

/// How many cells of the current iteration have had their multiplication
/// delivered.
pub open spec fn delivered_cells(run: SummaRunView) -> int {
    if run.phase == SummaPhase::Dispatching {
        run.cell as int
    } else {
        (run.size * run.size) as int
    }
}

/// Cell `c` holds the sum of the first `k` terms of its dot product, plus the
/// term of iteration `k` once its multiplication has been delivered and its
/// result recorded.
pub open spec fn cell_holds(s: OrchestratorState, a: Seq<Seq<u32>>, b: Seq<Seq<u32>>, n: int, k: int, d: int, c: int) -> bool {
    let i = cell_row(n, c);
    let j = cell_col(n, c);
    s.result_matrix[i][j] == dot(a, b, i, j, k) + if c < d && !s.summa_assignments.contains_key(summa_task(n, k, c) as u32) {
        a[i][k] * b[k][j]
    } else {
        0
    }
}

/// The bookkeeping of iteration `k` of a SUMMA calculation of `a * b` on an n
/// by n grid once the first `d` cells were delivered: every recorded
/// assignment is a delivered cell of this iteration whose task is open or
/// failed, and every cell of the result matrix holds its partial dot product.
pub open spec fn iteration_holds(s: OrchestratorState, a: Seq<Seq<u32>>, b: Seq<Seq<u32>>, n: int, k: int, d: int) -> bool {
    &&& 0 <= k < n
    &&& 0 <= d <= n * n
    &&& is_square(s.result_matrix, n)
    &&& forall|t: u32| #[trigger] s.summa_assignments.contains_key(t) ==> {
        &&& s.open_tasks.contains(t) || s.failed_tasks.contains(t)
        &&& 0 <= t - k * n * n - 1 < d
        &&& s.summa_assignments[t] == (cell_row(n, t - k * n * n - 1) as usize, cell_col(n, t - k * n * n - 1) as usize)
    }
    &&& forall|c: int| 0 <= c < n * n ==> #[trigger] cell_holds(s, a, b, n, k, d, c)
}

/// What holds of a SUMMA calculation that is not over.
pub open spec fn summa_holds(s: OrchestratorState, run: SummaRunView) -> bool {
    run.phase != SummaPhase::Finished ==> {
        &&& run_in_range(run)
        &&& run.size == s.matrix_size
        &&& ids_fit(run.size as int)
        &&& iteration_holds(s, run.a, run.b, run.size as int, run.k as int, delivered_cells(run))
    }
}

/// Every result that arrives for an assigned open task is the product that
/// was sent for it: `A[i][k] * B[k][j]` for its cell `(i, j)`.
pub open spec fn honest(s: OrchestratorState, run: SummaRunView, input: SummaInput) -> bool {
    input matches SummaInput::Received(e) ==> (e.task matches Task::PartialResult { value, .. } ==> (s.open_tasks.contains(e.task_id)
        && s.summa_assignments.contains_key(e.task_id) ==> value == run.a[s.summa_assignments[e.task_id].0 as int][run.k as int]
        * run.b[run.k as int][s.summa_assignments[e.task_id].1 as int]))
}

proof fn lemma_prepare_holds(s: OrchestratorState, run: SummaRunView)
    requires
        run_in_range(run),
        run.size == s.matrix_size,
        ids_fit(run.size as int),
        iteration_holds(s, run.a, run.b, run.size as int, run.k as int, run.cell as int),
    ensures
        summa_holds(prepare_step(s, run).0, prepare_step(s, run).1),
{
    let n = run.size as int;
    let k = run.k as int;
    let s2 = prepare_step(s, run).0;
    if prepare_step(s, run).1.phase != SummaPhase::Finished {
        assert forall|c: int| 0 <= c < n * n implies #[trigger] cell_holds(s2, run.a, run.b, n, k, run.cell as int, c) by {
            assert(cell_holds(s, run.a, run.b, n, k, run.cell as int, c));
        }
        assert forall|t: u32| #[trigger] s2.summa_assignments.contains_key(t) implies {
            &&& s2.open_tasks.contains(t) || s2.failed_tasks.contains(t)
            &&& 0 <= t - k * n * n - 1 < run.cell
            &&& s2.summa_assignments[t] == (cell_row(n, t - k * n * n - 1) as usize, cell_col(n, t - k * n * n - 1) as usize)
        } by {
            assert(s.summa_assignments.contains_key(t));
        }
    }
}

/// When no task is open or failed after every cell of iteration `k` was
/// delivered, each cell holds the first `k + 1` terms of its dot product.
proof fn lemma_iteration_complete(s: OrchestratorState, a: Seq<Seq<u32>>, b: Seq<Seq<u32>>, n: int, k: int)
    requires
        iteration_holds(s, a, b, n, k, n * n),
        s.open_tasks.is_empty(),
        s.failed_tasks.is_empty(),
    ensures
        s.summa_assignments.dom() =~= Set::empty(),
        forall|c: int| 0 <= c < n * n ==> s.result_matrix[#[trigger] cell_row(n, c)][cell_col(n, c)] == dot(a, b, cell_row(n, c), cell_col(n, c), k + 1),
{
    assert forall|t: u32| !s.summa_assignments.contains_key(t) by {
        if s.summa_assignments.contains_key(t) {
            assert(s.open_tasks.contains(t) || s.failed_tasks.contains(t));
        }
    }
    assert forall|c: int| 0 <= c < n * n implies s.result_matrix[#[trigger] cell_row(n, c)][cell_col(n, c)] == dot(a, b, cell_row(n, c), cell_col(n, c), k + 1) by {
        assert(cell_holds(s, a, b, n, k, n * n, c));
        assert(!s.summa_assignments.contains_key(summa_task(n, k, c) as u32));
    }
}

/// A result matrix whose every cell holds its full dot product is the product.
proof fn lemma_complete_is_product(s: OrchestratorState, a: Seq<Seq<u32>>, b: Seq<Seq<u32>>, n: int)
    requires
        is_square(s.result_matrix, n),
        forall|c: int| 0 <= c < n * n ==> s.result_matrix[#[trigger] cell_row(n, c)][cell_col(n, c)] == dot(a, b, cell_row(n, c), cell_col(n, c), n),
    ensures
        is_matrix_product(s.result_matrix, a, b, n),
{
    assert forall|i: int, j: int| 0 <= i < n && 0 <= j < n implies s.result_matrix[i][j] == #[trigger] dot(a, b, i, j, n) by {
        lemma_cell_of(n, i, j);
        let c = i * n + j;
        assert(s.result_matrix[cell_row(n, c)][cell_col(n, c)] == dot(a, b, cell_row(n, c), cell_col(n, c), n));
    }
}

/// Waiting or advancing keeps a SUMMA calculation on track, and the matrix it
/// finishes with is the product.
proof fn lemma_wait_or_advance_holds(s: OrchestratorState, run: SummaRunView)
    requires
        run_in_range(run),
        run.size == s.matrix_size,
        ids_fit(run.size as int),
        iteration_holds(s, run.a, run.b, run.size as int, run.k as int, (run.size * run.size) as int),
        s.failed_tasks.is_empty(),
    ensures
        summa_holds(wait_or_advance_step(s, run).0, wait_or_advance_step(s, run).1),
        wait_or_advance_step(s, run).2 matches SummaOutcome::Done(m) ==> is_matrix_product(m, run.a, run.b, run.size as int),
{
    let n = run.size as int;
    let k = run.k as int;
    if !s.open_tasks.is_empty() {
    } else {
        lemma_iteration_complete(s, run.a, run.b, n, k);
        if run.k + 1 < run.size {
            let run2 = SummaRunView { k: run.k + 1, cell: 0, ..run };
            assert forall|c: int| 0 <= c < n * n implies #[trigger] cell_holds(s, run.a, run.b, n, k + 1, 0, c) by {
                assert(s.result_matrix[cell_row(n, c)][cell_col(n, c)] == dot(run.a, run.b, cell_row(n, c), cell_col(n, c), k + 1));
            }
            assert(0 < n * n) by (nonlinear_arith)
                requires
                    0 < n,
            ;
            assert(iteration_holds(s, run.a, run.b, n, k + 1, 0));
            lemma_prepare_holds(s, run2);
        } else {
            lemma_complete_is_product(s, run.a, run.b, n);
        }
    }
}

/// After an event or a timeout check, a SUMMA calculation stays on track, and
/// the matrix it finishes with is the product.
proof fn lemma_after_event_holds(s: OrchestratorState, run: SummaRunView)
    requires
        run_in_range(run),
        run.size == s.matrix_size,
        ids_fit(run.size as int),
        iteration_holds(s, run.a, run.b, run.size as int, run.k as int, (run.size * run.size) as int),
    ensures
        summa_holds(after_event_step(s, run).0, after_event_step(s, run).1),
        after_event_step(s, run).2 matches SummaOutcome::Done(m) ==> is_matrix_product(m, run.a, run.b, run.size as int),
{
    if s.failed_tasks.is_empty() {
        lemma_wait_or_advance_holds(s, run);
    }
}

/// An honest partial result keeps the iteration on track and never overflows
/// the result matrix.
proof fn lemma_partial_result_holds(s: OrchestratorState, run: SummaRunView, e: TaskEvent, value: u32, kk: usize)
    requires
        run_in_range(run),
        ids_fit(run.size as int),
        product_fits(run.a, run.b, run.size as int),
        iteration_holds(s, run.a, run.b, run.size as int, run.k as int, (run.size * run.size) as int),
        e.task == (Task::PartialResult { value, k: kk }),
        honest(s, run, SummaInput::Received(e)),
    ensures
        partial_result_fits(s, e.task_id, value),
        event_step(s, e).matrix_size == s.matrix_size,
        iteration_holds(event_step(s, e), run.a, run.b, run.size as int, run.k as int, (run.size * run.size) as int),
{
    let a = run.a;
    let b = run.b;
    let n = run.size as int;
    let k = run.k as int;
    let t = e.task_id;
    let s1 = event_step(s, e);
    if s.open_tasks.contains(t) {
        if s.summa_assignments.contains_key(t) {
            let c0 = t - k * n * n - 1;
            lemma_cell_in_grid(n, c0);
            lemma_task_fits(n, k, c0);
            let i = cell_row(n, c0);
            let j = cell_col(n, c0);
            assert(s.summa_assignments[t] == (i as usize, j as usize));
            assert(cell_holds(s, a, b, n, k, n * n, c0));
            assert(s.result_matrix[i][j] == dot(a, b, i, j, k));
            assert(dot(a, b, i, j, k + 1) == dot(a, b, i, j, k) + a[i][k] * b[k][j]);
            lemma_dot_monotone(a, b, i, j, k + 1, n);
            assert(dot(a, b, i, j, n) <= u32::MAX);
            assert(s.result_matrix[i][j] + value <= u32::MAX);
            assert(partial_result_fits(s, t, value));
            assert forall|c: int| 0 <= c < n * n implies #[trigger] cell_holds(s1, a, b, n, k, n * n, c) by {
                assert(cell_holds(s, a, b, n, k, n * n, c));
                lemma_cell_in_grid(n, c);
                lemma_task_fits(n, k, c);
                if c != c0 {
                    assert(summa_task(n, k, c) as u32 != t);
                    assert(cell_row(n, c) != i || cell_col(n, c) != j);
                    if cell_row(n, c) == i {
                        assert(s1.result_matrix[i][cell_col(n, c)] == s.result_matrix[i][cell_col(n, c)]);
                    } else {
                        assert(s1.result_matrix[cell_row(n, c)] == s.result_matrix[cell_row(n, c)]);
                    }
                } else {
                    assert(s1.result_matrix[i][j] == s.result_matrix[i][j] + value);
                }
            }
            assert forall|r: int| 0 <= r < n implies (#[trigger] s1.result_matrix[r]).len() == n by {
                assert(s.result_matrix[r].len() == n);
            }
        } else {
            assert forall|c: int| 0 <= c < n * n implies #[trigger] cell_holds(s1, a, b, n, k, n * n, c) by {
                assert(cell_holds(s, a, b, n, k, n * n, c));
            }
        }
        assert forall|x: u32| #[trigger] s1.summa_assignments.contains_key(x) implies {
            &&& s1.open_tasks.contains(x) || s1.failed_tasks.contains(x)
            &&& 0 <= x - k * n * n - 1 < n * n
            &&& s1.summa_assignments[x] == (cell_row(n, x - k * n * n - 1) as usize, cell_col(n, x - k * n * n - 1) as usize)
        } by {
            assert(s.summa_assignments.contains_key(x));
        }
    } else {
        assert forall|c: int| 0 <= c < n * n implies #[trigger] cell_holds(s1, a, b, n, k, n * n, c) by {
            assert(cell_holds(s, a, b, n, k, n * n, c));
        }
        assert forall|x: u32| #[trigger] s1.summa_assignments.contains_key(x) implies {
            &&& s1.open_tasks.contains(x) || s1.failed_tasks.contains(x)
            &&& 0 <= x - k * n * n - 1 < n * n
            &&& s1.summa_assignments[x] == (cell_row(n, x - k * n * n - 1) as usize, cell_col(n, x - k * n * n - 1) as usize)
        } by {
            assert(s.summa_assignments.contains_key(x));
        }
    }
}

/// One step of a SUMMA calculation, on an input it expects and with workers
/// that report the products they were sent, keeps the calculation on track,
/// needs no result that overflows, and the matrix it finishes with is `A * B`.
pub proof fn lemma_summa_step_holds(s: OrchestratorState, run: SummaRunView, input: SummaInput, now: u64)
    requires
        summa_holds(s, run),
        expects(run, input),
        honest(s, run, input),
        product_fits(run.a, run.b, run.size as int),
    ensures
        input matches SummaInput::Received(e) ==> event_fits(s, e),
        summa_next(s, run, input, now).1.a == run.a,
        summa_next(s, run, input, now).1.b == run.b,
        summa_next(s, run, input, now).1.size == run.size,
        summa_holds(summa_next(s, run, input, now).0, summa_next(s, run, input, now).1),
        summa_next(s, run, input, now).2 matches SummaOutcome::Done(m) ==> is_matrix_product(m, run.a, run.b, run.size as int),
{
    let a = run.a;
    let b = run.b;
    let n = run.size as int;
    let k = run.k as int;
    match input {
        SummaInput::Dispatched(DispatchOutcome::Delivered) => {
            let c = run.cell as int;
            let e = multiply_order(run, k, c);
            let t = e.task_id;
            lemma_cell_in_grid(n, c);
            lemma_task_fits(n, k, c);
            let s1 = OrchestratorState {
                open_tasks: s.open_tasks.insert(e.task_id),
                in_progress_tasks: s.in_progress_tasks.insert(e.task_id, (e.worker_id, now)),
                summa_assignments: s.summa_assignments.insert(e.task_id, (cell_row(n, c) as usize, cell_col(n, c) as usize)),
                ..s
            };
            assert(t == summa_task(n, k, c) as u32);
            assert(!s.summa_assignments.contains_key(t));
            assert forall|x: u32| #[trigger] s1.summa_assignments.contains_key(x) implies {
                &&& s1.open_tasks.contains(x) || s1.failed_tasks.contains(x)
                &&& 0 <= x - k * n * n - 1 < c + 1
                &&& s1.summa_assignments[x] == (cell_row(n, x - k * n * n - 1) as usize, cell_col(n, x - k * n * n - 1) as usize)
            } by {
                if x != t {
                    assert(s.summa_assignments.contains_key(x));
                }
            }
            assert forall|cc: int| 0 <= cc < n * n implies #[trigger] cell_holds(s1, a, b, n, k, c + 1, cc) by {
                assert(cell_holds(s, a, b, n, k, c, cc));
                lemma_task_fits(n, k, cc);
                if cc != c {
                    assert(summa_task(n, k, cc) as u32 != t);
                }
            }
            assert(iteration_holds(s1, a, b, n, k, c + 1));
            if run.cell + 1 < run.size * run.size {
                lemma_prepare_holds(s1, SummaRunView { cell: run.cell + 1, ..run });
            } else {
                assert(s1.open_tasks.contains(t));
            }
        },
        SummaInput::Received(e) => {
            match e.task {
                Task::PartialResult { value, k: kk } => {
                    lemma_partial_result_holds(s, run, e, value, kk);
                    lemma_after_event_holds(event_step(s, e), run);
                },
                _ => {},
            }
        },
        SummaInput::Tick => {
            let s1 = timeouts_step(s, now);
            assert forall|x: u32| #[trigger] s1.summa_assignments.contains_key(x) implies {
                &&& s1.open_tasks.contains(x) || s1.failed_tasks.contains(x)
                &&& 0 <= x - k * n * n - 1 < n * n
                &&& s1.summa_assignments[x] == (cell_row(n, x - k * n * n - 1) as usize, cell_col(n, x - k * n * n - 1) as usize)
            } by {
                assert(s.summa_assignments.contains_key(x));
            }
            assert forall|cc: int| 0 <= cc < n * n implies #[trigger] cell_holds(s1, a, b, n, k, n * n, cc) by {
                assert(cell_holds(s, a, b, n, k, n * n, cc));
            }
            lemma_after_event_holds(s1, run);
        },
        _ => {},
    }
}

/// Starting a SUMMA calculation puts it on track; on an empty grid it
/// finishes at once with the empty product.
pub proof fn lemma_summa_start_holds(s: OrchestratorState, a: Seq<Seq<u32>>, b: Seq<Seq<u32>>)
    requires
        covers(a, s.matrix_size as int),
        covers(b, s.matrix_size as int),
        ids_fit(s.matrix_size as int),
    ensures
        summa_start(s, a, b).1.a == a,
        summa_start(s, a, b).1.b == b,
        summa_start(s, a, b).1.size == s.matrix_size,
        summa_holds(summa_start(s, a, b).0, summa_start(s, a, b).1),
        summa_start(s, a, b).2 matches SummaOutcome::Done(m) ==> is_matrix_product(m, a, b, s.matrix_size as int),
{
    let n = s.matrix_size as int;
    let s1 = OrchestratorState { result_matrix: zero_matrix(n as nat), summa_assignments: Map::empty(), ..s };
    let run = SummaRunView { a, b, size: n as nat, k: 0, cell: 0, phase: SummaPhase::Dispatching };
    assert(is_square(zero_matrix(n as nat), n));
    if n > 0 {
        assert(0 < n * n) by (nonlinear_arith)
            requires
                0 < n,
        ;
        assert(n * n * n <= usize::MAX);
        assert forall|c: int| 0 <= c < n * n implies #[trigger] cell_holds(s1, a, b, n, 0, 0, c) by {
            lemma_cell_in_grid(n, c);
        }
        lemma_prepare_holds(s1, run);
    }
}

/// The state, the run and the last outcome of a SUMMA calculation of `a * b`
/// started in state `s` and fed `inputs` (each with its time), in order.
pub open spec fn summa_after(s: OrchestratorState, a: Seq<Seq<u32>>, b: Seq<Seq<u32>>, inputs: Seq<(SummaInput, u64)>) -> (OrchestratorState, SummaRunView, SummaOutcome)
    decreases inputs.len(),
{
    if inputs.len() == 0 {
        summa_start(s, a, b)
    } else {
        let prev = summa_after(s, a, b, inputs.drop_last());
        summa_next(prev.0, prev.1, inputs.last().0, inputs.last().1)
    }
}

/// Each input was what the calculation asked for, and every result reported
/// by a worker is the product it was sent.
pub open spec fn honest_run(s: OrchestratorState, a: Seq<Seq<u32>>, b: Seq<Seq<u32>>, inputs: Seq<(SummaInput, u64)>) -> bool
    decreases inputs.len(),
{
    inputs.len() == 0 || {
        let prev = summa_after(s, a, b, inputs.drop_last());
        &&& honest_run(s, a, b, inputs.drop_last())
        &&& expects(prev.1, inputs.last().0)
        &&& honest(prev.0, prev.1, inputs.last().0)
    }
}

/// A SUMMA calculation computes the matrix product: for n by n matrices,
/// n being the matrix size, when the workers report the products they were
/// sent and the product fits in `u32`, no reported result overflows, and a
/// calculation that finishes with a matrix finishes with `a * b`.
pub proof fn law_summa_computes_product(s: OrchestratorState, a: Seq<Seq<u32>>, b: Seq<Seq<u32>>, inputs: Seq<(SummaInput, u64)>)
    requires
        covers(a, s.matrix_size as int),
        covers(b, s.matrix_size as int),
        ids_fit(s.matrix_size as int),
        product_fits(a, b, s.matrix_size as int),
        honest_run(s, a, b, inputs),
    ensures
        summa_after(s, a, b, inputs).1.a == a,
        summa_after(s, a, b, inputs).1.b == b,
        summa_after(s, a, b, inputs).1.size == s.matrix_size,
        summa_holds(summa_after(s, a, b, inputs).0, summa_after(s, a, b, inputs).1),
        summa_after(s, a, b, inputs).2 matches SummaOutcome::Done(m) ==> is_matrix_product(m, a, b, s.matrix_size as int),
        inputs.len() > 0 ==> (inputs.last().0 matches SummaInput::Received(e) ==> event_fits(summa_after(s, a, b, inputs.drop_last()).0, e)),
    decreases inputs.len(),
{
    if inputs.len() == 0 {
        lemma_summa_start_holds(s, a, b);
    } else {
        let prev = summa_after(s, a, b, inputs.drop_last());
        law_summa_computes_product(s, a, b, inputs.drop_last());
        lemma_summa_step_holds(prev.0, prev.1, inputs.last().0, inputs.last().1);
    }
}

/// Every multiplication that a SUMMA step asks to send goes to the worker of
/// its C cell `(i, j)`, worker `i * n + j + 1`, as task `k * n * n + i * n +
/// j + 1`, with `A[i][k]` and `B[k][j]` of the iteration `k` under way; the
/// first order of a calculation is `A[0][0] * B[0][0]` for worker 1.
pub proof fn law_summa_orders_follow_grid(s: OrchestratorState, run: SummaRunView, input: SummaInput, now: u64)
    requires
        run_in_range(run),
    ensures
        summa_next(s, run, input, now).2 matches SummaOutcome::Dispatch(e) ==> {
            let r = summa_next(s, run, input, now).1;
            let n = run.size as int;
            let i = r.cell / run.size;
            let j = r.cell % run.size;
            &&& r.a == run.a && r.b == run.b && r.size == run.size
            &&& i < run.size && j < run.size
            &&& e.worker_id == (i * n + j + 1) as u32
            &&& e.task_id == (r.k * n * n + i * n + j + 1) as u32
            &&& e.task == (Task::Multiply { a: run.a[i as int][r.k as int], b: run.b[r.k as int][j as int], k: r.k as usize })
        },
        summa_start(s, run.a, run.b).2 matches SummaOutcome::Dispatch(e) ==> {
            &&& e.worker_id == 1
            &&& e.task_id == 1
            &&& e.task == (Task::Multiply { a: run.a[0][0], b: run.b[0][0], k: 0 })
        },
{
    let n = run.size as int;
    let r = summa_next(s, run, input, now).1;
    if summa_next(s, run, input, now).2 is Dispatch {
        assert(r.cell < n * n) by {
            if r.k != run.k {
                assert(0 < n * n) by (nonlinear_arith)
                    requires
                        0 < n,
                ;
            }
        }
        lemma_cell_in_grid(n, r.cell as int);
    }
}

/// A SUMMA calculation moves on to the next iteration only once every task
/// of the current one has completed: no task is open or failed then.
pub proof fn law_summa_iterations_wait_for_results(s: OrchestratorState, run: SummaRunView, input: SummaInput, now: u64)
    requires
        run_in_range(run),
        expects(run, input),
    ensures
        summa_next(s, run, input, now).1.k != run.k ==> {
            let s1 = match input {
                SummaInput::Received(e) => event_step(s, e),
                SummaInput::Tick => timeouts_step(s, now),
                _ => s,
            };
            &&& summa_next(s, run, input, now).1.k == run.k + 1
            &&& s1.open_tasks.is_empty()
            &&& s1.failed_tasks.is_empty()
            &&& summa_next(s, run, input, now).0.open_tasks.is_empty()
        },
{
    if input == SummaInput::Dispatched(DispatchOutcome::Delivered) {
        let e = multiply_order(run, run.k as int, run.cell as int);
        assert(s.open_tasks.insert(e.task_id).contains(e.task_id));
    }
}

/// The reply a worker sends for a multiplication order: the product as a
/// partial result of the same task and iteration.
pub open spec fn worker_reply(order: TaskEvent) -> TaskEvent {
    match order.task {
        Task::Multiply { a, b, k } => TaskEvent { worker_id: order.worker_id, task_id: order.task_id, task: Task::PartialResult { value: (a * b) as u32, k } },
        _ => order,
    }
}

/// Workers keep a SUMMA calculation honest: the reply to any multiplication
/// of the current iteration is the product that the calculation expects for
/// its cell, and no such product overflows when `A * B` fits in `u32`.
pub proof fn law_worker_replies_are_honest(s: OrchestratorState, run: SummaRunView, c: int)
    requires
        summa_holds(s, run),
        run.phase != SummaPhase::Finished,
        product_fits(run.a, run.b, run.size as int),
        0 <= c < run.size * run.size,
    ensures
        run.a[cell_row(run.size as int, c)][run.k as int] * run.b[run.k as int][cell_col(run.size as int, c)] <= u32::MAX,
        honest(s, run, SummaInput::Received(worker_reply(multiply_order(run, run.k as int, c)))),
{
    let n = run.size as int;
    let k = run.k as int;
    lemma_cell_in_grid(n, c);
    lemma_task_fits(n, k, c);
    let i = cell_row(n, c);
    let j = cell_col(n, c);
    lemma_dot_monotone(run.a, run.b, i, j, k + 1, n);
    lemma_dot_monotone(run.a, run.b, i, j, k, k);
    assert(dot(run.a, run.b, i, j, k + 1) == dot(run.a, run.b, i, j, k) + run.a[i][k] * run.b[k][j]);
    assert(dot(run.a, run.b, i, j, n) <= u32::MAX);
    let e = worker_reply(multiply_order(run, k, c));
    assert(e.task_id == summa_task(n, k, c) as u32);
    if s.summa_assignments.contains_key(e.task_id) {
        assert(s.summa_assignments[e.task_id] == (cell_row(n, e.task_id - k * n * n - 1) as usize, cell_col(n, e.task_id - k * n * n - 1) as usize));
    }
}

/// Each input was what the calculation asked for, and every event received is
/// a worker's reply to a multiplication of the iteration under way.
pub open spec fn worker_run(s: OrchestratorState, a: Seq<Seq<u32>>, b: Seq<Seq<u32>>, inputs: Seq<(SummaInput, u64)>) -> bool
    decreases inputs.len(),
{
    inputs.len() == 0 || {
        let prev = summa_after(s, a, b, inputs.drop_last());
        &&& worker_run(s, a, b, inputs.drop_last())
        &&& expects(prev.1, inputs.last().0)
        &&& inputs.last().0 matches SummaInput::Received(e) ==> exists|c: int|
            0 <= c < prev.1.size * prev.1.size && e == #[trigger] worker_reply(multiply_order(prev.1, prev.1.k as int, c))
    }
}

/// A SUMMA calculation run with the library's workers computes the matrix
/// product: when every event it receives is a worker's reply to one of the
/// multiplications of the current iteration, and `a * b` fits in `u32`, a
/// calculation that finishes with a matrix finishes with `a * b`.
pub proof fn law_summa_with_workers_computes_product(s: OrchestratorState, a: Seq<Seq<u32>>, b: Seq<Seq<u32>>, inputs: Seq<(SummaInput, u64)>)
    requires
        covers(a, s.matrix_size as int),
        covers(b, s.matrix_size as int),
        ids_fit(s.matrix_size as int),
        product_fits(a, b, s.matrix_size as int),
        worker_run(s, a, b, inputs),
    ensures
        honest_run(s, a, b, inputs),
        summa_after(s, a, b, inputs).2 matches SummaOutcome::Done(m) ==> is_matrix_product(m, a, b, s.matrix_size as int),
    decreases inputs.len(),
{
    if inputs.len() > 0 {
        let prev = summa_after(s, a, b, inputs.drop_last());
        law_summa_with_workers_computes_product(s, a, b, inputs.drop_last());
        law_summa_computes_product(s, a, b, inputs.drop_last());
        if let SummaInput::Received(e) = inputs.last().0 {
            let c = choose|c: int| 0 <= c < prev.1.size * prev.1.size && e == #[trigger] worker_reply(multiply_order(prev.1, prev.1.k as int, c));
            law_worker_replies_are_honest(prev.0, prev.1, c);
        }
    }
    law_summa_computes_product(s, a, b, inputs);
}

/// The run whose orders a SUMMA calculation of `a * b` on an n by n grid
/// sends: orders depend on the matrices and the grid alone.
pub open spec fn grid_run(a: Seq<Seq<u32>>, b: Seq<Seq<u32>>, n: nat) -> SummaRunView {
    SummaRunView { a, b, size: n, k: 0, cell: 0, phase: SummaPhase::Dispatching }
}

/// `count` reports that an order was delivered.
pub open spec fn deliveries(count: nat) -> Seq<(SummaInput, u64)> {
    Seq::new(count, |i: int| (SummaInput::Dispatched(DispatchOutcome::Delivered), 0u64))
}

/// `order` lists each of the n * n cells of an n by n grid once.
pub open spec fn is_cell_order(order: Seq<int>, n: int) -> bool {
    &&& order.len() == n * n
    &&& order.no_duplicates()
    &&& forall|x: int| 0 <= x < order.len() ==> 0 <= #[trigger] order[x] < n * n
    &&& forall|c: int| 0 <= c < n * n ==> #[trigger] order.contains(c)
}

/// `count` timeout checks.
pub open spec fn checks(count: nat) -> Seq<(SummaInput, u64)> {
    Seq::new(count, |i: int| (SummaInput::Tick, 0u64))
}

/// The worker's reply to the order of cell `c` in iteration `k`.
pub open spec fn reply_input(a: Seq<Seq<u32>>, b: Seq<Seq<u32>>, n: nat, k: nat, c: int) -> (SummaInput, u64) {
    (SummaInput::Received(worker_reply(multiply_order(grid_run(a, b, n), k as int, c))), 0u64)
}

/// The workers' replies to the orders of iteration `k` for the first `count`
/// cells of `order`, in that order, the reply for `order[x]` coming after
/// `waits[x]` timeout checks.
pub open spec fn replies(a: Seq<Seq<u32>>, b: Seq<Seq<u32>>, n: nat, k: nat, order: Seq<int>, waits: Seq<nat>, count: nat) -> Seq<(SummaInput, u64)>
    decreases count,
{
    if count == 0 {
        Seq::empty()
    } else {
        (replies(a, b, n, k, order, waits, (count - 1) as nat) + checks(waits[count - 1])).push(reply_input(a, b, n, k, order[count - 1]))
    }
}

/// Iteration `k` of a SUMMA calculation in which every order is delivered
/// and every worker replies: the n * n deliveries, then the n * n replies in
/// the cell order `order`, with the timeout checks `waits` between them.
pub open spec fn iteration_inputs(a: Seq<Seq<u32>>, b: Seq<Seq<u32>>, n: nat, k: nat, order: Seq<int>, waits: Seq<nat>) -> Seq<(SummaInput, u64)> {
    deliveries(n * n) + replies(a, b, n, k, order, waits, n * n)
}

/// The first `iters` iterations of a SUMMA calculation in which every order
/// is delivered and every worker replies, the replies of iteration `k`
/// arriving in the cell order `orders[k]` with the timeout checks
/// `waits[k]` between them.
pub open spec fn smooth_schedule(a: Seq<Seq<u32>>, b: Seq<Seq<u32>>, n: nat, orders: Seq<Seq<int>>, waits: Seq<Seq<nat>>, iters: nat) -> Seq<(SummaInput, u64)>
    decreases iters,
{
    if iters == 0 {
        Seq::empty()
    } else {
        smooth_schedule(a, b, n, orders, waits, (iters - 1) as nat) + iteration_inputs(a, b, n, (iters - 1) as nat, orders[iters - 1], waits[iters - 1])
    }
}

/// The ids from `lo + 1` to `hi`.
pub open spec fn id_range(lo: int, hi: int) -> Set<u32> {
    Set::new(|t: u32| lo < t && t <= hi)
}

/// A SUMMA calculation can run on state `s`: workers 1 to n * n are
/// registered, and no worker is busy and no task open or failed.
pub open spec fn ready_for_summa(s: OrchestratorState) -> bool {
    let n = s.matrix_size as int;
    &&& forall|w: u32| 1 <= w <= n * n ==> #[trigger] s.workers.contains(w)
    &&& s.busy_workers.is_empty()
    &&& s.open_tasks.is_empty()
    &&& s.failed_tasks.is_empty()
}

/// What stays the same while a smooth SUMMA calculation started in `s0`
/// runs iteration `k`.
spec fn in_iteration(s0: OrchestratorState, st: (OrchestratorState, SummaRunView, SummaOutcome), a: Seq<Seq<u32>>, b: Seq<Seq<u32>>, k: int) -> bool {
    let n = s0.matrix_size as int;
    &&& st.1.a == a && st.1.b == b && st.1.size == n && st.1.k == k
    &&& st.0.workers == s0.workers
    &&& st.0.matrix_size == s0.matrix_size
    &&& st.0.task_timeout == s0.task_timeout
    &&& st.0.failed_tasks.is_empty()
    &&& forall|t: u32| 0 < t <= k * n * n ==> #[trigger] st.0.closed_tasks.contains(t)
}

/// A smooth SUMMA calculation started in `s0` is sending the order of cell
/// `d` of iteration `k`.
spec fn sending_at(s0: OrchestratorState, st: (OrchestratorState, SummaRunView, SummaOutcome), a: Seq<Seq<u32>>, b: Seq<Seq<u32>>, k: int, d: int) -> bool {
    let n = s0.matrix_size as int;
    &&& in_iteration(s0, st, a, b, k)
    &&& st.1.phase == SummaPhase::Dispatching
    &&& st.1.cell == d
    &&& st.2 == SummaOutcome::Dispatch(multiply_order(st.1, k, d))
    &&& st.0.open_tasks == id_range(k * n * n, k * n * n + d)
    &&& st.0.busy_workers == id_range(0, d + 1)
}

/// A smooth SUMMA calculation started in `s0` waits in iteration `k` after
/// the replies for the cells `got`.
spec fn waiting_at(s0: OrchestratorState, st: (OrchestratorState, SummaRunView, SummaOutcome), a: Seq<Seq<u32>>, b: Seq<Seq<u32>>, k: int, got: Seq<int>) -> bool {
    let n = s0.matrix_size as int;
    &&& in_iteration(s0, st, a, b, k)
    &&& st.1.phase == SummaPhase::Waiting
    &&& st.2 == SummaOutcome::Await
    &&& st.0.open_tasks == Set::new(|t: u32| k * n * n < t <= k * n * n + n * n && !got.contains(t - k * n * n - 1))
    &&& st.0.busy_workers == Set::new(|w: u32| 0 < w <= n * n && !got.contains(w - 1))
    &&& forall|x: int| 0 <= x < got.len() ==> #[trigger] st.0.closed_tasks.contains(summa_task(n, k, got[x]) as u32)
}

/// A smooth SUMMA calculation started in `s0` is over: it finished with its
/// result matrix, and every task of its n * n * n was closed.
spec fn schedule_done(s0: OrchestratorState, st: (OrchestratorState, SummaRunView, SummaOutcome)) -> bool {
    let n = s0.matrix_size as int;
    &&& st.2 == SummaOutcome::Done(st.0.result_matrix)
    &&& st.0.open_tasks.is_empty()
    &&& st.0.busy_workers.is_empty()
    &&& st.0.failed_tasks.is_empty()
    &&& forall|t: u32| 1 <= t <= n * n * n ==> #[trigger] st.0.closed_tasks.contains(t)
}

/// Every registered worker from `w` to `last` means none is missing.
proof fn lemma_no_missing_worker(s: OrchestratorState, w: int, last: int)
    requires
        forall|x: u32| w <= x <= last ==> #[trigger] s.workers.contains(x),
        last <= u32::MAX,
    ensures
        first_missing_worker(s, w, last) is None,
    decreases last + 1 - w,
{
    if w <= last && w >= 1 {
        assert(s.workers.contains(w as u32));
        lemma_no_missing_worker(s, w + 1, last);
    }
}

proof fn lemma_grid_sizes(n: int, k: int)
    requires
        0 <= k < n,
        ids_fit(n),
    ensures
        1 <= n * n <= n * n * n <= u32::MAX,
        0 <= k * n * n,
        k * n * n + n * n == (k + 1) * n * n,
        k * n * n + n * n <= n * n * n,
        k + 1 == n ==> k * n * n + n * n == n * n * n,
{
    assert(1 <= n * n) by (nonlinear_arith)
        requires
            1 <= n,
    ;
    lemma_task_in_range(n, k, 0);
    assert(k * n * n + n * n == (k + 1) * n * n) by (nonlinear_arith);
    assert((k + 1) * n * n <= n * n * n) by (nonlinear_arith)
        requires
            0 <= k < n,
    ;
}

/// One delivery keeps a smooth calculation on schedule.
proof fn lemma_delivery_step(s0: OrchestratorState, a: Seq<Seq<u32>>, b: Seq<Seq<u32>>, p: Seq<(SummaInput, u64)>, k: int, d: int)
    requires
        ready_for_summa(s0),
        ids_fit(s0.matrix_size as int),
        0 <= k < s0.matrix_size,
        0 <= d < s0.matrix_size * s0.matrix_size,
        worker_run(s0, a, b, p),
        sending_at(s0, summa_after(s0, a, b, p), a, b, k, d),
    ensures
        ({
            let p2 = p.push((SummaInput::Dispatched(DispatchOutcome::Delivered), 0u64));
            let n = s0.matrix_size as int;
            &&& worker_run(s0, a, b, p2)
            &&& d + 1 < n * n ==> sending_at(s0, summa_after(s0, a, b, p2), a, b, k, d + 1)
            &&& d + 1 == n * n ==> waiting_at(s0, summa_after(s0, a, b, p2), a, b, k, Seq::empty())
        }),
{
    let n = s0.matrix_size as int;
    let x = (SummaInput::Dispatched(DispatchOutcome::Delivered), 0u64);
    let p2 = p.push(x);
    assert(p2.drop_last() =~= p);
    let prev = summa_after(s0, a, b, p);
    let s = prev.0;
    let run = prev.1;
    lemma_grid_sizes(n, k);
    lemma_task_in_range(n, k, d);
    let t = summa_task(n, k, d);
    assert(t as u32 == t);
    let e = multiply_order(run, k, d);
    assert(e.task_id == t);
    let s1 = OrchestratorState {
        open_tasks: s.open_tasks.insert(e.task_id),
        in_progress_tasks: s.in_progress_tasks.insert(e.task_id, (e.worker_id, 0u64)),
        summa_assignments: s.summa_assignments.insert(e.task_id, (cell_row(n, d) as usize, cell_col(n, d) as usize)),
        ..s
    };
    assert(s1.open_tasks =~= id_range(k * n * n, k * n * n + d + 1));
    if d + 1 < n * n {
        let w = (d + 2) as u32;
        assert(s0.workers.contains(w));
        assert(!s.busy_workers.contains(w));
        assert(s.busy_workers.insert(w) =~= id_range(0, d + 2));
    } else {
        let none = Seq::<int>::empty();
        assert(s1.open_tasks.contains(e.task_id));
        assert(s1.open_tasks =~= Set::new(|t: u32| k * n * n < t <= k * n * n + n * n && !none.contains(t - k * n * n - 1)));
        assert(s.busy_workers =~= Set::new(|w: u32| 0 < w <= n * n && !none.contains(w - 1)));
    }
}

/// One worker reply keeps a smooth calculation on schedule.
proof fn lemma_reply_step(s0: OrchestratorState, a: Seq<Seq<u32>>, b: Seq<Seq<u32>>, p: Seq<(SummaInput, u64)>, k: int, order: Seq<int>, r: int)
    requires
        ready_for_summa(s0),
        ids_fit(s0.matrix_size as int),
        0 <= k < s0.matrix_size,
        is_cell_order(order, s0.matrix_size as int),
        0 <= r < s0.matrix_size * s0.matrix_size,
        worker_run(s0, a, b, p),
        waiting_at(s0, summa_after(s0, a, b, p), a, b, k, order.take(r)),
    ensures
        ({
            let p2 = p.push(reply_input(a, b, s0.matrix_size as nat, k as nat, order[r]));
            let n = s0.matrix_size as int;
            &&& worker_run(s0, a, b, p2)
            &&& r + 1 < n * n ==> waiting_at(s0, summa_after(s0, a, b, p2), a, b, k, order.take(r + 1))
            &&& r + 1 == n * n && k + 1 < n ==> sending_at(s0, summa_after(s0, a, b, p2), a, b, k + 1, 0)
            &&& r + 1 == n * n && k + 1 == n ==> schedule_done(s0, summa_after(s0, a, b, p2))
        }),
{
    let n = s0.matrix_size as int;
    let x = reply_input(a, b, n as nat, k as nat, order[r]);
    let p2 = p.push(x);
    assert(p2.drop_last() =~= p);
    let prev = summa_after(s0, a, b, p);
    let s = prev.0;
    let run = prev.1;
    let got = order.take(r);
    let got2 = order.take(r + 1);
    assert(got2 =~= got.push(order[r]));
    let c = order[r];
    assert(0 <= c < n * n);
    assert(!got.contains(c)) by {
        if got.contains(c) {
            let y = choose|y: int| 0 <= y < got.len() && got[y] == c;
            assert(order[y] == order[r]);
        }
    }
    lemma_grid_sizes(n, k);
    lemma_task_in_range(n, k, c);
    let t = summa_task(n, k, c);
    assert(t as u32 == t);
    let e = worker_reply(multiply_order(run, k, c));
    assert(multiply_order(run, k, c) == multiply_order(grid_run(a, b, n as nat), k, c));
    assert(x.0 == SummaInput::Received(e));
    assert(e.task_id == t);
    assert(e.worker_id == c + 1);
    assert(worker_reply(multiply_order(run, run.k as int, c)) == e);
    let s1 = event_step(s, e);
    assert(s.open_tasks.contains(e.task_id));
    assert forall|z: int| #[trigger] got2.contains(z) <==> (got.contains(z) || z == c) by {
        if got.contains(z) {
            let i = choose|i: int| 0 <= i < got.len() && got[i] == z;
            assert(got2[i] == z);
        }
        if z == c {
            assert(got2[r] == c);
        }
        if got2.contains(z) {
            let i = choose|i: int| 0 <= i < got2.len() && got2[i] == z;
            if i < r {
                assert(got[i] == z);
            }
        }
    }
    assert(s1.open_tasks =~= Set::new(|y: u32| k * n * n < y <= k * n * n + n * n && !got2.contains(y - k * n * n - 1)));
    assert(s1.busy_workers =~= Set::new(|w: u32| 0 < w <= n * n && !got2.contains(w - 1)));
    assert(s1.failed_tasks =~= s.failed_tasks);
    assert forall|y: int| 0 <= y < got2.len() implies #[trigger] s1.closed_tasks.contains(summa_task(n, k, got2[y]) as u32) by {
        if y < r {
            assert(got2[y] == got[y]);
        }
    }
    assert forall|y: u32| 0 < y <= k * n * n implies #[trigger] s1.closed_tasks.contains(y) by {
        assert(s.closed_tasks.contains(y));
    }
    if r + 1 < n * n {
        let last = order[n * n - 1];
        assert(!got2.contains(last)) by {
            if got2.contains(last) {
                let y = choose|y: int| 0 <= y < got2.len() && got2[y] == last;
                assert(order[y] == order[n * n - 1]);
            }
        }
        lemma_task_in_range(n, k, last);
        assert(s1.open_tasks.contains(summa_task(n, k, last) as u32));
    } else {
        assert(got2 =~= order);
        assert(s1.open_tasks =~= Set::empty()) by {
            assert forall|y: u32| !s1.open_tasks.contains(y) by {
                if k * n * n < y <= k * n * n + n * n {
                    assert(order.contains(y - k * n * n - 1));
                }
            }
        }
        assert(s1.busy_workers =~= Set::empty()) by {
            assert forall|w: u32| !s1.busy_workers.contains(w) by {
                if 0 < w <= n * n {
                    assert(order.contains(w - 1));
                }
            }
        }
        assert forall|y: u32| 0 < y <= k * n * n + n * n implies #[trigger] s1.closed_tasks.contains(y) by {
            if y > k * n * n {
                let cc = y - k * n * n - 1;
                assert(order.contains(cc));
                let z = choose|z: int| 0 <= z < order.len() && order[z] == cc;
                assert(s1.closed_tasks.contains(summa_task(n, k, got2[z]) as u32));
                lemma_task_in_range(n, k, cc);
            }
        }
        if k + 1 < n {
            assert(s1.open_tasks =~= id_range((k + 1) * n * n, (k + 1) * n * n + 0));
            assert(s0.workers.contains(1u32));
            assert(s1.busy_workers.insert(1u32) =~= id_range(0, 1));
        }
    }
}

/// The deliveries of an iteration keep a smooth calculation on schedule.
proof fn lemma_deliveries(s0: OrchestratorState, a: Seq<Seq<u32>>, b: Seq<Seq<u32>>, p: Seq<(SummaInput, u64)>, k: int, d: int)
    requires
        ready_for_summa(s0),
        ids_fit(s0.matrix_size as int),
        0 <= k < s0.matrix_size,
        0 <= d <= s0.matrix_size * s0.matrix_size,
        worker_run(s0, a, b, p),
        sending_at(s0, summa_after(s0, a, b, p), a, b, k, 0),
    ensures
        worker_run(s0, a, b, p + deliveries(d as nat)),
        d < s0.matrix_size * s0.matrix_size ==> sending_at(s0, summa_after(s0, a, b, p + deliveries(d as nat)), a, b, k, d),
        d == s0.matrix_size * s0.matrix_size ==> waiting_at(s0, summa_after(s0, a, b, p + deliveries(d as nat)), a, b, k, Seq::empty()),
    decreases d,
{
    lemma_grid_sizes(s0.matrix_size as int, k);
    if d == 0 {
        assert(p + deliveries(0) =~= p);
    } else {
        lemma_deliveries(s0, a, b, p, k, d - 1);
        assert(p + deliveries(d as nat) =~= (p + deliveries((d - 1) as nat)).push((SummaInput::Dispatched(DispatchOutcome::Delivered), 0u64)));
        lemma_delivery_step(s0, a, b, p + deliveries((d - 1) as nat), k, d - 1);
    }
}

/// The calculation has a task open while fewer than all replies of the
/// iteration have arrived.
proof fn lemma_waiting_has_open_task(s0: OrchestratorState, st: (OrchestratorState, SummaRunView, SummaOutcome), a: Seq<Seq<u32>>, b: Seq<Seq<u32>>, k: int, order: Seq<int>, r: int)
    requires
        ids_fit(s0.matrix_size as int),
        0 <= k < s0.matrix_size,
        is_cell_order(order, s0.matrix_size as int),
        0 <= r < s0.matrix_size * s0.matrix_size,
        waiting_at(s0, st, a, b, k, order.take(r)),
    ensures
        !st.0.open_tasks.is_empty(),
{
    let n = s0.matrix_size as int;
    let got = order.take(r);
    let last = order[n * n - 1];
    assert(!got.contains(last)) by {
        if got.contains(last) {
            let y = choose|y: int| 0 <= y < got.len() && got[y] == last;
            assert(order[y] == order[n * n - 1]);
        }
    }
    lemma_task_in_range(n, k, last);
    assert(st.0.open_tasks.contains(summa_task(n, k, last) as u32));
}

/// Timeout checks, with timeouts not enforced, leave a waiting calculation
/// where it is.
proof fn lemma_checks(s0: OrchestratorState, a: Seq<Seq<u32>>, b: Seq<Seq<u32>>, p: Seq<(SummaInput, u64)>, k: int, order: Seq<int>, r: int, j: int)
    requires
        s0.task_timeout is None,
        ids_fit(s0.matrix_size as int),
        0 <= k < s0.matrix_size,
        is_cell_order(order, s0.matrix_size as int),
        0 <= r < s0.matrix_size * s0.matrix_size,
        0 <= j,
        worker_run(s0, a, b, p),
        waiting_at(s0, summa_after(s0, a, b, p), a, b, k, order.take(r)),
    ensures
        worker_run(s0, a, b, p + checks(j as nat)),
        summa_after(s0, a, b, p + checks(j as nat)) == summa_after(s0, a, b, p),
    decreases j,
{
    if j == 0 {
        assert(p + checks(0) =~= p);
    } else {
        lemma_checks(s0, a, b, p, k, order, r, j - 1);
        let q = p + checks((j - 1) as nat);
        assert(p + checks(j as nat) =~= q.push((SummaInput::Tick, 0u64)));
        assert(q.push((SummaInput::Tick, 0u64)).drop_last() =~= q);
        let prev = summa_after(s0, a, b, q);
        lemma_waiting_has_open_task(s0, prev, a, b, k, order, r);
        law_timeout_check_without_timeouts_waits(prev.0, prev.1, 0);
    }
}

/// The replies of an iteration, with timeout checks between them, keep a
/// smooth calculation on schedule and move it on to the next iteration, or
/// finish it after the last.
proof fn lemma_replies(s0: OrchestratorState, a: Seq<Seq<u32>>, b: Seq<Seq<u32>>, p: Seq<(SummaInput, u64)>, k: int, order: Seq<int>, waits: Seq<nat>, r: int)
    requires
        ready_for_summa(s0),
        s0.task_timeout is None,
        ids_fit(s0.matrix_size as int),
        0 <= k < s0.matrix_size,
        is_cell_order(order, s0.matrix_size as int),
        0 <= r <= s0.matrix_size * s0.matrix_size,
        worker_run(s0, a, b, p),
        waiting_at(s0, summa_after(s0, a, b, p), a, b, k, Seq::empty()),
    ensures
        ({
            let n = s0.matrix_size as int;
            let p2 = p + replies(a, b, n as nat, k as nat, order, waits, r as nat);
            &&& worker_run(s0, a, b, p2)
            &&& r < n * n ==> waiting_at(s0, summa_after(s0, a, b, p2), a, b, k, order.take(r))
            &&& r == n * n && k + 1 < n ==> sending_at(s0, summa_after(s0, a, b, p2), a, b, k + 1, 0)
            &&& r == n * n && k + 1 == n ==> schedule_done(s0, summa_after(s0, a, b, p2))
        }),
    decreases r,
{
    let n = s0.matrix_size as int;
    if r == 0 {
        assert(p + replies(a, b, n as nat, k as nat, order, waits, 0) =~= p);
        assert(order.take(0) =~= Seq::<int>::empty());
    } else {
        lemma_replies(s0, a, b, p, k, order, waits, r - 1);
        let q = p + replies(a, b, n as nat, k as nat, order, waits, (r - 1) as nat);
        lemma_checks(s0, a, b, q, k, order, r - 1, waits[r - 1] as int);
        let q2 = q + checks(waits[r - 1]);
        assert(p + replies(a, b, n as nat, k as nat, order, waits, r as nat) =~= q2.push(reply_input(a, b, n as nat, k as nat, order[r - 1])));
        lemma_reply_step(s0, a, b, q2, k, order, r - 1);
    }
}

/// The first `iters` iterations of a smooth calculation leave it ready for
/// the next, or finished after the last.
proof fn lemma_smooth_schedule(s0: OrchestratorState, a: Seq<Seq<u32>>, b: Seq<Seq<u32>>, orders: Seq<Seq<int>>, waits: Seq<Seq<nat>>, iters: int)
    requires
        ready_for_summa(s0),
        s0.task_timeout is None,
        ids_fit(s0.matrix_size as int),
        0 <= iters <= s0.matrix_size,
        s0.matrix_size > 0,
        forall|k: int| 0 <= k < s0.matrix_size ==> is_cell_order(#[trigger] orders[k], s0.matrix_size as int),
    ensures
        worker_run(s0, a, b, smooth_schedule(a, b, s0.matrix_size as nat, orders, waits, iters as nat)),
        iters < s0.matrix_size ==> sending_at(s0, summa_after(s0, a, b, smooth_schedule(a, b, s0.matrix_size as nat, orders, waits, iters as nat)), a, b, iters, 0),
        iters == s0.matrix_size ==> schedule_done(s0, summa_after(s0, a, b, smooth_schedule(a, b, s0.matrix_size as nat, orders, waits, iters as nat))),
    decreases iters,
{
    let n = s0.matrix_size as int;
    if iters == 0 {
        lemma_grid_sizes(n, 0);
        lemma_no_missing_worker(s0, 1, n * n);
        assert(((n * n) as u32) as int == n * n);
        let s1 = OrchestratorState { result_matrix: zero_matrix(n as nat), summa_assignments: Map::empty(), ..s0 };
        assert(s0.workers.contains(1u32));
        assert(s1.busy_workers.insert(1u32) =~= id_range(0, 1));
        assert(s1.open_tasks =~= id_range(0, 0));
    } else {
        let k = iters - 1;
        lemma_smooth_schedule(s0, a, b, orders, waits, k);
        let p = smooth_schedule(a, b, n as nat, orders, waits, k as nat);
        lemma_deliveries(s0, a, b, p, k, n * n);
        let q = p + deliveries((n * n) as nat);
        assert(is_cell_order(orders[k], n));
        lemma_replies(s0, a, b, q, k, orders[k], waits[k], n * n);
        assert(smooth_schedule(a, b, n as nat, orders, waits, iters as nat) =~= q + replies(a, b, n as nat, k as nat, orders[k], waits[k], (n * n) as nat));
    }
}

/// A SUMMA calculation completes with the product: on an orchestrator that
/// does not enforce timeouts, with workers 1 to n * n registered and no
/// worker busy nor any task open or failed, when every order is delivered
/// and every worker replies with its product, the replies of each iteration
/// arriving in any order and with any number of timeout checks before each,
/// the calculation of n by n matrices whose product fits in `u32` finishes
/// with `a * b`. It leaves no task open and no worker busy, and every task,
/// 1 to n * n * n, closed.
pub proof fn law_summa_completes(s: OrchestratorState, a: Seq<Seq<u32>>, b: Seq<Seq<u32>>, orders: Seq<Seq<int>>, waits: Seq<Seq<nat>>)
    requires
        covers(a, s.matrix_size as int),
        covers(b, s.matrix_size as int),
        ids_fit(s.matrix_size as int),
        product_fits(a, b, s.matrix_size as int),
        ready_for_summa(s),
        s.task_timeout is None,
        forall|k: int| 0 <= k < s.matrix_size ==> is_cell_order(#[trigger] orders[k], s.matrix_size as int),
    ensures
        ({
            let n = s.matrix_size as int;
            let fin = summa_after(s, a, b, smooth_schedule(a, b, n as nat, orders, waits, n as nat));
            &&& fin.2 == SummaOutcome::Done(fin.0.result_matrix)
            &&& is_matrix_product(fin.0.result_matrix, a, b, n)
            &&& fin.0.open_tasks.is_empty()
            &&& fin.0.busy_workers.is_empty()
            &&& fin.0.failed_tasks.is_empty()
            &&& forall|t: u32| 1 <= t <= n * n * n ==> #[trigger] fin.0.closed_tasks.contains(t)
        }),
{
    let n = s.matrix_size as int;
    let sched = smooth_schedule(a, b, n as nat, orders, waits, n as nat);
    if n == 0 {
        assert(n * n == 0) by (nonlinear_arith)
            requires
                n == 0,
        ;
        assert((0int as u32) as int == 0);
        lemma_no_missing_worker(s, 1, 0);
        assert(sched =~= Seq::empty());
        law_summa_computes_product(s, a, b, sched);
    } else {
        lemma_smooth_schedule(s, a, b, orders, waits, n);
        law_summa_with_workers_computes_product(s, a, b, sched);
    }
}

/// A 3 by 3 matrix held as an array, as a sequence of rows.
pub open spec fn array_matrix(m: [[u32; 3]; 3]) -> Seq<Seq<u32>> {
    Seq::new(3, |i: int| m[i]@)
}

/// Partial dot products read the same from arrays and from their rows.
proof fn lemma_dot_of_arrays(a: [[u32; 3]; 3], b: [[u32; 3]; 3], i: int, j: int, k: int)
    requires
        0 <= i < 3,
        0 <= j < 3,
        k <= 3,
    ensures
        dot(array_matrix(a), array_matrix(b), i, j, k) == dot_prefix(a, b, i, j, k),
    decreases k,
{
    if k > 0 {
        lemma_dot_of_arrays(a, b, i, j, k - 1);
        assert(array_matrix(a)[i][k - 1] == a[i][k - 1]);
        assert(array_matrix(b)[k - 1][j] == b[k - 1][j]);
    }
}

/// A SUMMA calculation on the 3 by 3 grid and the single-threaded calculator
/// agree: the product that SUMMA finishes with is, entry by entry, the one
/// the calculator computes.
pub proof fn law_summa_agrees_with_calculator(m: Seq<Seq<u32>>, c: [[u32; 3]; 3], a: [[u32; 3]; 3], b: [[u32; 3]; 3])
    requires
        is_matrix_product(m, array_matrix(a), array_matrix(b), 3),
        is_product(c, a, b),
    ensures
        m == array_matrix(c),
{
    assert forall|i: int, j: int| 0 <= i < 3 && 0 <= j < 3 implies m[i][j] == c[i][j] by {
        lemma_dot_of_arrays(a, b, i, j, 3);
        assert(m[i][j] == dot(array_matrix(a), array_matrix(b), i, j, 3));
        assert(c[i][j] == product_entry(a, b, i, j));
    }
    assert forall|i: int| 0 <= i < 3 implies m[i] =~= array_matrix(c)[i] by {
        assert(m[i].len() == 3);
        assert forall|j: int| 0 <= j < 3 implies m[i][j] == array_matrix(c)[i][j] by {
            assert(m[i][j] == c[i][j]);
        }
    }
    assert(m =~= array_matrix(c));
}

/// Without timeout enforcement a timeout check while results are awaited
/// changes nothing: the calculation keeps waiting in the same state, so such
/// checks can come anywhere in a calculation.
pub proof fn law_timeout_check_without_timeouts_waits(s: OrchestratorState, run: SummaRunView, now: u64)
    requires
        s.task_timeout is None,
        run.phase == SummaPhase::Waiting,
        !s.open_tasks.is_empty(),
        s.failed_tasks.is_empty(),
    ensures
        summa_next(s, run, SummaInput::Tick, now) == (s, run, SummaOutcome::Await),
{
    let none = Set::<u32>::empty().intersect(s.open_tasks);
    assert(overdue_in_flight(s, now) =~= Set::empty());
    assert(none =~= Set::empty());
    assert(workers_of(s, none) =~= Set::empty());
    assert(s.open_tasks.difference(none) =~= s.open_tasks);
    assert(s.in_progress_tasks.remove_keys(none) =~= s.in_progress_tasks);
    assert(s.failed_tasks.union(none) =~= s.failed_tasks);
    assert(s.busy_workers.difference(workers_of(s, none)) =~= s.busy_workers);
    assert(timeouts_step(s, now) =~= s);
}

/// Delivering the order of the run's current cell `c = i * n + j` at time
/// `now` puts its task, `k * n * n + c + 1`, in flight on its worker
/// `c + 1` since `now`, open; so a timeout check less than the timeout after
/// `now` leaves it open.
pub proof fn law_delivery_records_dispatch_time(s: OrchestratorState, run: SummaRunView, now: u64, d: u64)
    requires
        run_in_range(run),
        !s.failed_tasks.contains((run.k * run.size * run.size + run.cell + 1) as u32),
        now + d <= u64::MAX,
        s.task_timeout matches Some(limit) ==> d < limit,
    ensures
        ({
            let t = (run.k * run.size * run.size + run.cell + 1) as u32;
            let s1 = summa_next(s, run, SummaInput::Dispatched(DispatchOutcome::Delivered), now).0;
            &&& s1.open_tasks.contains(t)
            &&& s1.in_progress_tasks.contains_key(t)
            &&& s1.in_progress_tasks[t] == ((run.cell + 1) as u32, now)
            &&& timeouts_step(s1, (now + d) as u64).open_tasks.contains(t)
            &&& !timeouts_step(s1, (now + d) as u64).failed_tasks.contains(t)
        }),
{
    let n = run.size as int;
    let t = (run.k * run.size * run.size + run.cell + 1) as u32;
    let s1 = summa_next(s, run, SummaInput::Dispatched(DispatchOutcome::Delivered), now).0;
    let e = multiply_order(run, run.k as int, run.cell as int);
    assert(e.task_id == t);
    assert(s1.open_tasks.contains(t));
    assert(s1.in_progress_tasks[t] == ((run.cell + 1) as u32, now));
    law_no_timeout_before_its_time(s1, t, d);
}

} // verus!
