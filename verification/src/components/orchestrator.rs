use vstd::prelude::*;
use std::collections::{HashMap, HashSet};
use crate::components::event::{EventPayload, MonitorEvent, Source};
use crate::components::task::{Task, TaskEvent};
use crate::components::text::{decimal, push_decimal, push_text};
use crate::config::app_config::AppConfig;
use vstd::std_specs::iter::IteratorSpec;

verus! {

broadcast use vstd::std_specs::hash::group_hash_axioms;

/// The abstract state of an orchestrator: its bookkeeping as mathematical
/// sets and maps.
#[verifier::ext_equal]
pub struct OrchestratorState {
    pub id: u32,
    pub matrix_size: usize,
    pub workers: Set<u32>,
    pub busy_workers: Set<u32>,
    pub open_tasks: Set<u32>,
    pub closed_tasks: Set<u32>,
    pub failed_tasks: Set<u32>,
    pub partial_results: Map<usize, u32>,
    pub result_matrix: Seq<Seq<u32>>,
    /// The C cell `(i, j)` that each SUMMA multiplication still in flight contributes to.
    pub summa_assignments: Map<u32, (usize, usize)>,
    /// The worker and the dispatch time (milliseconds) of every multiplication in flight.
    pub in_progress_tasks: Map<u32, (u32, u64)>,
    /// The workers out of the active pool after a timeout, until a late
    /// result of theirs arrives.
    pub inactive_workers: Set<u32>,
    /// The time (milliseconds) after which a multiplication in flight counts as failed.
    pub task_timeout: Option<u64>,
    /// How long (milliseconds) to wait for a result before checking for timeouts.
    pub timeout_check_frequency: u64,
}

/// Coordinates workers and records calculation state.
///
/// A worker exists only after it is registered. A SUMMA calculation of two
/// n by n matrices uses workers 1 through n * n as a row-major n by n grid of
/// C matrix cells.
pub struct Orchestrator {
    pub id: u32,
    pub matrix_size: usize,
    /// The active worker pool: registered workers that have not timed out.
    pub workers: HashSet<u32>,
    pub busy_workers: HashSet<u32>,
    pub open_tasks: HashSet<u32>,
    pub closed_tasks: HashSet<u32>,
    pub failed_tasks: HashSet<u32>,
    /// Most recent scalar result for each SUMMA iteration k.
    pub partial_results: HashMap<usize, u32>,
    /// The matrix assembled by the most recent SUMMA calculation.
    pub result_matrix: Vec<Vec<u32>>,
    /// The C cell `(i, j)` that each SUMMA multiplication still in flight contributes to.
    pub summa_assignments: HashMap<u32, (usize, usize)>,
    /// The worker and the dispatch time (milliseconds) of every multiplication in flight.
    pub in_progress_tasks: HashMap<u32, (u32, u64)>,
    /// The workers out of the active pool after a timeout, until a late
    /// result of theirs arrives.
    pub inactive_workers: HashSet<u32>,
    /// The time (milliseconds) after which a multiplication in flight counts as failed.
    pub task_timeout: Option<u64>,
    /// How long (milliseconds) to wait for a result before checking for timeouts.
    pub timeout_check_frequency: u64,
}

impl View for Orchestrator {
    type V = OrchestratorState;

    open spec fn view(&self) -> OrchestratorState {
        OrchestratorState {
            id: self.id,
            matrix_size: self.matrix_size,
            workers: self.workers@,
            busy_workers: self.busy_workers@,
            open_tasks: self.open_tasks@,
            closed_tasks: self.closed_tasks@,
            failed_tasks: self.failed_tasks@,
            partial_results: self.partial_results@,
            result_matrix: matrix_view(self.result_matrix),
            summa_assignments: self.summa_assignments@,
            in_progress_tasks: self.in_progress_tasks@,
            inactive_workers: self.inactive_workers@,
            task_timeout: self.task_timeout,
            timeout_check_frequency: self.timeout_check_frequency,
        }
    }
}

/// A matrix held as rows, as a sequence of sequences.
pub open spec fn matrix_view(m: Vec<Vec<u32>>) -> Seq<Seq<u32>> {
    m@.map_values(|r: Vec<u32>| r@)
}

/// A row of `n` zeros.
pub open spec fn zero_row(n: nat) -> Seq<u32> {
    Seq::new(n, |j: int| 0u32)
}

/// The n by n matrix of zeros.
pub open spec fn zero_matrix(n: nat) -> Seq<Seq<u32>> {
    Seq::new(n, |i: int| zero_row(n))
}

/// `m` has `n` rows of `n` entries.
pub open spec fn is_square(m: Seq<Seq<u32>>, n: int) -> bool {
    m.len() == n && forall|i: int| 0 <= i < n ==> (#[trigger] m[i]).len() == n
}

/// `m` has at least `n` rows, each of at least `n` entries: its top-left n by
/// n block can be read.
pub open spec fn covers(m: Seq<Seq<u32>>, n: int) -> bool {
    m.len() >= n && forall|i: int| 0 <= i < n ==> (#[trigger] m[i]).len() >= n
}

/// The state of a new orchestrator: no workers, no tasks, no timeout
/// enforcement, and a timeout check every second.
pub open spec fn initial_state(id: u32, matrix_size: usize) -> OrchestratorState {
    OrchestratorState {
        id,
        matrix_size,
        workers: Set::empty(),
        busy_workers: Set::empty(),
        open_tasks: Set::empty(),
        closed_tasks: Set::empty(),
        failed_tasks: Set::empty(),
        partial_results: Map::empty(),
        result_matrix: zero_matrix(matrix_size as nat),
        summa_assignments: Map::empty(),
        in_progress_tasks: Map::empty(),
        inactive_workers: Set::empty(),
        task_timeout: None,
        timeout_check_frequency: 1000,
    }
}

/// The result matrix is n by n for the matrix size n, and every recorded
/// SUMMA assignment names one of its cells.
pub open spec fn assignments_in_grid(s: OrchestratorState) -> bool {
    &&& is_square(s.result_matrix, s.matrix_size as int)
    &&& forall|t: u32| #[trigger] s.summa_assignments.contains_key(t) ==> s.summa_assignments[t].0 < s.matrix_size
        && s.summa_assignments[t].1 < s.matrix_size
}

/// `m` with `v` added to entry `(i, j)`.
pub open spec fn add_to_cell(m: Seq<Seq<u32>>, i: int, j: int, v: u32) -> Seq<Seq<u32>> {
    m.update(i, m[i].update(j, (m[i][j] + v) as u32))
}

/// A result for task `task_id` can be added to its cell without overflow.
pub open spec fn partial_result_fits(s: OrchestratorState, task_id: u32, value: u32) -> bool {
    s.open_tasks.contains(task_id) && s.summa_assignments.contains_key(task_id) ==> s.result_matrix[s.summa_assignments[task_id].0 as int][s.summa_assignments[task_id].1 as int]
        + value <= u32::MAX
}

/// The state after a worker reports `value` for task `task_id` of SUMMA
/// iteration `k`. A result for a task that is not open (a late result, after
/// a timeout) is not recorded; when it comes from a worker taken out of the
/// active pool by a timeout, that worker returns to the pool.
pub open spec fn partial_result_step(s: OrchestratorState, task_id: u32, worker_id: u32, value: u32, k: usize) -> OrchestratorState {
    if !s.open_tasks.contains(task_id) {
        if s.inactive_workers.contains(worker_id) {
            OrchestratorState {
                workers: s.workers.insert(worker_id),
                inactive_workers: s.inactive_workers.remove(worker_id),
                ..s
            }
        } else {
            s
        }
    } else {
        OrchestratorState {
            open_tasks: s.open_tasks.remove(task_id),
            partial_results: s.partial_results.insert(k, value),
            result_matrix: if s.summa_assignments.contains_key(task_id) {
                add_to_cell(s.result_matrix, s.summa_assignments[task_id].0 as int, s.summa_assignments[task_id].1 as int, value)
            } else {
                s.result_matrix
            },
            summa_assignments: s.summa_assignments.remove(task_id),
            in_progress_tasks: s.in_progress_tasks.remove(task_id),
            closed_tasks: s.closed_tasks.insert(task_id),
            busy_workers: s.busy_workers.remove(worker_id),
            ..s
        }
    }
}

/// The state after task `task_id` of worker `worker_id` times out: the task
/// fails and the worker leaves the active pool until a late result of its
/// arrives. A task that is not open is left as it is.
pub open spec fn timeout_step(s: OrchestratorState, task_id: u32, worker_id: u32) -> OrchestratorState {
    if !s.open_tasks.contains(task_id) {
        s
    } else {
        OrchestratorState {
            open_tasks: s.open_tasks.remove(task_id),
            in_progress_tasks: s.in_progress_tasks.remove(task_id),
            failed_tasks: s.failed_tasks.insert(task_id),
            busy_workers: s.busy_workers.remove(worker_id),
            workers: s.workers.remove(worker_id),
            inactive_workers: s.inactive_workers.insert(worker_id),
            ..s
        }
    }
}

/// The notice sent to the monitor when a task completes.
pub open spec fn completed_notice(id: u32, now: u64, task_id: u32, worker_id: u32) -> MonitorEvent {
    MonitorEvent {
        id,
        timestamp: now,
        source: Source::Orchestrator,
        payload: EventPayload::TaskCompleted { task_id, worker_id },
    }
}

/// The notice sent to the monitor when a task is assigned to a worker.
pub open spec fn assigned_notice(id: u32, now: u64, task_id: u32, worker_id: u32) -> MonitorEvent {
    MonitorEvent {
        id,
        timestamp: now,
        source: Source::Orchestrator,
        payload: EventPayload::TaskAssigned { task_id, worker_id },
    }
}

/// `e` is the notice sent to the monitor when a task times out.
pub open spec fn is_timeout_notice(e: MonitorEvent, id: u32, now: u64, task_id: u32, worker_id: u32) -> bool {
    &&& e.id == id
    &&& e.timestamp == now
    &&& e.source == Source::Orchestrator
    &&& e.payload matches EventPayload::TaskFailed { task_id: t, worker_id: w, reason }
    &&& t == task_id
    &&& w == worker_id
    &&& reason@ == "Timeout"@
}

/// The time elapsed at `now` since `start`, zero when `now` is earlier.
pub open spec fn elapsed(start: u64, now: u64) -> int {
    if now >= start {
        now - start
    } else {
        0
    }
}

/// Task `t` is in flight and has been running for at least the timeout.
pub open spec fn is_overdue(s: OrchestratorState, t: u32, now: u64) -> bool {
    &&& s.task_timeout is Some
    &&& s.in_progress_tasks.contains_key(t)
    &&& elapsed(s.in_progress_tasks[t].1, now) >= s.task_timeout->0
}

/// The tasks in flight that are overdue at `now`.
pub open spec fn overdue_in_flight(s: OrchestratorState, now: u64) -> Set<u32> {
    Set::new(|t: u32| is_overdue(s, t, now))
}

/// The open tasks that time out at `now`.
pub open spec fn overdue_tasks(s: OrchestratorState, now: u64) -> Set<u32> {
    overdue_in_flight(s, now).intersect(s.open_tasks)
}

/// The task ids of a list of `(task, worker)` pairs.
pub open spec fn task_ids(pairs: Seq<(u32, u32)>) -> Seq<u32> {
    pairs.map_values(|p: (u32, u32)| p.0)
}

/// The workers that the tasks of `h` were dispatched to.
pub open spec fn workers_of(s: OrchestratorState, h: Set<u32>) -> Set<u32> {
    h.map(|t: u32| s.in_progress_tasks[t].0)
}

/// The state after every open task of `h` times out, each taking the worker
/// it was dispatched to out of the active pool.
pub open spec fn timeouts_for(s: OrchestratorState, h: Set<u32>) -> OrchestratorState {
    let hh = h.intersect(s.open_tasks);
    OrchestratorState {
        open_tasks: s.open_tasks.difference(hh),
        in_progress_tasks: s.in_progress_tasks.remove_keys(hh),
        failed_tasks: s.failed_tasks.union(hh),
        busy_workers: s.busy_workers.difference(workers_of(s, hh)),
        workers: s.workers.difference(workers_of(s, hh)),
        inactive_workers: s.inactive_workers.union(workers_of(s, hh)),
        ..s
    }
}

/// The state after a timeout check at `now`: every open task that has been in
/// flight for at least the timeout is failed and its worker freed.
pub open spec fn timeouts_step(s: OrchestratorState, now: u64) -> OrchestratorState {
    timeouts_for(s, overdue_in_flight(s, now))
}

/// `notices` holds exactly one timeout notice for each task of `tasks`.
pub open spec fn are_timeout_notices(notices: Seq<MonitorEvent>, s: OrchestratorState, now: u64, tasks: Set<u32>) -> bool {
    exists|ts: Seq<u32>|
        {
            &&& ts.no_duplicates()
            &&& ts.to_set() == tasks
            &&& ts.len() == notices.len()
            &&& forall|i: int| 0 <= i < ts.len() ==> is_timeout_notice(#[trigger] notices[i], s.id, now, ts[i], s.in_progress_tasks[ts[i]].0)
        }
}

/// Timing out one more task of `h` is the same as timing out `h` with it.
proof fn lemma_timeouts_for_push(s: OrchestratorState, h: Set<u32>, t: u32)
    requires
        !h.contains(t),
        s.in_progress_tasks.contains_key(t),
    ensures
        timeout_step(timeouts_for(s, h), t, s.in_progress_tasks[t].0) =~= timeouts_for(s, h.insert(t)),
{
    let w = s.in_progress_tasks[t].0;
    let hh = h.intersect(s.open_tasks);
    let hh2 = h.insert(t).intersect(s.open_tasks);
    let mid = timeouts_for(s, h);
    if s.open_tasks.contains(t) {
        assert(hh2 =~= hh.insert(t));
        assert(mid.open_tasks.contains(t));
        assert(workers_of(s, hh2) =~= workers_of(s, hh).insert(w)) by {
            assert forall|y: u32| #[trigger] workers_of(s, hh).insert(w).contains(y) implies workers_of(s, hh2).contains(y) by {
                if y == w {
                    assert(hh2.contains(t));
                } else {
                    let x = choose|x: u32| hh.contains(x) && s.in_progress_tasks[x].0 == y;
                    assert(hh2.contains(x));
                }
            }
            assert forall|y: u32| #[trigger] workers_of(s, hh2).contains(y) implies workers_of(s, hh).insert(w).contains(y) by {
                let x = choose|x: u32| hh2.contains(x) && s.in_progress_tasks[x].0 == y;
                if x != t {
                    assert(hh.contains(x));
                }
            }
        }
        assert(mid.open_tasks.remove(t) =~= s.open_tasks.difference(hh2));
        assert(mid.in_progress_tasks.remove(t) =~= s.in_progress_tasks.remove_keys(hh2));
        assert(mid.failed_tasks.insert(t) =~= s.failed_tasks.union(hh2));
        assert(mid.busy_workers.remove(w) =~= s.busy_workers.difference(workers_of(s, hh2)));
        assert(mid.workers.remove(w) =~= s.workers.difference(workers_of(s, hh2)));
        assert(mid.inactive_workers.insert(w) =~= s.inactive_workers.union(workers_of(s, hh2)));
    } else {
        assert(hh2 =~= hh);
        assert(!mid.open_tasks.contains(t));
    }
}

/// Where a SUMMA calculation stands.
#[derive(Clone, Copy, Debug, PartialEq, Eq, Structural)]
pub enum SummaPhase {
    /// The multiplication for `cell` of iteration `k` is being sent to its worker.
    Dispatching,
    /// Every multiplication of iteration `k` was sent; results are awaited.
    Waiting,
    /// The calculation is over.
    Finished,
}

/// A SUMMA calculation of `a * b` in progress on a `size` by `size` worker
/// grid. Cells are numbered 0 to `size * size - 1` in row-major order.
#[derive(Debug)]
pub struct SummaRun {
    pub a: Vec<Vec<u32>>,
    pub b: Vec<Vec<u32>>,
    pub size: usize,
    pub k: usize,
    pub cell: usize,
    pub phase: SummaPhase,
}

/// The abstract state of a SUMMA calculation.
pub struct SummaRunView {
    pub a: Seq<Seq<u32>>,
    pub b: Seq<Seq<u32>>,
    pub size: nat,
    pub k: nat,
    pub cell: nat,
    pub phase: SummaPhase,
}

impl View for SummaRun {
    type V = SummaRunView;

    open spec fn view(&self) -> SummaRunView {
        SummaRunView {
            a: matrix_view(self.a),
            b: matrix_view(self.b),
            size: self.size as nat,
            k: self.k as nat,
            cell: self.cell as nat,
            phase: self.phase,
        }
    }
}

/// What became of sending a multiplication to its worker.
#[derive(Clone, Copy, Debug, PartialEq, Eq, Structural)]
pub enum DispatchOutcome {
    Delivered,
    /// The worker has no registered work channel.
    NoChannel,
    /// The worker's work channel is closed.
    Disconnected,
}

/// What happened while a SUMMA calculation waited.
#[derive(Clone, Copy, Debug, PartialEq, Eq, Structural)]
pub enum SummaInput {
    /// The outcome of the dispatch that was asked for.
    Dispatched(DispatchOutcome),
    /// A task event arrived from a worker.
    Received(TaskEvent),
    /// No event arrived within the timeout check frequency.
    Tick,
    /// Every worker result sender is gone.
    Disconnected,
}

/// What a SUMMA calculation asks for next.
#[derive(Debug)]
pub enum SummaAction {
    /// Send this multiplication to its worker, then report the outcome.
    Dispatch(TaskEvent),
    /// Wait for a task event, at most the timeout check frequency.
    Await,
    /// The calculation is over, with the product or an error.
    Finished(Result<Vec<Vec<u32>>, String>),
}

/// The meaning of a [`SummaAction`].
#[verifier::ext_equal]
pub enum SummaOutcome {
    Dispatch(TaskEvent),
    Await,
    Done(Seq<Seq<u32>>),
    Failed(Seq<char>),
}

impl View for SummaAction {
    type V = SummaOutcome;

    open spec fn view(&self) -> SummaOutcome {
        match self {
            SummaAction::Dispatch(e) => SummaOutcome::Dispatch(*e),
            SummaAction::Await => SummaOutcome::Await,
            SummaAction::Finished(Ok(m)) => SummaOutcome::Done(matrix_view(*m)),
            SummaAction::Finished(Err(m)) => SummaOutcome::Failed(m@),
        }
    }
}

/// The row of cell `c` on an n by n grid.
pub open spec fn cell_row(n: int, c: int) -> int {
    c / n
}

/// The column of cell `c` on an n by n grid.
pub open spec fn cell_col(n: int, c: int) -> int {
    c % n
}

/// The worker that owns cell `c`: workers 1 to n * n in row-major order.
pub open spec fn summa_worker(c: int) -> int {
    c + 1
}

/// The task id of the multiplication for cell `c` in iteration `k` on an n by
/// n grid.
pub open spec fn summa_task(n: int, k: int, c: int) -> int {
    k * n * n + c + 1
}

/// The multiplication `A[i][k] * B[k][j]` sent for cell `c = (i, j)` of
/// iteration `k`.
pub open spec fn multiply_order(run: SummaRunView, k: int, c: int) -> TaskEvent {
    let n = run.size as int;
    TaskEvent {
        worker_id: summa_worker(c) as u32,
        task_id: summa_task(n, k, c) as u32,
        task: Task::Multiply { a: run.a[cell_row(n, c)][k], b: run.b[k][cell_col(n, c)], k: k as usize },
    }
}

/// The n by n grid's task numbering fits in `usize`.
pub open spec fn grid_fits(n: int) -> bool {
    n * n * n <= usize::MAX
}

/// The run's counters are within its grid, and its matrices cover it.
pub open spec fn run_in_range(run: SummaRunView) -> bool {
    &&& run.k < run.size
    &&& run.cell < run.size * run.size
    &&& covers(run.a, run.size as int)
    &&& covers(run.b, run.size as int)
    &&& grid_fits(run.size as int)
}

/// `input` is what the run asked for.
pub open spec fn expects(run: SummaRunView, input: SummaInput) -> bool {
    match run.phase {
        SummaPhase::Dispatching => input is Dispatched,
        SummaPhase::Waiting => !(input is Dispatched),
        SummaPhase::Finished => false,
    }
}

/// The first grid worker, from `w` up to `last`, that is not registered.
pub open spec fn first_missing_worker(s: OrchestratorState, w: int, last: int) -> Option<u32>
    decreases last + 1 - w,
{
    if w > last || w < 1 {
        None
    } else if !s.workers.contains(w as u32) {
        Some(w as u32)
    } else {
        first_missing_worker(s, w + 1, last)
    }
}

/// A finished run.
pub open spec fn finished(run: SummaRunView) -> SummaRunView {
    SummaRunView { phase: SummaPhase::Finished, ..run }
}

/// Reserve the worker of `run.cell` in iteration `run.k` and ask for the
/// multiplication to be sent, or fail when the worker is unregistered or busy.
pub open spec fn prepare_step(s: OrchestratorState, run: SummaRunView) -> (OrchestratorState, SummaRunView, SummaOutcome) {
    let e = multiply_order(run, run.k as int, run.cell as int);
    if !s.workers.contains(e.worker_id) {
        (s, finished(run), SummaOutcome::Failed(worker_message(e.worker_id, " is not registered"@)))
    } else if s.busy_workers.contains(e.worker_id) {
        (s, finished(run), SummaOutcome::Failed(worker_message(e.worker_id, " is already busy"@)))
    } else {
        (
            OrchestratorState { busy_workers: s.busy_workers.insert(e.worker_id), ..s },
            SummaRunView { phase: SummaPhase::Dispatching, ..run },
            SummaOutcome::Dispatch(e),
        )
    }
}

/// Wait while tasks are open; otherwise go on to the next iteration, or
/// finish with the assembled matrix after the last one.
pub open spec fn wait_or_advance_step(s: OrchestratorState, run: SummaRunView) -> (OrchestratorState, SummaRunView, SummaOutcome) {
    if !s.open_tasks.is_empty() {
        (s, SummaRunView { phase: SummaPhase::Waiting, ..run }, SummaOutcome::Await)
    } else if run.k + 1 < run.size {
        prepare_step(s, SummaRunView { k: run.k + 1, cell: 0, ..run })
    } else {
        (s, finished(run), SummaOutcome::Done(s.result_matrix))
    }
}

/// After an event or a timeout check: fail when a task has failed,
/// otherwise wait or advance.
pub open spec fn after_event_step(s: OrchestratorState, run: SummaRunView) -> (OrchestratorState, SummaRunView, SummaOutcome) {
    if !s.failed_tasks.is_empty() {
        (s, finished(run), SummaOutcome::Failed("SUMMA iteration "@ + decimal(run.k) + " has failed multiplication tasks"@))
    } else {
        wait_or_advance_step(s, run)
    }
}

/// The state that starts a SUMMA calculation of `a * b` on the n by n grid,
/// n being the matrix size: workers 1 to n * n must be registered; the result
/// matrix is reset to zeros and the first multiplication is prepared. With
/// n = 0 there is nothing to multiply and the empty matrix is the result.
pub open spec fn summa_start(s: OrchestratorState, a: Seq<Seq<u32>>, b: Seq<Seq<u32>>) -> (OrchestratorState, SummaRunView, SummaOutcome) {
    let n = s.matrix_size;
    let run = SummaRunView { a, b, size: n as nat, k: 0, cell: 0, phase: SummaPhase::Dispatching };
    let missing = first_missing_worker(s, 1, ((n * n) as u32) as int);
    if missing is Some {
        (s, finished(run), SummaOutcome::Failed("SUMMA worker "@ + decimal(missing->0 as nat) + " is not registered"@))
    } else {
        let s1 = OrchestratorState { result_matrix: zero_matrix(n as nat), summa_assignments: Map::empty(), ..s };
        if n == 0 {
            (s1, finished(run), SummaOutcome::Done(s1.result_matrix))
        } else {
            prepare_step(s1, run)
        }
    }
}

/// One step of a SUMMA calculation on `input`, at time `now`.
pub open spec fn summa_next(s: OrchestratorState, run: SummaRunView, input: SummaInput, now: u64) -> (OrchestratorState, SummaRunView, SummaOutcome) {
    let n = run.size as int;
    let c = run.cell as int;
    let e = multiply_order(run, run.k as int, c);
    match input {
        SummaInput::Dispatched(DispatchOutcome::Delivered) => {
            let s1 = OrchestratorState {
                open_tasks: s.open_tasks.insert(e.task_id),
                in_progress_tasks: s.in_progress_tasks.insert(e.task_id, (e.worker_id, now)),
                summa_assignments: s.summa_assignments.insert(e.task_id, (cell_row(n, c) as usize, cell_col(n, c) as usize)),
                ..s
            };
            if run.cell + 1 < run.size * run.size {
                prepare_step(s1, SummaRunView { cell: run.cell + 1, ..run })
            } else {
                wait_or_advance_step(s1, run)
            }
        },
        SummaInput::Dispatched(DispatchOutcome::NoChannel) => (
            OrchestratorState { busy_workers: s.busy_workers.remove(e.worker_id), ..s },
            finished(run),
            SummaOutcome::Failed(worker_message(e.worker_id, " has no registered work channel"@)),
        ),
        SummaInput::Dispatched(DispatchOutcome::Disconnected) => (
            OrchestratorState { busy_workers: s.busy_workers.remove(e.worker_id), ..s },
            finished(run),
            SummaOutcome::Failed(worker_message(e.worker_id, " work channel is disconnected"@)),
        ),
        SummaInput::Received(ev) => {
            let s1 = event_step(s, ev);
            match event_result(ev) {
                Err(m) => (s1, finished(run), SummaOutcome::Failed(m)),
                Ok(()) => after_event_step(s1, run),
            }
        },
        SummaInput::Tick => after_event_step(timeouts_step(s, now), run),
        SummaInput::Disconnected => (
            s,
            finished(run),
            SummaOutcome::Failed("Worker results disconnected during SUMMA iteration "@ + decimal(run.k)),
        ),
    }
}

/// Cell `c` of an n by n grid, for `0 <= c < n * n`, lies in the grid and is
/// `row * n + column`.
pub proof fn lemma_cell_in_grid(n: int, c: int)
    requires
        0 <= n,
        0 <= c < n * n,
    ensures
        n > 0,
        0 <= cell_row(n, c) < n,
        0 <= cell_col(n, c) < n,
        c == cell_row(n, c) * n + cell_col(n, c),
{
    if n == 0 {
        assert(n * n == 0);
    }
    vstd::arithmetic::div_mod::lemma_fundamental_div_mod(c, n);
    vstd::arithmetic::div_mod::lemma_div_pos_is_pos(c, n);
    vstd::arithmetic::div_mod::lemma_mod_bound(c, n);
    assert(c / n < n) by (nonlinear_arith)
        requires
            n > 0,
            c == n * (c / n) + c % n,
            0 <= c % n,
            c < n * n,
    ;
    assert(n * (c / n) == (c / n) * n) by (nonlinear_arith);
}

/// The task ids of an n by n grid, `k * n * n + c + 1`, lie in `1..=n * n * n`.
pub proof fn lemma_task_in_range(n: int, k: int, c: int)
    requires
        0 <= k < n,
        0 <= c < n * n,
    ensures
        1 <= summa_task(n, k, c) <= n * n * n,
        c + 1 <= n * n,
        n * n <= n * n * n,
        0 <= k * n <= k * n * n,
{
    assert(0 <= k * n <= k * n * n) by (nonlinear_arith)
        requires
            0 <= k < n,
    ;
    assert(k * n * n + c + 1 <= n * n * n) by (nonlinear_arith)
        requires
            0 <= k < n,
            0 <= c < n * n,
    ;
    assert(0 <= k * n * n) by (nonlinear_arith)
        requires
            0 <= k,
            0 <= n,
    ;
    assert(n * n <= n * n * n) by (nonlinear_arith)
        requires
            1 <= n,
    ;
}

/// What the orchestrator's event loop observed while it waited.
#[derive(Clone, Copy, Debug, PartialEq, Eq, Structural)]
pub enum LoopInput {
    /// A task event arrived from a worker.
    Received(TaskEvent),
    /// No event arrived within the timeout check frequency.
    Tick,
    /// Every worker result sender is gone.
    Disconnected,
}

/// The text of an error about worker `worker_id`.
pub open spec fn worker_message(worker_id: u32, suffix: Seq<char>) -> Seq<char> {
    "Worker "@ + decimal(worker_id as nat) + suffix
}

/// The state after the orchestrator handles a task event from a worker.
pub open spec fn event_step(s: OrchestratorState, e: TaskEvent) -> OrchestratorState {
    match e.task {
        Task::TaskTimeout {} => timeout_step(s, e.task_id, e.worker_id),
        Task::PartialResult { value, k } => partial_result_step(s, e.task_id, e.worker_id, value, k),
        _ => s,
    }
}

/// What handling a task event reports: a partial result is fine; a timeout,
/// a multiplication order or any other task is an error.
pub open spec fn event_result(e: TaskEvent) -> Result<(), Seq<char>> {
    match e.task {
        Task::TaskTimeout {} => Err(worker_message(e.worker_id, " timed out"@)),
        Task::PartialResult { .. } => Ok(()),
        Task::Multiply { .. } => Err("Orchestrator received a Multiply task"@),
        _ => Err("Orchestrator received an unexpected task"@),
    }
}

/// Handling `e` does not overflow the result matrix.
pub open spec fn event_fits(s: OrchestratorState, e: TaskEvent) -> bool {
    e.task matches Task::PartialResult { value, .. } ==> partial_result_fits(s, e.task_id, value)
}

/// Handling `e` closes or fails an open task and so notifies the monitor.
pub open spec fn event_notifies(s: OrchestratorState, e: TaskEvent) -> bool {
    &&& (e.task is TaskTimeout || e.task is PartialResult)
    &&& s.open_tasks.contains(e.task_id)
}

/// `n` is the notice for the monitor that handling `e` in state `s` produces.
pub open spec fn is_event_notice(n: MonitorEvent, s: OrchestratorState, e: TaskEvent, now: u64) -> bool {
    match e.task {
        Task::TaskTimeout {} => is_timeout_notice(n, s.id, now, e.task_id, e.worker_id),
        _ => n == completed_notice(s.id, now, e.task_id, e.worker_id),
    }
}

/// The state after handling the events `es` in order.
pub open spec fn events_step(s: OrchestratorState, es: Seq<TaskEvent>) -> OrchestratorState
    decreases es.len(),
{
    if es.len() == 0 {
        s
    } else {
        event_step(events_step(s, es.drop_last()), es.last())
    }
}

/// Handling the events `es` in order never overflows the result matrix.
pub open spec fn events_fit(s: OrchestratorState, es: Seq<TaskEvent>) -> bool
    decreases es.len(),
{
    es.len() == 0 || (events_fit(s, es.drop_last()) && event_fits(events_step(s, es.drop_last()), es.last()))
}

/// `ns` are the notices for the monitor, in order, that handling the events
/// `es` in order produces.
pub open spec fn are_event_notices(ns: Seq<MonitorEvent>, s: OrchestratorState, es: Seq<TaskEvent>, now: u64) -> bool
    decreases es.len(),
{
    if es.len() == 0 {
        ns.len() == 0
    } else {
        let before = events_step(s, es.drop_last());
        if event_notifies(before, es.last()) {
            ns.len() > 0 && is_event_notice(ns.last(), before, es.last(), now) && are_event_notices(ns.drop_last(), s, es.drop_last(), now)
        } else {
            are_event_notices(ns, s, es.drop_last(), now)
        }
    }
}

/// An n by n matrix of zeros.
fn zeros(n: usize) -> (m: Vec<Vec<u32>>)
    ensures
        matrix_view(m) == zero_matrix(n as nat),
{
    let mut m: Vec<Vec<u32>> = Vec::new();
    let mut i: usize = 0;
    while i < n
        invariant
            i <= n,
            m@.len() == i,
            forall|x: int| 0 <= x < i ==> (#[trigger] m@[x])@ == zero_row(n as nat),
        decreases n - i,
    {
        let mut row: Vec<u32> = Vec::new();
        let mut j: usize = 0;
        while j < n
            invariant
                j <= n,
                row@ == Seq::new(j as nat, |y: int| 0u32),
            decreases n - j,
        {
            row.push(0);
            j = j + 1;
            assert(row@ =~= Seq::new(j as nat, |y: int| 0u32));
        }
        assert(row@ =~= zero_row(n as nat));
        m.push(row);
        i = i + 1;
    }
    assert(matrix_view(m) =~= zero_matrix(n as nat));
    m
}

/// `prefix`, then the decimal text of `n`, then `suffix`.
fn compose(prefix: &str, n: u64, suffix: &str) -> (m: String)
    ensures
        m@ == prefix@ + decimal(n as nat) + suffix@,
{
    let mut m = String::new();
    push_text(&mut m, prefix);
    push_decimal(&mut m, n);
    push_text(&mut m, suffix);
    m
}

/// A prefix of events that fit also fits.
proof fn lemma_events_fit_prefix(s: OrchestratorState, es: Seq<TaskEvent>, n: int)
    requires
        events_fit(s, es),
        0 <= n <= es.len(),
    ensures
        events_fit(s, es.take(n)),
        n < es.len() ==> event_fits(events_step(s, es.take(n)), es[n]),
    decreases es.len() - n,
{
    if n < es.len() {
        if n + 1 < es.len() {
            lemma_events_fit_prefix(s, es, n + 1);
        } else {
            assert(es.take(n + 1) =~= es);
        }
        assert(es.take(n + 1).drop_last() =~= es.take(n));
    } else {
        assert(es.take(n) =~= es);
    }
}

/// A timeout fails its task and takes its worker out of the active pool; a
/// result that arrives afterwards is ignored (the task stays failed and the
/// result is not recorded), and when it comes from the timed-out worker, that
/// worker returns to the active pool.
pub proof fn law_late_result_is_ignored(s: OrchestratorState, task_id: u32, worker_id: u32, late_worker: u32, value: u32, k: usize)
    requires
        s.open_tasks.contains(task_id),
    ensures
        ({
            let s1 = timeout_step(s, task_id, worker_id);
            let s2 = partial_result_step(s1, task_id, late_worker, value, k);
            &&& s1.failed_tasks.contains(task_id)
            &&& !s1.open_tasks.contains(task_id)
            &&& !s1.workers.contains(worker_id)
            &&& !s1.busy_workers.contains(worker_id)
            &&& s1.inactive_workers.contains(worker_id)
            &&& s2.open_tasks == s1.open_tasks
            &&& s2.failed_tasks == s1.failed_tasks
            &&& s2.closed_tasks == s1.closed_tasks
            &&& s2.result_matrix == s1.result_matrix
            &&& s2.partial_results == s1.partial_results
            &&& s2.busy_workers == s1.busy_workers
            &&& late_worker == worker_id ==> s2.workers == s1.workers.insert(worker_id) && !s2.inactive_workers.contains(worker_id)
        }),
{
}

/// A timeout check fails exactly the open tasks that are overdue: they are no
/// longer open nor in flight, and every other task keeps its state.
pub proof fn law_timeout_check_fails_overdue_tasks(s: OrchestratorState, now: u64)
    ensures
        forall|t: u32| #[trigger] overdue_tasks(s, now).contains(t) ==> {
            &&& timeouts_step(s, now).failed_tasks.contains(t)
            &&& !timeouts_step(s, now).open_tasks.contains(t)
            &&& !timeouts_step(s, now).in_progress_tasks.contains_key(t)
        },
        forall|t: u32| !overdue_tasks(s, now).contains(t) ==> {
            &&& (#[trigger] timeouts_step(s, now).open_tasks.contains(t) == s.open_tasks.contains(t))
            &&& timeouts_step(s, now).failed_tasks.contains(t) == s.failed_tasks.contains(t)
            &&& timeouts_step(s, now).in_progress_tasks.contains_key(t) == s.in_progress_tasks.contains_key(t)
        },
        timeouts_step(s, now).result_matrix == s.result_matrix,
        timeouts_step(s, now).closed_tasks == s.closed_tasks,
{
}

/// A timeout check at `now` measures each task in flight from the time it
/// was dispatched: an open task dispatched at `started` with
/// `now - started` under the timeout (or with timeouts not enforced) stays
/// open and in flight, unfailed, with its worker in the active pool; one
/// dispatched at least the timeout before `now` fails and leaves the flight.
pub proof fn law_timeout_measured_from_dispatch(s: OrchestratorState, now: u64, t: u32)
    requires
        s.open_tasks.contains(t),
        s.in_progress_tasks.contains_key(t),
        s.in_progress_tasks[t].1 <= now,
    ensures
        s.task_timeout is None || now - s.in_progress_tasks[t].1 < s.task_timeout->0 ==> {
            &&& timeouts_step(s, now).open_tasks.contains(t)
            &&& timeouts_step(s, now).in_progress_tasks.contains_key(t)
            &&& timeouts_step(s, now).in_progress_tasks[t] == s.in_progress_tasks[t]
            &&& timeouts_step(s, now).failed_tasks.contains(t) == s.failed_tasks.contains(t)
        },
        s.task_timeout is Some && now - s.in_progress_tasks[t].1 >= s.task_timeout->0 ==> {
            &&& !timeouts_step(s, now).open_tasks.contains(t)
            &&& !timeouts_step(s, now).in_progress_tasks.contains_key(t)
            &&& timeouts_step(s, now).failed_tasks.contains(t)
            &&& !timeouts_step(s, now).workers.contains(s.in_progress_tasks[t].0)
        },
{
    let ts = timeouts_step(s, now);
    let hh = overdue_in_flight(s, now).intersect(s.open_tasks);
    if s.task_timeout is Some && now - s.in_progress_tasks[t].1 >= s.task_timeout->0 {
        assert(hh.contains(t));
        assert(workers_of(s, hh).contains(s.in_progress_tasks[t].0));
    } else {
        assert(!overdue_in_flight(s, now).contains(t));
    }
}

/// A timeout check that comes less than the timeout after a task was
/// dispatched leaves the task open: a task in flight since `started` is not
/// failed by a check at `started + d` with `d` under the timeout.
pub proof fn law_no_timeout_before_its_time(s: OrchestratorState, t: u32, d: u64)
    requires
        s.open_tasks.contains(t),
        s.in_progress_tasks.contains_key(t),
        s.in_progress_tasks[t].1 + d <= u64::MAX,
        s.task_timeout matches Some(limit) ==> d < limit,
    ensures
        timeouts_step(s, (s.in_progress_tasks[t].1 + d) as u64).open_tasks.contains(t),
        timeouts_step(s, (s.in_progress_tasks[t].1 + d) as u64).failed_tasks.contains(t) == s.failed_tasks.contains(t),
{
    law_timeout_measured_from_dispatch(s, (s.in_progress_tasks[t].1 + d) as u64, t);
}

/// The state after worker `worker_id` is registered.
pub open spec fn register_step(s: OrchestratorState, worker_id: u32) -> OrchestratorState {
    OrchestratorState { workers: s.workers.insert(worker_id), ..s }
}

/// Every busy worker is a registered worker.
pub open spec fn busy_are_registered(s: OrchestratorState) -> bool {
    s.busy_workers.subset_of(s.workers)
}

/// The workers the orchestrator knows of: those in the active pool and those
/// out of it after a timeout.
pub open spec fn known_workers(s: OrchestratorState) -> Set<u32> {
    s.workers.union(s.inactive_workers)
}

/// `s2` keeps the bookkeeping of `s`: no known worker, closed task or failed
/// task is lost (a worker leaves the active pool only for the inactive
/// ones), and busy workers stay in the active pool.
pub open spec fn keeps_bookkeeping(s: OrchestratorState, s2: OrchestratorState) -> bool {
    &&& busy_are_registered(s) ==> busy_are_registered(s2)
    &&& known_workers(s).subset_of(known_workers(s2))
    &&& s.closed_tasks.subset_of(s2.closed_tasks)
    &&& s.failed_tasks.subset_of(s2.failed_tasks)
}

/// Handling events in order keeps the bookkeeping.
proof fn lemma_events_keep_bookkeeping(s: OrchestratorState, es: Seq<TaskEvent>)
    ensures
        keeps_bookkeeping(s, events_step(s, es)),
    decreases es.len(),
{
    if es.len() > 0 {
        lemma_events_keep_bookkeeping(s, es.drop_last());
    }
}

/// The orchestrator never loses track of its workers and tasks: every
/// operation (registering a worker, recording a result, a timeout, a timeout
/// check, handling events, and each step of a SUMMA calculation) keeps busy
/// workers in the active pool, never forgets a worker (one leaves the active
/// pool only for the inactive workers, after a timeout), and never removes a
/// closed or failed task.
pub proof fn law_bookkeeping_is_kept(
    s: OrchestratorState,
    worker_id: u32,
    task_id: u32,
    value: u32,
    k: usize,
    e: TaskEvent,
    es: Seq<TaskEvent>,
    now: u64,
    run: SummaRunView,
    input: SummaInput,
    a: Seq<Seq<u32>>,
    b: Seq<Seq<u32>>,
)
    ensures
        keeps_bookkeeping(s, register_step(s, worker_id)),
        keeps_bookkeeping(s, partial_result_step(s, task_id, worker_id, value, k)),
        keeps_bookkeeping(s, timeout_step(s, task_id, worker_id)),
        keeps_bookkeeping(s, timeouts_step(s, now)),
        keeps_bookkeeping(s, event_step(s, e)),
        keeps_bookkeeping(s, timeouts_step(events_step(s, es), now)),
        keeps_bookkeeping(s, prepare_step(s, run).0),
        keeps_bookkeeping(s, summa_start(s, a, b).0),
        keeps_bookkeeping(s, summa_next(s, run, input, now).0),
{
    lemma_events_keep_bookkeeping(s, es);
    let s1 = events_step(s, es);
    assert(keeps_bookkeeping(s1, timeouts_step(s1, now)));
    let n = s.matrix_size;
    let s2 = OrchestratorState { result_matrix: zero_matrix(n as nat), summa_assignments: Map::empty(), ..s };
    assert(keeps_bookkeeping(s2, prepare_step(s2, SummaRunView { a, b, size: n as nat, k: 0, cell: 0, phase: SummaPhase::Dispatching }).0));
    let c = run.cell as int;
    let o = multiply_order(run, run.k as int, c);
    let s3 = OrchestratorState {
        open_tasks: s.open_tasks.insert(o.task_id),
        in_progress_tasks: s.in_progress_tasks.insert(o.task_id, (o.worker_id, now)),
        summa_assignments: s.summa_assignments.insert(o.task_id, (cell_row(run.size as int, c) as usize, cell_col(run.size as int, c) as usize)),
        ..s
    };
    assert(keeps_bookkeeping(s3, prepare_step(s3, SummaRunView { cell: run.cell + 1, ..run }).0));
    assert(keeps_bookkeeping(s3, wait_or_advance_step(s3, run).0)) by {
        assert(keeps_bookkeeping(s3, prepare_step(s3, SummaRunView { k: run.k + 1, cell: 0, ..run }).0));
    }
    match input {
        SummaInput::Received(ev) => {
            let s4 = event_step(s, ev);
            assert(keeps_bookkeeping(s4, prepare_step(s4, SummaRunView { k: run.k + 1, cell: 0, ..run }).0));
        },
        SummaInput::Tick => {
            let s4 = timeouts_step(s, now);
            assert(keeps_bookkeeping(s4, prepare_step(s4, SummaRunView { k: run.k + 1, cell: 0, ..run }).0));
        },
        _ => {},
    }
}

impl Orchestrator {
    /// The orchestrator's private bookkeeping is consistent.
    pub open spec fn well_formed(&self) -> bool {
        assignments_in_grid(self@)
    }

    /// An orchestrator with no workers and no tasks, without timeout
    /// enforcement, checking for timeouts every second.
    pub fn new(id: u32, matrix_size: usize) -> (o: Self)
        ensures
            o.well_formed(),
            o@ == initial_state(id, matrix_size),
    {
        let zero = zeros(matrix_size);
        let o = Orchestrator {
            id,
            matrix_size,
            workers: HashSet::new(),
            busy_workers: HashSet::new(),
            open_tasks: HashSet::new(),
            closed_tasks: HashSet::new(),
            failed_tasks: HashSet::new(),
            partial_results: HashMap::new(),
            result_matrix: zero,
            summa_assignments: HashMap::new(),
            in_progress_tasks: HashMap::new(),
            inactive_workers: HashSet::new(),
            task_timeout: None,
            timeout_check_frequency: 1000,
        };
        proof {
            assert(o@ =~= initial_state(id, matrix_size));
        }
        o
    }

    /// An orchestrator for the configured matrix size. A zero timeout turns
    /// timeout enforcement off; a zero check frequency becomes one
    /// millisecond.
    pub fn from_config(id: u32, config: AppConfig) -> (o: Self)
        ensures
            o.well_formed(),
            o@ == (OrchestratorState {
                task_timeout: if config.timeout != 0 { Some(config.timeout) } else { None },
                timeout_check_frequency: if config.check_frequency >= 1 { config.check_frequency } else { 1 },
                ..initial_state(id, config.matrix_size)
            }),
    {
        let mut orchestrator = Self::new(id, config.matrix_size);
        orchestrator.task_timeout = if config.timeout != 0 { Some(config.timeout) } else { None };
        orchestrator.timeout_check_frequency = if config.check_frequency >= 1 { config.check_frequency } else { 1 };
        orchestrator
    }

    /// The task timeout in milliseconds, if timeouts are enforced.
    pub fn task_timeout(&self) -> (t: Option<u64>)
        ensures
            t == self@.task_timeout,
    {
        self.task_timeout
    }

    /// How long, in milliseconds, to wait for a result before checking for
    /// timeouts.
    pub fn timeout_check_frequency(&self) -> (f: u64)
        ensures
            f == self@.timeout_check_frequency,
    {
        self.timeout_check_frequency
    }

    /// Registers a worker.
    pub fn register_worker_channel(&mut self, worker_id: u32)
        requires
            old(self).well_formed(),
        ensures
            final(self).well_formed(),
            final(self)@ == register_step(old(self)@, worker_id),
    {
        self.workers.insert(worker_id);
    }

    /// Records the result `value` that worker `worker_id` reports for task
    /// `task_id` of SUMMA iteration `k`, and returns the notice for the
    /// monitor. A result that arrives for a task that is not open (after a
    /// timeout) is ignored.
    pub fn handle_partial_result(&mut self, task_id: u32, worker_id: u32, value: u32, k: usize, now: u64) -> (notice: Option<MonitorEvent>)
        requires
            old(self).well_formed(),
            partial_result_fits(old(self)@, task_id, value),
        ensures
            final(self).well_formed(),
            final(self)@ == partial_result_step(old(self)@, task_id, worker_id, value, k),
            notice == (if old(self)@.open_tasks.contains(task_id) {
                Some(completed_notice(old(self)@.id, now, task_id, worker_id))
            } else {
                None
            }),
    {
        if !self.open_tasks.remove(&task_id) {
            if self.inactive_workers.remove(&worker_id) {
                self.workers.insert(worker_id);
                proof {
                    assert(self@ =~= partial_result_step(old(self)@, task_id, worker_id, value, k));
                }
            }
            return None;
        }
        self.partial_results.insert(k, value);
        match self.summa_assignments.remove(&task_id) {
            Some((i, j)) => {
                proof {
                    assert(old(self)@.summa_assignments.contains_key(task_id));
                    assert(matrix_view(self.result_matrix)[i as int] == self.result_matrix@[i as int]@);
                    assert(self.result_matrix@[i as int]@.len() == self@.matrix_size);
                }
                self.result_matrix[i][j] = self.result_matrix[i][j] + value;
                proof {
                    let m0 = matrix_view(old(self).result_matrix);
                    assert(matrix_view(self.result_matrix)[i as int] =~= m0[i as int].update(j as int, (m0[i as int][j as int] + value) as u32));
                    assert(matrix_view(self.result_matrix) =~= add_to_cell(m0, i as int, j as int, value));
                }
            },
            None => {},
        }
        self.in_progress_tasks.remove(&task_id);
        self.closed_tasks.insert(task_id);
        self.busy_workers.remove(&worker_id);
        proof {
            assert(self@ =~= partial_result_step(old(self)@, task_id, worker_id, value, k));
        }
        Some(MonitorEvent::new(self.id, now, Source::Orchestrator, EventPayload::TaskCompleted { task_id, worker_id }))
    }

    /// Marks the open task of `task_event` as failed and frees its worker,
    /// returning the notice for the monitor. A task that is not open is left
    /// as it is.
    pub fn handle_timeout(&mut self, task_event: TaskEvent, now: u64) -> (notice: Option<MonitorEvent>)
        requires
            old(self).well_formed(),
        ensures
            final(self).well_formed(),
            final(self)@ == timeout_step(old(self)@, task_event.task_id, task_event.worker_id),
            notice is Some <==> old(self)@.open_tasks.contains(task_event.task_id),
            notice matches Some(e) ==> is_timeout_notice(e, old(self)@.id, now, task_event.task_id, task_event.worker_id),
    {
        if !self.open_tasks.remove(&task_event.task_id) {
            return None;
        }
        let mut reason = String::new();
        push_text(&mut reason, "Timeout");
        proof {
            reveal_strlit("Timeout");
        }
        let notice = MonitorEvent::new(
            self.id,
            now,
            Source::Orchestrator,
            EventPayload::TaskFailed { task_id: task_event.task_id, worker_id: task_event.worker_id, reason },
        );
        self.in_progress_tasks.remove(&task_event.task_id);
        self.failed_tasks.insert(task_event.task_id);
        self.busy_workers.remove(&task_event.worker_id);
        self.workers.remove(&task_event.worker_id);
        self.inactive_workers.insert(task_event.worker_id);
        proof {
            assert(self@ =~= timeout_step(old(self)@, task_event.task_id, task_event.worker_id));
        }
        Some(notice)
    }
    /// Fails every open task that has been in flight for at least the
    /// timeout (when timeouts are enforced) and frees its worker. Returns one
    /// notice for the monitor per failed task.
    pub fn check_task_timeouts(&mut self, now: u64) -> (notices: Vec<MonitorEvent>)
        requires
            old(self).well_formed(),
        ensures
            final(self).well_formed(),
            final(self)@ == timeouts_step(old(self)@, now),
            are_timeout_notices(notices@, old(self)@, now, overdue_tasks(old(self)@, now)),
    {
        let ghost s = self@;
        let limit = match self.task_timeout {
            Some(limit) => limit,
            None => {
                proof {
                    assert(overdue_in_flight(s, now) =~= Set::empty());
                    assert(overdue_tasks(s, now) =~= Set::empty());
                    let none = Set::<u32>::empty().intersect(s.open_tasks);
                    assert(none =~= Set::empty());
                    assert(workers_of(s, none) =~= Set::empty());
                    assert(s.busy_workers.difference(workers_of(s, none)) =~= s.busy_workers);
                    assert(s.workers.difference(workers_of(s, none)) =~= s.workers);
                    assert(s.inactive_workers.union(workers_of(s, none)) =~= s.inactive_workers);
                    assert(timeouts_step(s, now) =~= s);
                    let ts = Seq::<u32>::empty();
                    assert(ts.to_set() =~= Set::empty());
                }
                return Vec::new();
            },
        };
        let mut expired: Vec<(u32, u32)> = Vec::new();
        let ghost ks = vstd::std_specs::hash::spec_keys_iter(&self.in_progress_tasks).remaining().unref();
        proof {
            vstd::std_specs::hash::axiom_spec_keys_iter(&self.in_progress_tasks);
        }
        for t in it: self.in_progress_tasks.keys()
            invariant
                self@ == s,
                s.task_timeout == Some(limit),
                it.seq() == vstd::std_specs::hash::spec_keys_iter(&self.in_progress_tasks).remaining(),
                ks == it.seq().unref(),
                ks.no_duplicates(),
                ks.to_set() == s.in_progress_tasks.dom(),
                forall|q: int| 0 <= q < expired.len() ==> #[trigger] is_overdue(s, expired@[q].0, now)
                    && expired@[q].1 == s.in_progress_tasks[expired@[q].0].0
                    && ks.take(it.index()).contains(expired@[q].0),
                forall|q1: int, q2: int| 0 <= q1 < q2 < expired.len() ==> expired@[q1].0 != expired@[q2].0,
                forall|x: u32| ks.take(it.index()).contains(x) && is_overdue(s, x, now) ==> exists|q: int| 0 <= q < expired.len() && #[trigger] expired@[q].0 == x,
        {
            let ghost idx = it.index();
            let ghost old_exp = expired@;
            proof {
                assert(ks[idx] == *t);
                assert(ks.take(idx + 1) =~= ks.take(idx).push(*t));
                assert(!ks.take(idx).contains(*t)) by {
                    if ks.take(idx).contains(*t) {
                        let p = choose|p: int| 0 <= p < idx && ks.take(idx)[p] == *t;
                        assert(ks[p] == ks[idx]);
                    }
                }
                assert(ks.to_set().contains(*t));
            }
            match self.in_progress_tasks.get(t) {
                Some(entry) => {
                    let (worker_id, started_at) = *entry;
                    let waited: u64 = if now >= started_at { now - started_at } else { 0 };
                    proof {
                        assert(s.in_progress_tasks.contains_key(*t));
                        assert(s.in_progress_tasks[*t] == (worker_id, started_at));
                    }
                    if waited >= limit {
                        expired.push((*t, worker_id));
                        proof {
                            assert(expired@[expired.len() - 1].0 == *t);
                        }
                    }
                },
                None => {},
            }
            proof {
                assert forall|x: u32| ks.take(idx).contains(x) implies ks.take(idx + 1).contains(x) by {
                    let p = choose|p: int| 0 <= p < idx && ks.take(idx)[p] == x;
                    assert(ks.take(idx + 1)[p] == x);
                }
                assert(ks.take(idx + 1)[idx] == *t);
                assert forall|q: int| 0 <= q < expired.len() implies #[trigger] is_overdue(s, expired@[q].0, now)
                    && expired@[q].1 == s.in_progress_tasks[expired@[q].0].0
                    && ks.take(idx + 1).contains(expired@[q].0) by {
                    if q < old_exp.len() {
                        assert(expired@[q] == old_exp[q]);
                    }
                }
                assert forall|q1: int, q2: int| 0 <= q1 < q2 < expired.len() implies expired@[q1].0 != expired@[q2].0 by {
                    if q2 < old_exp.len() {
                        assert(expired@[q1] == old_exp[q1]);
                        assert(expired@[q2] == old_exp[q2]);
                    } else {
                        assert(expired@[q1] == old_exp[q1]);
                        assert(is_overdue(s, old_exp[q1].0, now));
                        assert(ks.take(idx).contains(old_exp[q1].0));
                    }
                }
                assert forall|x: u32| ks.take(idx + 1).contains(x) && is_overdue(s, x, now) implies exists|q: int| 0 <= q < expired.len() && #[trigger] expired@[q].0 == x by {
                    if x == *t {
                        assert(expired@[expired.len() - 1].0 == x);
                    } else {
                        assert(ks.take(idx).contains(x));
                        let q = choose|q: int| 0 <= q < old_exp.len() && #[trigger] old_exp[q].0 == x;
                        assert(expired@[q] == old_exp[q]);
                    }
                }
            }
        }
        let mut notices: Vec<MonitorEvent> = Vec::new();
        let ghost mut handled: Seq<u32> = Seq::empty();
        let n = expired.len();
        let mut q: usize = 0;
        while q < n
            invariant
                n == expired.len(),
                q <= n,
                self.well_formed(),
                self@ == timeouts_for(s, task_ids(expired@.take(q as int)).to_set()),
                forall|r: int| 0 <= r < expired.len() ==> #[trigger] is_overdue(s, expired@[r].0, now)
                    && expired@[r].1 == s.in_progress_tasks[expired@[r].0].0,
                forall|q1: int, q2: int| 0 <= q1 < q2 < expired.len() ==> expired@[q1].0 != expired@[q2].0,
                handled.no_duplicates(),
                handled.to_set() == task_ids(expired@.take(q as int)).to_set().intersect(s.open_tasks),
                handled.len() == notices.len(),
                forall|i: int| 0 <= i < handled.len() ==> is_timeout_notice(#[trigger] notices@[i], s.id, now, handled[i], s.in_progress_tasks[handled[i]].0),
            decreases n - q,
        {
            let (task_id, worker_id) = expired[q];
            let ghost done = task_ids(expired@.take(q as int)).to_set();
            proof {
                assert(task_ids(expired@.take(q + 1)) =~= task_ids(expired@.take(q as int)).push(task_id));
                assert(!done.contains(task_id)) by {
                    if done.contains(task_id) {
                        let r = choose|r: int| 0 <= r < q && #[trigger] task_ids(expired@.take(q as int))[r] == task_id;
                        assert(expired@[r].0 == expired@[q as int].0);
                    }
                }
                assert(is_overdue(s, expired@[q as int].0, now));
                lemma_timeouts_for_push(s, done, task_id);
                assert(self@.open_tasks.contains(task_id) == s.open_tasks.contains(task_id));
            }
            let ghost old_handled = handled;
            let notice = self.handle_timeout(TaskEvent::new(worker_id, task_id, Task::TaskTimeout {}), now);
            match notice {
                Some(e) => {
                    notices.push(e);
                    proof {
                        handled = handled.push(task_id);
                    }
                },
                None => {},
            }
            proof {
                task_ids(expired@.take(q as int)).lemma_push_to_set_commute(task_id);
                assert(task_ids(expired@.take(q + 1)).to_set() =~= done.insert(task_id));
                old_handled.lemma_push_to_set_commute(task_id);
                assert(!old_handled.to_set().contains(task_id));
                assert(handled.to_set() =~= done.insert(task_id).intersect(s.open_tasks));
            }
            q = q + 1;
        }
        proof {
            let all = task_ids(expired@.take(n as int)).to_set();
            assert(expired@.take(n as int) =~= expired@);
            assert(all =~= overdue_in_flight(s, now)) by {
                assert forall|x: u32| all.contains(x) implies overdue_in_flight(s, now).contains(x) by {
                    let r = choose|r: int| 0 <= r < n && #[trigger] task_ids(expired@)[r] == x;
                    assert(is_overdue(s, expired@[r].0, now));
                }
                assert forall|x: u32| overdue_in_flight(s, now).contains(x) implies all.contains(x) by {
                    assert(ks.to_set().contains(x));
                    assert(ks.take(ks.len() as int) =~= ks);
                    let r = choose|r: int| 0 <= r < expired.len() && #[trigger] expired@[r].0 == x;
                    assert(task_ids(expired@)[r] == x);
                }
            }
        }
        notices
    }
    /// Handles a task event from a worker: a partial result is recorded, a
    /// timeout fails its task. Returns whether the event was acceptable and
    /// the notice for the monitor, if any.
    pub fn handle_task_event(&mut self, event: TaskEvent, now: u64) -> (out: (Result<(), String>, Option<MonitorEvent>))
        requires
            old(self).well_formed(),
            event_fits(old(self)@, event),
        ensures
            final(self).well_formed(),
            final(self)@ == event_step(old(self)@, event),
            match (out.0, event_result(event)) {
                (Ok(()), Ok(())) => true,
                (Err(m), Err(sm)) => m@ == sm,
                _ => false,
            },
            out.1 is Some <==> event_notifies(old(self)@, event),
            out.1 matches Some(n) ==> is_event_notice(n, old(self)@, event, now),
    {
        match event.task {
            Task::TaskTimeout {} => {
                let worker_id = event.worker_id;
                let notice = self.handle_timeout(event, now);
                (Err(compose("Worker ", worker_id as u64, " timed out")), notice)
            },
            Task::PartialResult { value, k } => {
                let notice = self.handle_partial_result(event.task_id, event.worker_id, value, k, now);
                (Ok(()), notice)
            },
            Task::Multiply { .. } => {
                let mut m = String::new();
                push_text(&mut m, "Orchestrator received a Multiply task");
                (Err(m), None)
            },
            _ => {
                let mut m = String::new();
                push_text(&mut m, "Orchestrator received an unexpected task");
                (Err(m), None)
            },
        }
    }

    /// Whether handling `event` would keep the result matrix within `u32`.
    pub fn accepts_event(&self, event: &TaskEvent) -> (ok: bool)
        requires
            self.well_formed(),
        ensures
            ok == event_fits(self@, *event),
    {
        match event.task {
            Task::PartialResult { value, .. } => {
                if !self.open_tasks.contains(&event.task_id) {
                    return true;
                }
                match self.summa_assignments.get(&event.task_id) {
                    Some(cell) => {
                        let (i, j) = *cell;
                        proof {
                            assert(self@.summa_assignments.contains_key(event.task_id));
                            assert(self@.summa_assignments[event.task_id] == (i, j));
                            assert(matrix_view(self.result_matrix)[i as int] == self.result_matrix@[i as int]@);
                            assert(self.result_matrix@[i as int]@.len() == self@.matrix_size);
                        }
                        (self.result_matrix[i][j] as u64) + (value as u64) <= (u32::MAX as u64)
                    },
                    None => true,
                }
            },
            _ => true,
        }
    }

    /// Handles the task events that have arrived, in order, then checks for
    /// timeouts. Returns the notices for the monitor: those of the events, in
    /// order, then those of the timeouts.
    pub fn process_incoming_tasks(&mut self, events: Vec<TaskEvent>, now: u64) -> (notices: Vec<MonitorEvent>)
        requires
            old(self).well_formed(),
            events_fit(old(self)@, events@),
        ensures
            final(self).well_formed(),
            final(self)@ == timeouts_step(events_step(old(self)@, events@), now),
            exists|n: int|
                0 <= n <= notices.len() && are_event_notices(notices@.take(n), old(self)@, events@, now)
                    && are_timeout_notices(notices@.skip(n), events_step(old(self)@, events@), now, overdue_tasks(events_step(old(self)@, events@), now)),
    {
        let ghost s = self@;
        let mut notices: Vec<MonitorEvent> = Vec::new();
        let mut i: usize = 0;
        while i < events.len()
            invariant
                i <= events.len(),
                self.well_formed(),
                events_fit(s, events@),
                self@ == events_step(s, events@.take(i as int)),
                are_event_notices(notices@, s, events@.take(i as int), now),
            decreases events.len() - i,
        {
            proof {
                lemma_events_fit_prefix(s, events@, i as int);
                assert(events@.take(i + 1).drop_last() =~= events@.take(i as int));
                assert(events@.take(i + 1).last() == events@[i as int]);
            }
            let ghost before = notices@;
            let (_, notice) = self.handle_task_event(events[i], now);
            match notice {
                Some(n) => {
                    notices.push(n);
                    proof {
                        assert(notices@.drop_last() =~= before);
                    }
                },
                None => {},
            }
            i = i + 1;
        }
        proof {
            assert(events@.take(events.len() as int) =~= events@);
        }
        let ghost n = notices.len() as int;
        let ghost mid = self@;
        let mut more = self.check_task_timeouts(now);
        let ghost tail = more@;
        let ghost head = notices@;
        notices.append(&mut more);
        proof {
            assert(notices@.take(n) =~= head);
            assert(notices@.skip(n) =~= tail);
        }
        notices
    }
    /// Whether every grid worker 1 to `last` is registered; if not, the
    /// first one that is missing.
    fn ensure_summa_grid(&self, last: u32) -> (missing: Option<u32>)
        ensures
            missing == first_missing_worker(self@, 1, last as int),
    {
        let mut w: u64 = 1;
        while w <= last as u64
            invariant
                1 <= w <= last as u64 + 1,
                first_missing_worker(self@, 1, last as int) == first_missing_worker(self@, w as int, last as int),
            decreases last as u64 + 1 - w,
        {
            let id = w as u32;
            if !self.workers.contains(&id) {
                return Some(id);
            }
            w = w + 1;
        }
        None
    }

    /// Reserves the worker of the run's current cell and returns the order to
    /// send it, or fails.
    fn prepare_dispatch(&mut self, run: &mut SummaRun) -> (action: SummaAction)
        requires
            old(self).well_formed(),
            run_in_range(old(run)@),
        ensures
            final(self).well_formed(),
            (final(self)@, final(run)@, action@) == prepare_step(old(self)@, old(run)@),
            final(run).a == old(run).a,
            final(run).b == old(run).b,
    {
        let n = run.size;
        let c = run.cell;
        let k = run.k;
        proof {
            lemma_cell_in_grid(n as int, c as int);
            lemma_task_in_range(n as int, k as int, c as int);
            assert(run.a@[(c / n) as int]@.len() >= n);
            assert(run.b@[k as int]@.len() >= n);
        }
        let i = c / n;
        let j = c % n;
        let worker_id = (c + 1) as u32;
        let task_id = (k * n * n + c + 1) as u32;
        let order = TaskEvent::new(worker_id, task_id, Task::Multiply { a: run.a[i][k], b: run.b[k][j], k });
        proof {
            assert(order == multiply_order(old(run)@, k as int, c as int));
        }
        if !self.workers.contains(&worker_id) {
            run.phase = SummaPhase::Finished;
            return SummaAction::Finished(Err(compose("Worker ", worker_id as u64, " is not registered")));
        }
        if !self.busy_workers.insert(worker_id) {
            run.phase = SummaPhase::Finished;
            return SummaAction::Finished(Err(compose("Worker ", worker_id as u64, " is already busy")));
        }
        run.phase = SummaPhase::Dispatching;
        proof {
            assert(self@ =~= prepare_step(old(self)@, old(run)@).0);
        }
        SummaAction::Dispatch(order)
    }

    /// Waits while tasks are open; otherwise moves to the next iteration, or
    /// finishes with the assembled matrix.
    fn wait_or_advance(&mut self, run: &mut SummaRun) -> (action: SummaAction)
        requires
            old(self).well_formed(),
            run_in_range(old(run)@),
        ensures
            final(self).well_formed(),
            (final(self)@, final(run)@, action@) == wait_or_advance_step(old(self)@, old(run)@),
            final(run).a == old(run).a,
            final(run).b == old(run).b,
    {
        if !self.open_tasks.is_empty() {
            run.phase = SummaPhase::Waiting;
            return SummaAction::Await;
        }
        if run.k + 1 < run.size {
            run.k = run.k + 1;
            run.cell = 0;
            proof {
                assert(0 < run.size * run.size) by (nonlinear_arith)
                    requires
                        0 < run.size,
                ;
            }
            return self.prepare_dispatch(run);
        }
        run.phase = SummaPhase::Finished;
        SummaAction::Finished(Ok(self.result_matrix.clone()))
    }

    /// Fails when a task has failed; otherwise waits or advances.
    fn after_event(&mut self, run: &mut SummaRun) -> (action: SummaAction)
        requires
            old(self).well_formed(),
            run_in_range(old(run)@),
        ensures
            final(self).well_formed(),
            (final(self)@, final(run)@, action@) == after_event_step(old(self)@, old(run)@),
            final(run).a == old(run).a,
            final(run).b == old(run).b,
    {
        if !self.failed_tasks.is_empty() {
            run.phase = SummaPhase::Finished;
            return SummaAction::Finished(Err(compose("SUMMA iteration ", run.k as u64, " has failed multiplication tasks")));
        }
        self.wait_or_advance(run)
    }

    /// Starts a SUMMA calculation of `a * b` on workers 1 to n * n, n being
    /// the matrix size: checks the grid, resets the result matrix to zeros and
    /// asks for the first multiplication to be sent.
    pub fn start_summa(&mut self, a: Vec<Vec<u32>>, b: Vec<Vec<u32>>) -> (out: (SummaRun, SummaAction))
        requires
            old(self).well_formed(),
            covers(matrix_view(a), old(self)@.matrix_size as int),
            covers(matrix_view(b), old(self)@.matrix_size as int),
            grid_fits(old(self)@.matrix_size as int),
        ensures
            final(self).well_formed(),
            out.0.phase != SummaPhase::Finished ==> run_in_range(out.0@),
            (final(self)@, out.0@, out.1@) == summa_start(old(self)@, matrix_view(a), matrix_view(b)),
    {
        let n = self.matrix_size;
        proof {
            assert(n * n <= n * n * n || n == 0) by (nonlinear_arith);
        }
        let mut run = SummaRun { a, b, size: n, k: 0, cell: 0, phase: SummaPhase::Dispatching };
        match self.ensure_summa_grid((n * n) as u32) {
            Some(w) => {
                run.phase = SummaPhase::Finished;
                return (run, SummaAction::Finished(Err(compose("SUMMA worker ", w as u64, " is not registered"))));
            },
            None => {},
        }
        self.result_matrix = zeros(n);
        self.summa_assignments.clear();
        proof {
            assert(self@ =~= OrchestratorState { result_matrix: zero_matrix(n as nat), summa_assignments: Map::empty(), ..old(self)@ });
        }
        if n == 0 {
            run.phase = SummaPhase::Finished;
            return (run, SummaAction::Finished(Ok(self.result_matrix.clone())));
        }
        proof {
            assert(0 < n * n) by (nonlinear_arith)
                requires
                    0 < n,
            ;
        }
        let action = self.prepare_dispatch(&mut run);
        (run, action)
    }

    /// Takes one step of a SUMMA calculation on `input`, at time `now`, and
    /// returns what to do next with the notices for the monitor.
    pub fn summa_step(&mut self, run: &mut SummaRun, input: SummaInput, now: u64) -> (out: (SummaAction, Vec<MonitorEvent>))
        requires
            old(self).well_formed(),
            run_in_range(old(run)@),
            old(run).size == old(self)@.matrix_size,
            expects(old(run)@, input),
            input matches SummaInput::Received(e) ==> event_fits(old(self)@, e),
        ensures
            final(self).well_formed(),
            final(run).size == old(run).size,
            final(run).phase != SummaPhase::Finished ==> run_in_range(final(run)@),
            (final(self)@, final(run)@, out.0@) == summa_next(old(self)@, old(run)@, input, now),
            match input {
                SummaInput::Dispatched(DispatchOutcome::Delivered) => out.1@ == seq![
                    assigned_notice(
                        old(self)@.id,
                        now,
                        summa_task(old(run).size as int, old(run).k as int, old(run).cell as int) as u32,
                        summa_worker(old(run).cell as int) as u32,
                    ),
                ],
                SummaInput::Received(e) => if event_notifies(old(self)@, e) {
                    out.1.len() == 1 && is_event_notice(out.1[0], old(self)@, e, now)
                } else {
                    out.1.len() == 0
                },
                SummaInput::Tick => are_timeout_notices(out.1@, old(self)@, now, overdue_tasks(old(self)@, now)),
                _ => out.1.len() == 0,
            },
    {
        let n = run.size;
        let c = run.cell;
        proof {
            lemma_cell_in_grid(n as int, c as int);
            lemma_task_in_range(n as int, run.k as int, c as int);
        }
        let i = c / n;
        let j = c % n;
        let worker_id = (c + 1) as u32;
        let task_id = (run.k * n * n + c + 1) as u32;
        match input {
            SummaInput::Dispatched(DispatchOutcome::Delivered) => {
                self.open_tasks.insert(task_id);
                self.in_progress_tasks.insert(task_id, (worker_id, now));
                self.summa_assignments.insert(task_id, (i, j));
                proof {
                    let e = multiply_order(old(run)@, old(run).k as int, c as int);
                    assert(e.task_id == task_id && e.worker_id == worker_id);
                    assert(self@ =~= OrchestratorState {
                        open_tasks: old(self)@.open_tasks.insert(e.task_id),
                        in_progress_tasks: old(self)@.in_progress_tasks.insert(e.task_id, (e.worker_id, now)),
                        summa_assignments: old(self)@.summa_assignments.insert(
                            e.task_id,
                            (cell_row(n as int, c as int) as usize, cell_col(n as int, c as int) as usize),
                        ),
                        ..old(self)@
                    });
                    assert forall|t: u32| #[trigger] self@.summa_assignments.contains_key(t) implies self@.summa_assignments[t].0
                        < self@.matrix_size && self@.summa_assignments[t].1 < self@.matrix_size by {
                        if t != task_id {
                            assert(old(self)@.summa_assignments.contains_key(t));
                        }
                    }
                }
                let notice = MonitorEvent::new(self.id, now, Source::Orchestrator, EventPayload::TaskAssigned { task_id, worker_id });
                let mut notices: Vec<MonitorEvent> = Vec::new();
                notices.push(notice);
                let action = if run.cell + 1 < n * n {
                    run.cell = run.cell + 1;
                    self.prepare_dispatch(run)
                } else {
                    self.wait_or_advance(run)
                };
                (action, notices)
            },
            SummaInput::Dispatched(DispatchOutcome::NoChannel) => {
                self.busy_workers.remove(&worker_id);
                run.phase = SummaPhase::Finished;
                (SummaAction::Finished(Err(compose("Worker ", worker_id as u64, " has no registered work channel"))), Vec::new())
            },
            SummaInput::Dispatched(DispatchOutcome::Disconnected) => {
                self.busy_workers.remove(&worker_id);
                run.phase = SummaPhase::Finished;
                (SummaAction::Finished(Err(compose("Worker ", worker_id as u64, " work channel is disconnected"))), Vec::new())
            },
            SummaInput::Received(event) => {
                let (result, notice) = self.handle_task_event(event, now);
                let mut notices: Vec<MonitorEvent> = Vec::new();
                match notice {
                    Some(n) => notices.push(n),
                    None => {},
                }
                match result {
                    Err(m) => {
                        run.phase = SummaPhase::Finished;
                        (SummaAction::Finished(Err(m)), notices)
                    },
                    Ok(()) => (self.after_event(run), notices),
                }
            },
            SummaInput::Tick => {
                let notices = self.check_task_timeouts(now);
                (self.after_event(run), notices)
            },
            SummaInput::Disconnected => {
                run.phase = SummaPhase::Finished;
                let m = compose("Worker results disconnected during SUMMA iteration ", run.k as u64, "");
                proof {
                    reveal_strlit("");
                    assert(m@ =~= "Worker results disconnected during SUMMA iteration "@ + decimal(run.k as nat));
                }
                (SummaAction::Finished(Err(m)), Vec::new())
            },
        }
    }

    /// Decides one turn of the orchestrator's event loop: an arrived event is
    /// handled, a quiet wait triggers a timeout check, and the loop stops once
    /// every worker result sender is gone. Returns whether the loop goes on
    /// and the notices for the monitor.
    pub fn run_turn(&mut self, input: LoopInput, now: u64) -> (out: (bool, Vec<MonitorEvent>))
        requires
            old(self).well_formed(),
            input matches LoopInput::Received(e) ==> event_fits(old(self)@, e),
        ensures
            final(self).well_formed(),
            out.0 == !(input is Disconnected),
            match input {
                LoopInput::Received(e) => {
                    &&& final(self)@ == event_step(old(self)@, e)
                    &&& if event_notifies(old(self)@, e) {
                        out.1.len() == 1 && is_event_notice(out.1[0], old(self)@, e, now)
                    } else {
                        out.1.len() == 0
                    }
                },
                LoopInput::Tick => final(self)@ == timeouts_step(old(self)@, now) && are_timeout_notices(
                    out.1@,
                    old(self)@,
                    now,
                    overdue_tasks(old(self)@, now),
                ),
                LoopInput::Disconnected => final(self)@ == old(self)@ && out.1.len() == 0,
            },
    {
        match input {
            LoopInput::Received(event) => {
                let (_, notice) = self.handle_task_event(event, now);
                let mut notices: Vec<MonitorEvent> = Vec::new();
                match notice {
                    Some(n) => notices.push(n),
                    None => {},
                }
                (true, notices)
            },
            LoopInput::Tick => (true, self.check_task_timeouts(now)),
            LoopInput::Disconnected => (false, Vec::new()),
        }
    }

    /// Writes the orchestrator as text: `Orchestrator:  id <id>`.
    pub fn to_string(&self) -> (s: String)
        ensures
            s@ == "Orchestrator:  id "@ + decimal(self@.id as nat),
    {
        let mut s = String::new();
        push_text(&mut s, "Orchestrator:  id ");
        push_decimal(&mut s, self.id as u64);
        s
    }
}

} // verus!
