# rcompute

A distributed n by n matrix multiplication calculator using the SUMMA
algorithm, verified with Verus.

An orchestrator drives a grid of n * n workers, n being the configured matrix
size (worker `i * n + j + 1` owns cell `C[i][j]`). For each iteration `k` it
sends `A[i][k] * B[k][j]` to the owner
of every cell, waits until every result of the iteration has arrived (or a
task has timed out), adds each result to its cell and moves on. A worker
whose task times out leaves the active pool; its late result is ignored and
brings it back. A monitor
records what the orchestrator and the workers report.

## Layout

- `src/` is the verified library.
  - `components/orchestrator.rs`: the orchestrator's bookkeeping, modelled by
    `OrchestratorState`, and the SUMMA calculation as a state machine
    (`start_summa`, `summa_step`) that returns what to send and what to wait
    for, plus the event loop decision (`run_turn`).
  - `components/summa.rs`: the laws of the SUMMA calculation, among them that
    a calculation whose workers report the products they were sent finishes
    with `A * B`, and that it does finish when every order is delivered and
    answered.
  - `components/single_threaded_calculator.rs`: the product computed on the
    calling thread, and the definition of the matrix product.
  - `components/worker.rs`, `components/monitor.rs`, `components/event.rs`,
    `components/task.rs`, `components/timer.rs`, `components/app.rs`,
    `config/app_config.rs`: workers, the monitor, the messages, deadlines, the
    application and its configuration.
- `app/` runs the components on threads connected by channels, reads the
  configuration file and reads the clock; every decision is the library's.
- `tests/` exercises the library, driving the SUMMA state machine directly.
