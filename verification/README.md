# copp — verified bookkeeping for convex-objective path parameterization

Path-parameterization planners store their station-wise data (station values,
path derivatives, first-, second- and third-order constraint rows) in circular
column buffers and solve conic programs over station windows. This crate holds
the integer and decision layer of such a planner, with its behaviour stated in
Verus contracts and proved:

- `src/valid_rows.rs` — piecewise-constant row-count maps over a station
  window: a compact partition of the window, with splitting updates, merging,
  clipping and row totals.
- `src/constraints.rs` — the station window over the circular buffers:
  logical-to-physical column mapping, growth in logical order, appending and
  popping stations, the row maps of every constraint family, the linearized
  range, and the placement of every block of values that a caller writes.
- `src/assembly.rs`, `src/objective_assembly.rs` — the sparsity structure
  (row and column of every nonzero, in order) of the feasibility blocks of
  the third-order programs and of the objective blocks of the second- and
  third-order cone programs, with the room each block takes.
- `src/capacity.rs`, `src/objectives.rs`, `src/problem.rs` — preallocation
  estimates of the conic programs, the auxiliary-variable layout, objective
  validation, and the checks of a problem's station interval.
- `src/verbosity.rs`, `src/diagnostics.rs`, `src/solver_options.rs` —
  verbosity levels, the routing of diagnostic messages, the verbosers, and the
  acceptance policy for solver termination statuses.
- `src/error.rs`, `src/text.rs` — error types and the exact diagnostic
  messages of the input checks.

`app/` holds what works on floating-point values or on the process: the
buffers of values themselves (written where the verified layer says), the
floating-point checks and conversions, the solver settings, and the
process-wide diagnostics backend with its log file.

The reachable-set (TOPP2-RA) planner and the convex-objective cone programs
(COPP2, COPP3) are not implemented here: they need path and robot-dynamics
models that this crate does not have. The library holds their sparsity
patterns, capacity estimates and objective validation.
