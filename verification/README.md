# saddle_ai_state_machine

A hierarchical finite state machine runtime for game AI: nested states,
orthogonal regions, shallow and deep history, a pushdown stack, utility
scoring, delayed and signal triggers, and a typed blackboard. The decision
logic is written in Verus and proved against its contracts; the engine glue
(systems, messages, assets, gizmos) is plain Rust around it.

## Layout

- `src/` — the verified library.
  - `definition.rs`, `builder.rs`, `validation.rs`, `analysis.rs`: machine
    definitions, the builder, and the validation report with its rules
    (reachability and transient cycles included).
  - `blackboard.rs`, `instance.rs`, `stack.rs`, `debug.rs`: runtime state,
    the bounded trace, and the pushdown stack.
  - `hierarchy.rs`, `regions.rs`, `entering.rs`, `executing.rs`: state paths,
    region entry with history, and the effect of one transition step.
  - `evaluating.rs`, `transitions.rs`, `ordering.rs`: candidate evaluation and
    arbitration (deepest source, then priority, then score, then declaration
    order).
  - `lifecycle.rs`, `scheduling.rs`, `stepping.rs`, `timers.rs`: the per-frame
    pipeline from intake to trace and action lists.
  - `laws.rs`: properties that span several operations, each a proof function.
  - `termination.rs`: checkable conditions under which entry and exit walks
    finish.
- `tests/` — unit tests and a frame-by-frame runtime harness.
- `app/` — the Bevy plugin: components, resources, messages, callbacks,
  the asset loader, debug drawing, and second-based convenience methods.

Times are kept in microseconds and scores in millionths inside the library,
so that every rule can be stated over integers; `app/` converts from seconds
and `f32` scores at the edge.
