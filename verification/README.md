# rspack_ctrl

Verified decision logic from three parts of a JavaScript bundler's build:

- `src/counter.rs`, `src/task_list.rs`, `src/ctrl.rs`, `src/finish.rs`,
  `src/module_graph.rs`: the controller of module execution. It counts the
  unfinished children of each module being built, keeps the execute tasks
  that wait for each dependency, answers build events, and finishes modules
  (and the modules that they finish in turn).
- `src/esm.rs`: the ESM import specifier dependency: the exports that an
  import references, the export presence mode, and how the import is
  rendered.
- `src/scheduler.rs`: when a loader is handed to JavaScript, and how the state
  that JavaScript hands back is merged.

`app/` holds the loops that wait on the event channel and the hand-over to
JavaScript, around the verified functions.
