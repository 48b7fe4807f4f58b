//! Verified decision logic of a module build controller, of ESM import
//! specifier dependencies and of JavaScript loader scheduling.

pub mod counter;
pub mod task_list;
pub mod ctrl;
pub mod module_graph;
pub mod finish;
pub mod esm;
pub mod scheduler;
