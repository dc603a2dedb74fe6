//! A verified task repository: the data-access layer of a todo list.
//!
//! `Task` is the persisted record. `TaskStore` models the backing table:
//! its rows ordered by descending id, newest first, together with the
//! auto-increment counter that assigns ids. The repository operations
//! (`Task::all`, `Task::insert`, `Task::toggle_with_id`,
//! `Task::delete_with_id`, `Task::delete_all`) carry contracts that pin
//! down exactly which rows each one returns, adds, rewrites or removes,
//! and when each one fails. The laws module proves how the operations
//! compose.

pub mod laws;
pub mod store;
pub mod task;
