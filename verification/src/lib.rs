//! Result aggregation and task validation for a programming-contest grader.
//!
//! The crate folds the events of an evaluation run into a queryable result
//! tree (task, solution, subtask, testcase), derives the scores, and runs
//! independent sanity checks around the run. Real-valued quantities are held
//! as fixed-point integers so that every rule can be stated exactly.

pub mod diagnostics;
pub mod laws;
pub mod lookup;
pub mod message;
pub mod order;
pub mod paths;
pub mod sanity_checks;
pub mod score;
pub mod statement;
pub mod status;
pub mod task;
pub mod test_interface;
pub mod tree;
pub mod ui_state;
