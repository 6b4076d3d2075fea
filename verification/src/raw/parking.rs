//! Parking of tasks that wait for a resource.
pub mod signal;
pub mod queue;
pub mod task;
