//! Helpers shared by the waiting queues.
pub mod intrusive_list;
