//! Multi-producer channels whose receivers share a fair wait queue.
pub mod unbounded;
