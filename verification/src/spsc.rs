//! Single-producer single-consumer channels whose tasks wait in wake-up cells.
pub mod bounded;
pub mod unbounded;
