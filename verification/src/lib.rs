use vstd::prelude::*;

pub mod channels;
pub mod error;
pub mod mpfc;
pub mod mpmc;
pub mod mpsc;
pub mod raw;
pub mod spsc;
pub mod task;
pub mod util;
pub mod wait;
pub mod waker;
