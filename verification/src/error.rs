//! The errors that sending and receiving report.
use vstd::prelude::*;

verus! {

/// An error from `try_send`: the value comes back.
#[derive(Debug, PartialEq, Eq)]
pub enum TrySendError<T> {
    /// The channel is full.
    Full(T),
    /// The receiving half of the channel is gone.
    Disconnected(T),
}

/// An error from `send`: the receiving half is gone; the value comes back.
#[derive(Debug, PartialEq, Eq)]
pub struct SendError<T>(pub T);

/// An error from a send with a timeout.
#[derive(Debug, PartialEq, Eq)]
pub enum SendTimeoutError<T> {
    /// The send did not complete in time.
    Timeout(T),
    /// The receiving half of the channel is gone.
    Disconnected(T),
}

/// An error from `try_recv`.
#[derive(Clone, Copy, Debug, PartialEq, Eq)]
pub enum TryRecvError {
    /// The channel holds no value.
    Empty,
    /// The channel holds no value and the sending half is gone.
    Disconnected,
}

/// An error from `recv`: the channel holds no value and the sending half is gone.
#[derive(Clone, Copy, Debug, PartialEq, Eq)]
pub struct RecvError;

/// An error from a receive with a timeout.
#[derive(Clone, Copy, Debug, PartialEq, Eq)]
pub enum RecvTimeoutError {
    /// No value arrived in time.
    Timeout,
    /// The channel holds no value and the sending half is gone.
    Disconnected,
}

impl<T> SendError<T> {
    /// The send error that a send with a timeout reports for it.
    pub fn into_timeout_error(self) -> (r: SendTimeoutError<T>)
        ensures
            r == SendTimeoutError::Disconnected(self.0),
    {
        SendTimeoutError::Disconnected(self.0)
    }
}

impl RecvError {
    /// The receive error that a receive with a timeout reports for it.
    pub fn into_timeout_error(self) -> (r: RecvTimeoutError)
        ensures
            r == RecvTimeoutError::Disconnected,
    {
        RecvTimeoutError::Disconnected
    }
}

} // verus!
