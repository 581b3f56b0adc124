//! Shutting the application down from outside.

use vstd::prelude::*;

verus! {

/// What was found on the channel that carries the shutdown signal.
#[derive(Debug, Clone, Copy, PartialEq, Eq, Structural)]
pub enum ShutdownSignal {
    /// The signal to shut down.
    Received,
    /// Nothing yet.
    Empty,
    /// Nothing, and nothing will come: the sender is gone.
    Closed,
}

/// How the application is to exit.
#[derive(Debug, Clone, Copy, PartialEq, Eq, Structural)]
pub enum Exit {
    /// In good order, as it was asked to.
    Success,
    /// With an error, since nobody is left to ask it to.
    Error,
}

/// Decides whether the application is to exit, and how: gracefully when
/// the shutdown signal has come, abruptly when it cannot come any more, and
/// not at all while it may still come.
pub fn process_exit_message(signal: ShutdownSignal) -> (exit: Option<Exit>)
    ensures
        exit == (match signal {
            ShutdownSignal::Received => Some(Exit::Success),
            ShutdownSignal::Empty => None,
            ShutdownSignal::Closed => Some(Exit::Error),
        }),
{
    match signal {
        ShutdownSignal::Received => Some(Exit::Success),
        ShutdownSignal::Empty => None,
        ShutdownSignal::Closed => Some(Exit::Error),
    }
}

} // verus!
