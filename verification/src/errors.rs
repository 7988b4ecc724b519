//! Errors that sending, receiving and requesting return to the caller.

use vstd::prelude::*;

verus! {

/// The destination is closed or gone. Carries back what was not sent.
#[derive(Debug)]
pub struct SendError<T>(pub T);

impl<T> SendError<T> {
    /// Gives back what was not sent.
    pub fn into_inner(self) -> (inner: T)
        ensures
            inner == self.0,
    {
        self.0
    }
}

/// Why a send that does not wait failed. Carries back what was not sent.
#[derive(Debug)]
pub enum TrySendError<T> {
    /// The destination has no room right now.
    Full(T),
    /// The destination is closed or gone.
    Closed(T),
}

impl<T> TrySendError<T> {
    pub open spec fn inner(self) -> T {
        match self {
            TrySendError::Full(inner) => inner,
            TrySendError::Closed(inner) => inner,
        }
    }

    /// Gives back what was not sent.
    pub fn into_inner(self) -> (inner: T)
        ensures
            inner == self.inner(),
    {
        match self {
            TrySendError::Full(inner) => inner,
            TrySendError::Closed(inner) => inner,
        }
    }

    pub fn is_full(&self) -> (full: bool)
        ensures
            full == (*self is Full),
    {
        match self {
            TrySendError::Full(_) => true,
            TrySendError::Closed(_) => false,
        }
    }

    pub fn is_closed(&self) -> (closed: bool)
        ensures
            closed == (*self is Closed),
    {
        match self {
            TrySendError::Full(_) => false,
            TrySendError::Closed(_) => true,
        }
    }
}

/// Why a receive that does not wait returned nothing.
#[derive(Clone, Copy, PartialEq, Eq, Structural, Debug)]
pub enum TryRecvError {
    /// Nothing is queued, but more may come.
    Empty,
    /// Nothing is queued and nothing will come.
    Closed,
}

/// Why a request got no response.
#[derive(Clone, Copy, PartialEq, Eq, Structural, Debug)]
pub enum RequestError {
    /// The response token was dropped without a reply.
    Ignored,
    /// The destination was closed before it replied.
    Closed,
}

/// Why routing a message delivered nothing.
#[derive(Clone, Copy, PartialEq, Eq, Structural, Debug)]
pub enum RouterError {
    /// No outbound route of the sending group matched.
    NoDestinations,
}

} // verus!
