//! The messages that the runtime itself sends to actors.

use vstd::prelude::*;

verus! {

/// Tells an actor that the configuration of its group was replaced.
#[derive(Clone, Copy, PartialEq, Eq, Structural, Debug)]
pub struct ConfigUpdated;

/// Asks an actor whether `config` would do. It is a request: the actor
/// answers with `Ok`, or with the reason why the configuration is refused. An
/// actor that ignores the request accepts.
#[derive(Clone, Debug)]
pub struct ValidateConfig<C> {
    pub config: C,
    /// Where the configuration is from.
    pub source: String,
}

/// What an actor answers to [`ValidateConfig`].
pub type ConfigVerdict = Result<(), String>;

/// Asks an actor to end its body, after which its mailbox is closed.
#[derive(Clone, Copy, PartialEq, Eq, Structural, Debug)]
pub struct Terminate;

} // verus!
