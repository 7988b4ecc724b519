//! Keeps the set of results that an actor's body may return closed.

use vstd::prelude::*;
use crate::exec::ExecError;

verus! {

/// Implemented for exactly the types that an actor's body may resolve to.
pub trait Sealed {

}

impl Sealed for () {

}

impl<E: Into<ExecError>> Sealed for Result<(), E> {

}

} // verus!
