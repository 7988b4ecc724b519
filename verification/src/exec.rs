//! What the body of an actor may return.

use vstd::prelude::*;
use vstd::std_specs::convert::IntoSpec;
use crate::sealed::Sealed;

verus! {

/// Why the body of an actor failed.
#[derive(Debug)]
pub struct ExecError {
    message: String,
}

impl ExecError {
    pub closed spec fn spec_message(&self) -> Seq<char> {
        self.message@
    }

    pub fn new(message: String) -> (error: ExecError)
        ensures
            error.spec_message() == message@,
    {
        ExecError { message }
    }

    pub fn message(&self) -> (message: &str)
        ensures
            message@ == self.spec_message(),
    {
        self.message.as_str()
    }
}

/// The result of an actor's body: `()`, or a `Result` whose error is
/// reported as the reason of the failure.
pub trait ExecResult: Sealed + Sized {
    /// Whether converting the error of this type is specified.
    spec fn obeys_unify_spec() -> bool;

    /// The result in one shape.
    spec fn unify_spec(self) -> Result<(), ExecError>;

    /// Whether the body ended well.
    spec fn succeeded(self) -> bool;

    /// The result in one shape: `Ok` exactly when the body ended well,
    /// else the error, converted.
    fn unify(self) -> (unified: Result<(), ExecError>)
        ensures
            unified is Ok <==> self.succeeded(),
            Self::obeys_unify_spec() ==> unified == self.unify_spec(),
    ;
}

impl ExecResult for () {
    open spec fn obeys_unify_spec() -> bool {
        true
    }

    open spec fn unify_spec(self) -> Result<(), ExecError> {
        Ok(())
    }

    open spec fn succeeded(self) -> bool {
        true
    }

    fn unify(self) -> (unified: Result<(), ExecError>) {
        Ok(())
    }
}

impl<E: Into<ExecError>> ExecResult for Result<(), E> {
    open spec fn obeys_unify_spec() -> bool {
        <E as IntoSpec<ExecError>>::obeys_into_spec()
    }

    open spec fn unify_spec(self) -> Result<(), ExecError> {
        match self {
            Ok(()) => Ok(()),
            Err(error) => Err(<E as IntoSpec<ExecError>>::into_spec(error)),
        }
    }

    open spec fn succeeded(self) -> bool {
        self is Ok
    }

    fn unify(self) -> (unified: Result<(), ExecError>) {
        match self {
            Ok(()) => Ok(()),
            Err(error) => Err(error.into()),
        }
    }
}

} // verus!
