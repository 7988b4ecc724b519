use elfo::exec::{ExecError, ExecResult};

struct Oops;

impl From<Oops> for ExecError {
    fn from(_: Oops) -> ExecError {
        ExecError::new("oops".to_string())
    }
}

#[test]
fn unit_unifies_to_ok() {
    assert!(().unify().is_ok());
}

#[test]
fn ok_unifies_to_ok() {
    let result: Result<(), Oops> = Ok(());
    assert!(result.unify().is_ok());
}

#[test]
fn err_unifies_to_the_converted_error() {
    let result: Result<(), Oops> = Err(Oops);
    assert_eq!(result.unify().unwrap_err().message(), "oops");
}

#[test]
fn exec_error_unifies_to_itself() {
    let result: Result<(), ExecError> = Err(ExecError::new("suicide".to_string()));
    assert_eq!(result.unify().unwrap_err().message(), "suicide");
}
