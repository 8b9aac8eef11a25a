//! Unifying several error types behind one dynamically typed error.
//!
//! A function body may call helpers whose error types differ, while
//! `Result` allows one error type.  The dynamic approach erases the
//! concrete type: here first with an enum over the known kinds, then with
//! `anyhow`'s dynamically typed error.

use vstd::prelude::*;

verus! {

/// First failure kind of the demonstration.
#[derive(Debug, PartialEq, Eq, Structural)]
pub struct ErrorA;

/// Second failure kind of the demonstration.
#[derive(Debug, PartialEq, Eq, Structural)]
pub struct ErrorB;

/// Always succeeds; its error type is `ErrorA`.
pub fn function1_that_may_fail() -> (r: Result<(), ErrorA>)
    ensures
        r == Ok::<(), ErrorA>(()),
{
    Ok(())
}

/// Always succeeds; its error type is `ErrorB`.
pub fn _function2_that_may_fail() -> (r: Result<(), ErrorB>)
    ensures
        r == Ok::<(), ErrorB>(()),
{
    Ok(())
}

/// A single error type covering both failure kinds, standing in for a
/// boxed dynamically typed error.
#[derive(Debug, PartialEq, Eq, Structural)]
pub enum DynError {
    A(ErrorA),
    B(ErrorB),
}

/// Calls both helpers, mapping each failure into `DynError`.
pub fn _better_main() -> (r: Result<(), DynError>)
    ensures
        r == Ok::<(), DynError>(()),
{
    match function1_that_may_fail() {
        Ok(_) => {},
        Err(e) => {
            return Err(DynError::A(e));
        },
    }
    match _function2_that_may_fail() {
        Ok(_) => {},
        Err(e) => {
            return Err(DynError::B(e));
        },
    }
    Ok(())
}

#[verifier::external_type_specification]
#[verifier::external_body]
pub struct ExAnyhowError(anyhow::Error);

/// Relies on `anyhow::Error::msg` to build a dynamically typed error value
/// carrying this failure kind's name.  The value is opaque; nothing is
/// claimed of it.
#[verifier::external_body]
fn dyn_error_a(_e: ErrorA) -> anyhow::Error {
    anyhow::Error::msg("ErrorA")
}

/// Relies on `anyhow::Error::msg`, as `dyn_error_a` does.
#[verifier::external_body]
fn dyn_error_b(_e: ErrorB) -> anyhow::Error {
    anyhow::Error::msg("ErrorB")
}

/// Calls both helpers, wrapping each failure in `anyhow`'s error type.
pub fn _even_better_main() -> (r: Result<(), anyhow::Error>)
    ensures
        r is Ok,
{
    match function1_that_may_fail() {
        Ok(_) => {},
        Err(e) => {
            return Err(dyn_error_a(e));
        },
    }
    match _function2_that_may_fail() {
        Ok(_) => {},
        Err(e) => {
            return Err(dyn_error_b(e));
        },
    }
    Ok(())
}

} // verus!
