//! Unifying several error types by structural conversion.
//!
//! The structured approach keeps each error type concrete and converts
//! between them with `From`, so callers can still match on the kind.

use vstd::prelude::*;

verus! {

/// First failure kind of the demonstration.
#[derive(Debug, PartialEq, Eq, Structural)]
pub struct ErrorA;

/// Second failure kind of the demonstration.
#[derive(Debug, PartialEq, Eq, Structural)]
pub struct ErrorB;

impl From<ErrorB> for ErrorA {
    /// Converting loses nothing here: both kinds are empty markers.
    fn from(_e: ErrorB) -> (r: ErrorA) {
        ErrorA
    }
}

impl vstd::std_specs::convert::FromSpecImpl<ErrorB> for ErrorA {
    open spec fn obeys_from_spec() -> bool {
        true
    }

    open spec fn from_spec(_v: ErrorB) -> ErrorA {
        ErrorA
    }
}

impl From<ErrorA> for ErrorB {
    fn from(_e: ErrorA) -> (r: ErrorB) {
        ErrorB
    }
}

impl vstd::std_specs::convert::FromSpecImpl<ErrorA> for ErrorB {
    open spec fn obeys_from_spec() -> bool {
        true
    }

    open spec fn from_spec(_v: ErrorA) -> ErrorB {
        ErrorB
    }
}

impl ErrorA {
    /// The text a report shows for this failure kind.
    pub fn message(&self) -> (r: String)
        ensures
            r@ == "ErrorA"@,
    {
        "ErrorA".to_string()
    }
}

impl ErrorB {
    /// The text a report shows for this failure kind.
    pub fn message(&self) -> (r: String)
        ensures
            r@ == "ErrorB"@,
    {
        "ErrorB".to_string()
    }
}

/// Always succeeds; its error type is `ErrorA`.
pub fn function1_that_may_fail() -> (r: Result<(), ErrorA>)
    ensures
        r == Ok::<(), ErrorA>(()),
{
    Ok(())
}

/// Always succeeds; its error type is `ErrorB`.
pub fn _function2_that_may_fail() -> (r: Result<(), ErrorB>)
    ensures
        r == Ok::<(), ErrorB>(()),
{
    Ok(())
}

/// Calls both helpers, converting a `ErrorB` failure into `ErrorA`.
pub fn _better_main() -> (r: Result<(), ErrorA>)
    ensures
        r == Ok::<(), ErrorA>(()),
{
    match function1_that_may_fail() {
        Ok(_) => {},
        Err(e) => {
            return Err(e);
        },
    }
    match _function2_that_may_fail() {
        Ok(_) => {},
        Err(e) => {
            return Err(ErrorA::from(e));
        },
    }
    Ok(())
}

/// Failure kind that can absorb a `BetterErrorB` as its source.
#[derive(Debug, PartialEq, Eq, Structural)]
pub struct BetterErrorA {
    pub source: BetterErrorB,
}

/// Failure kind that converts into `BetterErrorA`.
#[derive(Debug, PartialEq, Eq, Structural)]
pub struct BetterErrorB;

impl From<BetterErrorB> for BetterErrorA {
    /// The converted error keeps the original as its source.
    fn from(source: BetterErrorB) -> (r: BetterErrorA)
        ensures
            r.source == source,
    {
        BetterErrorA { source }
    }
}

impl vstd::std_specs::convert::FromSpecImpl<BetterErrorB> for BetterErrorA {
    open spec fn obeys_from_spec() -> bool {
        true
    }

    open spec fn from_spec(v: BetterErrorB) -> BetterErrorA {
        BetterErrorA { source: v }
    }
}

/// Always succeeds; its error type is `BetterErrorA`.
pub fn _better_function1_that_may_fail() -> (r: Result<(), BetterErrorA>)
    ensures
        r == Ok::<(), BetterErrorA>(()),
{
    Ok(())
}

/// Always succeeds; its error type is `BetterErrorB`.
pub fn _better_function2_that_may_fail() -> (r: Result<(), BetterErrorB>)
    ensures
        r == Ok::<(), BetterErrorB>(()),
{
    Ok(())
}

/// Calls both helpers, converting a `BetterErrorB` failure into
/// `BetterErrorA`.
pub fn _even_better_main() -> (r: Result<(), BetterErrorA>)
    ensures
        r == Ok::<(), BetterErrorA>(()),
{
    match _better_function1_that_may_fail() {
        Ok(_) => {},
        Err(e) => {
            return Err(e);
        },
    }
    match _better_function2_that_may_fail() {
        Ok(_) => {},
        Err(e) => {
            return Err(BetterErrorA::from(e));
        },
    }
    Ok(())
}

} // verus!
