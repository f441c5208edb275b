//! Failure reporting: running a task, logging a failure, and handing
//! the result on unchanged either way.

use std::io::Write;
use vstd::prelude::*;

verus! {

/// Relies on std::io::Stdout (through `writeln`): prints one warning
/// line with the error's display form.
#[verifier::external_body]
pub fn report_error<E: core::fmt::Display>(err: &E) {
    let _ = writeln!(std::io::stdout(), "warning: {}", err);
}

/// Relies on std::io::Stdout (through `writeln`): prints one warning
/// line with the error's debug form and its chain.
#[verifier::external_body]
fn report_anyhow(err: &anyhow::Error) {
    let _ = writeln!(std::io::stdout(), "warning: {:?}", err);
}

#[verifier::external_type_specification]
#[verifier::external_body]
pub struct ExAnyhowError(anyhow::Error);

/// Runs the task and hands its result back; a failure is reported
/// before it is returned.
pub fn report_if_fail<T, E: core::fmt::Display, F: FnOnce() -> Result<T, E>>(func: F) -> (r:
    Result<T, E>)
    requires
        call_requires(func, ()),
    ensures
        call_ensures(func, (), r),
{
    let result = func();
    if let Err(e) = &result {
        report_error(e);
    }
    result
}

/// Runs the task and hands its result back; a failure is reported
/// with its full context chain before it is returned.
pub fn report_anyway_if_fail<T, F: FnOnce() -> Result<T, anyhow::Error>>(func: F) -> (r: Result<
    T,
    anyhow::Error,
>)
    requires
        call_requires(func, ()),
    ensures
        call_ensures(func, (), r),
{
    let result = func();
    if let Err(e) = &result {
        report_anyhow(e);
    }
    result
}

} // verus!
