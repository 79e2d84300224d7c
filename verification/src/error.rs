//! Error taxonomy of the probing engine.

use vstd::prelude::*;

verus! {

/// Errors surfaced by the probing engine.
///
/// `InputError` is fatal: the address file yielded no usable target.
/// `CommandExecutionFailed` is a per-target transport failure after all
/// retries were exhausted, carrying the last underlying error message.
/// `Timeout` is a per-target failure whose last attempt hit the
/// per-attempt timeout.
/// `UnexpectedError` is a per-target defensive failure: header extraction
/// produced an unexpected shape.
#[derive(Debug, Clone, PartialEq, Eq)]
pub enum CustomError {
    InputError,
    CommandExecutionFailed(String),
    Timeout,
    UnexpectedError(String),
}

} // verus!
