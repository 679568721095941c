//! Errors of installing the structured logger. Installing it is the host
//! process's business; libraries never install global state.

use vstd::prelude::*;

verus! {

#[derive(Debug, Clone, PartialEq, Eq)]
pub enum LoggingError {
    /// The configured filter was refused by the logger, with its reason.
    Filter(String),
    AlreadyInitialized,
}

} // verus!
