//! How commands talk to the user: interactively on a terminal, or with fixed
//! answers when run by a tool or in JSON mode.
use vstd::prelude::*;
use crate::error::GgError;

verus! {

/// Execution context of a command.
pub trait Context {
    /// Asks for a yes/no confirmation.
    fn confirm(&self, message: &str, default: bool) -> Result<bool, GgError>;

    /// Asks to pick one of `options`; gives its index.
    fn select(&self, message: &str, options: &[String]) -> Result<usize, GgError>;

    /// Reports progress.
    fn progress(&self, message: &str);

    /// Whether a person is answering.
    fn is_interactive(&self) -> bool;
}

/// The context of the tool server and of `--json` mode: it never asks and
/// always gives the safe default.
pub struct NonInteractiveContext;

impl Context for NonInteractiveContext {
    fn confirm(&self, message: &str, default: bool) -> (r: Result<bool, GgError>)
        ensures
            r == Ok::<bool, GgError>(default),
    {
        Ok(default)
    }

    fn select(&self, message: &str, options: &[String]) -> (r: Result<usize, GgError>)
        ensures
            r == Ok::<usize, GgError>(0),
    {
        Ok(0)
    }

    fn progress(&self, message: &str) {
    }

    fn is_interactive(&self) -> (r: bool)
        ensures
            !r,
    {
        false
    }
}

} // verus!
