//! The hosting provider a stack syncs with, and how it names pull requests.
use vstd::prelude::*;

pub use crate::gh::{PrInfo, PrState};

verus! {

/// A git hosting provider.
#[derive(Debug, Clone, Copy, PartialEq, Eq, Structural)]
pub enum Provider {
    GitHub,
    GitLab,
}

/// What the provider calls a change request.
pub open spec fn label_of(p: Provider) -> Seq<char> {
    match p {
        Provider::GitHub => "PR"@,
        Provider::GitLab => "MR"@,
    }
}

/// The sign written before a change request's number.
pub open spec fn number_prefix_of(p: Provider) -> Seq<char> {
    match p {
        Provider::GitHub => "#"@,
        Provider::GitLab => "!"@,
    }
}

impl Provider {
    /// "PR" on GitHub, "MR" on GitLab.
    pub fn pr_label(&self) -> (r: &'static str)
        ensures
            r@ == label_of(*self),
    {
        match self {
            Provider::GitHub => "PR",
            Provider::GitLab => "MR",
        }
    }

    /// "#" on GitHub, "!" on GitLab.
    pub fn pr_number_prefix(&self) -> (r: &'static str)
        ensures
            r@ == number_prefix_of(*self),
    {
        match self {
            Provider::GitHub => "#",
            Provider::GitLab => "!",
        }
    }
}

} // verus!
