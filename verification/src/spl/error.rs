//! Errors of the operations of a product line: starting, continuing and aborting a
//! derivation, updating a product, and planning a merge order.

use crate::git::error::{GitError, GitModelError, GitSerdeError};
use vstd::prelude::*;
use vstd::std_specs::convert::FromSpecImpl;

verus! {

/// The error of a path of the model, as the git model gives it: a failed git command, a
/// missing node or a node of the wrong kind.
pub open spec fn git_model_error(value: GitError) -> GitModelError {
    match value {
        GitError::Io(e) => GitModelError::Io(e),
        GitError::Git(e) => GitModelError::Git(e),
    }
}

/// Turns a git error into the error of a path of the model.
fn model_error_of(value: GitError) -> (r: GitModelError)
    ensures
        r == git_model_error(value),
{
    match value {
        GitError::Io(e) => GitModelError::Io(e),
        GitError::Git(e) => GitModelError::Git(e),
    }
}

/// Starting a derivation failed: a path of the model, the JSON of the record, or a
/// derivation is in progress already.
#[derive(Debug)]
pub enum InitializeDerivationError {
    PathAssertion(GitModelError),
    Serde(serde_json::Error),
    DerivationInProgress,
}

impl From<GitModelError> for InitializeDerivationError {
    fn from(value: GitModelError) -> (r: Self) {
        InitializeDerivationError::PathAssertion(value)
    }
}

impl FromSpecImpl<GitModelError> for InitializeDerivationError {
    open spec fn obeys_from_spec() -> bool {
        true
    }

    open spec fn from_spec(value: GitModelError) -> Self {
        InitializeDerivationError::PathAssertion(value)
    }
}

impl From<GitError> for InitializeDerivationError {
    fn from(value: GitError) -> (r: Self) {
        InitializeDerivationError::PathAssertion(model_error_of(value))
    }
}

impl FromSpecImpl<GitError> for InitializeDerivationError {
    open spec fn obeys_from_spec() -> bool {
        true
    }

    open spec fn from_spec(value: GitError) -> Self {
        InitializeDerivationError::PathAssertion(git_model_error(value))
    }
}

impl From<GitSerdeError> for InitializeDerivationError {
    fn from(value: GitSerdeError) -> (r: Self) {
        match value {
            GitSerdeError::Serde(e) => InitializeDerivationError::Serde(e),
            GitSerdeError::Io(e) => InitializeDerivationError::PathAssertion(GitModelError::Io(e)),
            GitSerdeError::Git(e) => InitializeDerivationError::PathAssertion(GitModelError::Git(e)),
        }
    }
}

impl FromSpecImpl<GitSerdeError> for InitializeDerivationError {
    open spec fn obeys_from_spec() -> bool {
        true
    }

    open spec fn from_spec(value: GitSerdeError) -> Self {
        match value {
            GitSerdeError::Serde(e) => InitializeDerivationError::Serde(e),
            GitSerdeError::Io(e) => InitializeDerivationError::PathAssertion(GitModelError::Io(e)),
            GitSerdeError::Git(e) => InitializeDerivationError::PathAssertion(GitModelError::Git(e)),
        }
    }
}

/// Continuing a derivation failed: a path of the model, the JSON of the record, or no
/// derivation is in progress.
#[derive(Debug)]
pub enum ContinueDerivationError {
    PathAssertion(GitModelError),
    Serde(serde_json::Error),
    NoDerivationInProgress,
}

impl From<GitModelError> for ContinueDerivationError {
    fn from(value: GitModelError) -> (r: Self) {
        ContinueDerivationError::PathAssertion(value)
    }
}

impl FromSpecImpl<GitModelError> for ContinueDerivationError {
    open spec fn obeys_from_spec() -> bool {
        true
    }

    open spec fn from_spec(value: GitModelError) -> Self {
        ContinueDerivationError::PathAssertion(value)
    }
}

impl From<GitError> for ContinueDerivationError {
    fn from(value: GitError) -> (r: Self) {
        ContinueDerivationError::PathAssertion(model_error_of(value))
    }
}

impl FromSpecImpl<GitError> for ContinueDerivationError {
    open spec fn obeys_from_spec() -> bool {
        true
    }

    open spec fn from_spec(value: GitError) -> Self {
        ContinueDerivationError::PathAssertion(git_model_error(value))
    }
}

impl From<GitSerdeError> for ContinueDerivationError {
    fn from(value: GitSerdeError) -> (r: Self) {
        match value {
            GitSerdeError::Serde(e) => ContinueDerivationError::Serde(e),
            GitSerdeError::Io(e) => ContinueDerivationError::PathAssertion(GitModelError::Io(e)),
            GitSerdeError::Git(e) => ContinueDerivationError::PathAssertion(GitModelError::Git(e)),
        }
    }
}

impl FromSpecImpl<GitSerdeError> for ContinueDerivationError {
    open spec fn obeys_from_spec() -> bool {
        true
    }

    open spec fn from_spec(value: GitSerdeError) -> Self {
        match value {
            GitSerdeError::Serde(e) => ContinueDerivationError::Serde(e),
            GitSerdeError::Io(e) => ContinueDerivationError::PathAssertion(GitModelError::Io(e)),
            GitSerdeError::Git(e) => ContinueDerivationError::PathAssertion(GitModelError::Git(e)),
        }
    }
}

/// Aborting a derivation failed in git, or no derivation was in progress.
#[derive(Debug)]
pub enum AbortDerivationError {
    Git(GitError),
    NoDerivationInProgress,
}

impl From<GitError> for AbortDerivationError {
    fn from(value: GitError) -> (r: Self) {
        AbortDerivationError::Git(value)
    }
}

impl FromSpecImpl<GitError> for AbortDerivationError {
    open spec fn obeys_from_spec() -> bool {
        true
    }

    open spec fn from_spec(value: GitError) -> Self {
        AbortDerivationError::Git(value)
    }
}

/// Updating a product failed: a path of the model, the JSON of the record, or a derivation
/// is in progress.
#[derive(Debug)]
pub enum UpdateProductError {
    PathAssertion(GitModelError),
    Serde(serde_json::Error),
    DerivationInProgress,
}

impl From<InitializeDerivationError> for UpdateProductError {
    fn from(value: InitializeDerivationError) -> (r: Self) {
        match value {
            InitializeDerivationError::PathAssertion(e) => UpdateProductError::PathAssertion(e),
            InitializeDerivationError::Serde(e) => UpdateProductError::Serde(e),
            InitializeDerivationError::DerivationInProgress => UpdateProductError::DerivationInProgress,
        }
    }
}

impl FromSpecImpl<InitializeDerivationError> for UpdateProductError {
    open spec fn obeys_from_spec() -> bool {
        true
    }

    open spec fn from_spec(value: InitializeDerivationError) -> Self {
        match value {
            InitializeDerivationError::PathAssertion(e) => UpdateProductError::PathAssertion(e),
            InitializeDerivationError::Serde(e) => UpdateProductError::Serde(e),
            InitializeDerivationError::DerivationInProgress => UpdateProductError::DerivationInProgress,
        }
    }
}

impl From<GitModelError> for UpdateProductError {
    fn from(value: GitModelError) -> (r: Self) {
        UpdateProductError::PathAssertion(value)
    }
}

impl FromSpecImpl<GitModelError> for UpdateProductError {
    open spec fn obeys_from_spec() -> bool {
        true
    }

    open spec fn from_spec(value: GitModelError) -> Self {
        UpdateProductError::PathAssertion(value)
    }
}

/// Planning a merge order failed: a path of the model or the JSON of a record.
#[derive(Debug)]
pub enum OptimizeMergeOrderError {
    PathAssertion(GitModelError),
    Serde(serde_json::Error),
}

impl From<GitModelError> for OptimizeMergeOrderError {
    fn from(value: GitModelError) -> (r: Self) {
        OptimizeMergeOrderError::PathAssertion(value)
    }
}

impl FromSpecImpl<GitModelError> for OptimizeMergeOrderError {
    open spec fn obeys_from_spec() -> bool {
        true
    }

    open spec fn from_spec(value: GitModelError) -> Self {
        OptimizeMergeOrderError::PathAssertion(value)
    }
}

impl From<GitSerdeError> for OptimizeMergeOrderError {
    fn from(value: GitSerdeError) -> (r: Self) {
        match value {
            GitSerdeError::Serde(e) => OptimizeMergeOrderError::Serde(e),
            GitSerdeError::Io(e) => OptimizeMergeOrderError::PathAssertion(GitModelError::Io(e)),
            GitSerdeError::Git(e) => OptimizeMergeOrderError::PathAssertion(GitModelError::Git(e)),
        }
    }
}

impl FromSpecImpl<GitSerdeError> for OptimizeMergeOrderError {
    open spec fn obeys_from_spec() -> bool {
        true
    }

    open spec fn from_spec(value: GitSerdeError) -> Self {
        match value {
            GitSerdeError::Serde(e) => OptimizeMergeOrderError::Serde(e),
            GitSerdeError::Io(e) => OptimizeMergeOrderError::PathAssertion(GitModelError::Io(e)),
            GitSerdeError::Git(e) => OptimizeMergeOrderError::PathAssertion(GitModelError::Git(e)),
        }
    }
}

} // verus!
