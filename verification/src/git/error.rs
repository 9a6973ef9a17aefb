//! Errors of the git layer and the conversions between them.

use crate::model::error::{ModelError, PathNotFoundError, WrongNodeTypeError};
use vstd::prelude::*;
use vstd::std_specs::convert::FromSpecImpl;

verus! {

/// An I/O error of the standard library, carried through unchanged.
#[verifier::external_type_specification]
#[verifier::external_body]
pub struct ExIoError(std::io::Error);

/// A JSON error of `serde_json`, carried through unchanged.
#[verifier::external_type_specification]
#[verifier::external_body]
pub struct ExJsonError(serde_json::Error);

/// A git command failed; the message is what it wrote to standard error.
#[derive(Debug)]
pub struct GitCommandError {
    msg: String,
}

impl GitCommandError {
    /// An error with the given message.
    pub fn new(msg: String) -> (e: GitCommandError)
        ensures
            e.message_spec() == msg@,
    {
        GitCommandError { msg }
    }

    /// The message.
    pub closed spec fn message_spec(&self) -> Seq<char> {
        self.msg@
    }

    /// The message.
    pub fn message(&self) -> (s: String)
        ensures
            s@ == self.message_spec(),
    {
        self.msg.clone()
    }
}

/// A version that cannot be used.
#[derive(Debug)]
pub struct InvalidVersionError {
    msg: String,
}

impl InvalidVersionError {
    /// Builds the error as a failed git command with the given message.
    pub fn new(msg: String) -> (e: GitCommandError)
        ensures
            e.message_spec() == msg@,
    {
        GitCommandError::new(msg)
    }

    /// The message.
    pub closed spec fn message_spec(&self) -> Seq<char> {
        self.msg@
    }

    /// The message.
    pub fn message(&self) -> (s: String)
        ensures
            s@ == self.message_spec(),
    {
        self.msg.clone()
    }
}

/// An error of running git: I/O or a failed command.
#[derive(Debug)]
pub enum GitError {
    Io(std::io::Error),
    Git(GitCommandError),
}

/// A git error or a node of the wrong kind.
#[derive(Debug)]
pub enum GitWrongNodeTypeError {
    Io(std::io::Error),
    Git(GitCommandError),
    WrongNodeType(WrongNodeTypeError),
}

/// A git error or a tree model error.
#[derive(Debug)]
pub enum GitModelError {
    Io(std::io::Error),
    Git(GitCommandError),
    WrongNodeType(WrongNodeTypeError),
    PathNotFound(PathNotFoundError),
}

/// A git error or a JSON error.
#[derive(Debug)]
pub enum GitSerdeError {
    Io(std::io::Error),
    Git(GitCommandError),
    Serde(serde_json::Error),
}

/// A path that cannot be used: git error, missing node, wrong kind or invalid version.
#[derive(Debug)]
pub enum InvalidPathError {
    Io(std::io::Error),
    Git(GitCommandError),
    PathNotFound(PathNotFoundError),
    WrongNodeType(WrongNodeTypeError),
    InvalidVersion(InvalidVersionError),
}

impl From<std::io::Error> for GitError {
    fn from(err: std::io::Error) -> (r: Self) {
        GitError::Io(err)
    }
}

impl FromSpecImpl<std::io::Error> for GitError {
    open spec fn obeys_from_spec() -> bool {
        true
    }

    open spec fn from_spec(err: std::io::Error) -> Self {
        GitError::Io(err)
    }
}

impl From<GitCommandError> for GitError {
    fn from(err: GitCommandError) -> (r: Self) {
        GitError::Git(err)
    }
}

impl FromSpecImpl<GitCommandError> for GitError {
    open spec fn obeys_from_spec() -> bool {
        true
    }

    open spec fn from_spec(err: GitCommandError) -> Self {
        GitError::Git(err)
    }
}

impl From<GitCommandError> for GitWrongNodeTypeError {
    fn from(err: GitCommandError) -> (r: Self) {
        GitWrongNodeTypeError::Git(err)
    }
}

impl FromSpecImpl<GitCommandError> for GitWrongNodeTypeError {
    open spec fn obeys_from_spec() -> bool {
        true
    }

    open spec fn from_spec(err: GitCommandError) -> Self {
        GitWrongNodeTypeError::Git(err)
    }
}

impl From<WrongNodeTypeError> for GitWrongNodeTypeError {
    fn from(err: WrongNodeTypeError) -> (r: Self) {
        GitWrongNodeTypeError::WrongNodeType(err)
    }
}

impl FromSpecImpl<WrongNodeTypeError> for GitWrongNodeTypeError {
    open spec fn obeys_from_spec() -> bool {
        true
    }

    open spec fn from_spec(err: WrongNodeTypeError) -> Self {
        GitWrongNodeTypeError::WrongNodeType(err)
    }
}

impl From<std::io::Error> for GitWrongNodeTypeError {
    fn from(err: std::io::Error) -> (r: Self) {
        GitWrongNodeTypeError::Io(err)
    }
}

impl FromSpecImpl<std::io::Error> for GitWrongNodeTypeError {
    open spec fn obeys_from_spec() -> bool {
        true
    }

    open spec fn from_spec(err: std::io::Error) -> Self {
        GitWrongNodeTypeError::Io(err)
    }
}

impl From<GitError> for GitWrongNodeTypeError {
    fn from(err: GitError) -> (r: Self) {
        match err {
            GitError::Io(e) => GitWrongNodeTypeError::Io(e),
            GitError::Git(e) => GitWrongNodeTypeError::Git(e),
        }
    }
}

impl FromSpecImpl<GitError> for GitWrongNodeTypeError {
    open spec fn obeys_from_spec() -> bool {
        true
    }

    open spec fn from_spec(err: GitError) -> Self {
        match err {
            GitError::Io(e) => GitWrongNodeTypeError::Io(e),
            GitError::Git(e) => GitWrongNodeTypeError::Git(e),
        }
    }
}

impl From<GitCommandError> for GitModelError {
    fn from(err: GitCommandError) -> (r: Self) {
        GitModelError::Git(err)
    }
}

impl FromSpecImpl<GitCommandError> for GitModelError {
    open spec fn obeys_from_spec() -> bool {
        true
    }

    open spec fn from_spec(err: GitCommandError) -> Self {
        GitModelError::Git(err)
    }
}

impl From<WrongNodeTypeError> for GitModelError {
    fn from(err: WrongNodeTypeError) -> (r: Self) {
        GitModelError::WrongNodeType(err)
    }
}

impl FromSpecImpl<WrongNodeTypeError> for GitModelError {
    open spec fn obeys_from_spec() -> bool {
        true
    }

    open spec fn from_spec(err: WrongNodeTypeError) -> Self {
        GitModelError::WrongNodeType(err)
    }
}

impl From<PathNotFoundError> for GitModelError {
    fn from(err: PathNotFoundError) -> (r: Self) {
        GitModelError::PathNotFound(err)
    }
}

impl FromSpecImpl<PathNotFoundError> for GitModelError {
    open spec fn obeys_from_spec() -> bool {
        true
    }

    open spec fn from_spec(err: PathNotFoundError) -> Self {
        GitModelError::PathNotFound(err)
    }
}

impl From<ModelError> for GitModelError {
    fn from(err: ModelError) -> (r: Self) {
        match err {
            ModelError::PathNotFound(e) => GitModelError::PathNotFound(e),
            ModelError::WrongNodeType(e) => GitModelError::WrongNodeType(e),
        }
    }
}

impl FromSpecImpl<ModelError> for GitModelError {
    open spec fn obeys_from_spec() -> bool {
        true
    }

    open spec fn from_spec(err: ModelError) -> Self {
        match err {
            ModelError::PathNotFound(e) => GitModelError::PathNotFound(e),
            ModelError::WrongNodeType(e) => GitModelError::WrongNodeType(e),
        }
    }
}

impl From<std::io::Error> for GitModelError {
    fn from(err: std::io::Error) -> (r: Self) {
        GitModelError::Io(err)
    }
}

impl FromSpecImpl<std::io::Error> for GitModelError {
    open spec fn obeys_from_spec() -> bool {
        true
    }

    open spec fn from_spec(err: std::io::Error) -> Self {
        GitModelError::Io(err)
    }
}

impl From<GitError> for GitModelError {
    fn from(err: GitError) -> (r: Self) {
        match err {
            GitError::Io(e) => GitModelError::Io(e),
            GitError::Git(e) => GitModelError::Git(e),
        }
    }
}

impl FromSpecImpl<GitError> for GitModelError {
    open spec fn obeys_from_spec() -> bool {
        true
    }

    open spec fn from_spec(err: GitError) -> Self {
        match err {
            GitError::Io(e) => GitModelError::Io(e),
            GitError::Git(e) => GitModelError::Git(e),
        }
    }
}

impl From<GitCommandError> for GitSerdeError {
    fn from(err: GitCommandError) -> (r: Self) {
        GitSerdeError::Git(err)
    }
}

impl FromSpecImpl<GitCommandError> for GitSerdeError {
    open spec fn obeys_from_spec() -> bool {
        true
    }

    open spec fn from_spec(err: GitCommandError) -> Self {
        GitSerdeError::Git(err)
    }
}

impl From<serde_json::Error> for GitSerdeError {
    fn from(err: serde_json::Error) -> (r: Self) {
        GitSerdeError::Serde(err)
    }
}

impl FromSpecImpl<serde_json::Error> for GitSerdeError {
    open spec fn obeys_from_spec() -> bool {
        true
    }

    open spec fn from_spec(err: serde_json::Error) -> Self {
        GitSerdeError::Serde(err)
    }
}

impl From<std::io::Error> for GitSerdeError {
    fn from(err: std::io::Error) -> (r: Self) {
        GitSerdeError::Io(err)
    }
}

impl FromSpecImpl<std::io::Error> for GitSerdeError {
    open spec fn obeys_from_spec() -> bool {
        true
    }

    open spec fn from_spec(err: std::io::Error) -> Self {
        GitSerdeError::Io(err)
    }
}

impl From<GitError> for GitSerdeError {
    fn from(err: GitError) -> (r: Self) {
        match err {
            GitError::Io(e) => GitSerdeError::Io(e),
            GitError::Git(e) => GitSerdeError::Git(e),
        }
    }
}

impl FromSpecImpl<GitError> for GitSerdeError {
    open spec fn obeys_from_spec() -> bool {
        true
    }

    open spec fn from_spec(err: GitError) -> Self {
        match err {
            GitError::Io(e) => GitSerdeError::Io(e),
            GitError::Git(e) => GitSerdeError::Git(e),
        }
    }
}

impl From<GitError> for InvalidPathError {
    fn from(err: GitError) -> (r: Self) {
        match err {
            GitError::Io(e) => InvalidPathError::Io(e),
            GitError::Git(e) => InvalidPathError::Git(e),
        }
    }
}

impl FromSpecImpl<GitError> for InvalidPathError {
    open spec fn obeys_from_spec() -> bool {
        true
    }

    open spec fn from_spec(err: GitError) -> Self {
        match err {
            GitError::Io(e) => InvalidPathError::Io(e),
            GitError::Git(e) => InvalidPathError::Git(e),
        }
    }
}

impl From<ModelError> for InvalidPathError {
    fn from(err: ModelError) -> (r: Self) {
        match err {
            ModelError::PathNotFound(e) => InvalidPathError::PathNotFound(e),
            ModelError::WrongNodeType(e) => InvalidPathError::WrongNodeType(e),
        }
    }
}

impl FromSpecImpl<ModelError> for InvalidPathError {
    open spec fn obeys_from_spec() -> bool {
        true
    }

    open spec fn from_spec(err: ModelError) -> Self {
        match err {
            ModelError::PathNotFound(e) => InvalidPathError::PathNotFound(e),
            ModelError::WrongNodeType(e) => InvalidPathError::WrongNodeType(e),
        }
    }
}

impl From<InvalidVersionError> for InvalidPathError {
    fn from(err: InvalidVersionError) -> (r: Self) {
        InvalidPathError::InvalidVersion(err)
    }
}

impl FromSpecImpl<InvalidVersionError> for InvalidPathError {
    open spec fn obeys_from_spec() -> bool {
        true
    }

    open spec fn from_spec(err: InvalidVersionError) -> Self {
        InvalidPathError::InvalidVersion(err)
    }
}

} // verus!
