//! Errors of the tree model.

use vstd::prelude::*;

verus! {

/// A path names a node of another kind than the one asked for.
#[derive(Debug)]
pub struct WrongNodeTypeError {
    msg: String,
}

impl WrongNodeTypeError {
    /// An error with the given message.
    pub fn new(msg: String) -> (e: Self)
        ensures
            e.message_spec() == msg@,
    {
        Self { msg }
    }

    /// The message.
    pub closed spec fn message_spec(&self) -> Seq<char> {
        self.msg@
    }

    /// The message.
    pub fn message(&self) -> (s: String)
        ensures
            s@ == self.message_spec(),
    {
        self.msg.clone()
    }
}

/// A path names no node of the tree.
#[derive(Debug)]
pub struct PathNotFoundError {
    msg: String,
}

impl PathNotFoundError {
    /// An error with the given message.
    pub fn new(msg: String) -> (e: Self)
        ensures
            e.message_spec() == msg@,
    {
        Self { msg }
    }

    /// The message.
    pub closed spec fn message_spec(&self) -> Seq<char> {
        self.msg@
    }

    /// The message.
    pub fn message(&self) -> (s: String)
        ensures
            s@ == self.message_spec(),
    {
        self.msg.clone()
    }
}

/// An error of the tree model.
#[derive(Debug)]
pub enum ModelError {
    WrongNodeType(WrongNodeTypeError),
    PathNotFound(PathNotFoundError),
}

impl ModelError {
    /// The message of the error inside.
    pub open spec fn message_spec(&self) -> Seq<char> {
        match self {
            ModelError::WrongNodeType(e) => e.message_spec(),
            ModelError::PathNotFound(e) => e.message_spec(),
        }
    }

    /// The message of the error inside.
    pub fn message(&self) -> (s: String)
        ensures
            s@ == self.message_spec(),
    {
        match self {
            ModelError::WrongNodeType(e) => e.message(),
            ModelError::PathNotFound(e) => e.message(),
        }
    }
}

impl From<WrongNodeTypeError> for ModelError {
    fn from(err: WrongNodeTypeError) -> (r: Self) {
        ModelError::WrongNodeType(err)
    }
}

impl vstd::std_specs::convert::FromSpecImpl<WrongNodeTypeError> for ModelError {
    open spec fn obeys_from_spec() -> bool {
        true
    }

    open spec fn from_spec(err: WrongNodeTypeError) -> Self {
        ModelError::WrongNodeType(err)
    }
}

impl From<PathNotFoundError> for ModelError {
    fn from(err: PathNotFoundError) -> (r: Self) {
        ModelError::PathNotFound(err)
    }
}

impl vstd::std_specs::convert::FromSpecImpl<PathNotFoundError> for ModelError {
    open spec fn obeys_from_spec() -> bool {
        true
    }

    open spec fn from_spec(err: PathNotFoundError) -> Self {
        ModelError::PathNotFound(err)
    }
}

} // verus!
