//! The kinds of failure that the gateway tells apart.

use vstd::prelude::*;

verus! {

/// The kind of a failure.
#[derive(Debug, Clone, Copy, PartialEq, Eq, Structural)]
pub enum ErrorKind {
    /// The caller's input is malformed: a bad cursor, a bad page size, a
    /// request that lacks a part.
    InvalidInput,
    /// The caller is not allowed to do what was asked.
    Unauthorized,
    /// The blob store, the tag index or the registry failed.
    BackendError,
    /// A required setting is absent.
    ConfigurationError,
}

impl ErrorKind {
    /// The HTTP status with which a failure of this kind is answered.
    pub fn status(&self) -> (code: u16)
        ensures
            code == match *self {
                ErrorKind::InvalidInput => 400u16,
                ErrorKind::Unauthorized => 401u16,
                ErrorKind::BackendError => 500u16,
                ErrorKind::ConfigurationError => 500u16,
            },
    {
        match self {
            ErrorKind::InvalidInput => 400,
            ErrorKind::Unauthorized => 401,
            ErrorKind::BackendError => 500,
            ErrorKind::ConfigurationError => 500,
        }
    }
}

} // verus!
