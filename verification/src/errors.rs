//! The user-facing error vocabulary of the repository.

use vstd::prelude::*;
use vstd::string::StringExecFns;

verus! {

/// Every failure an operation can surface to its caller.
///
/// `NotConnected`: no store handle was established at startup.
/// `InvalidId`: an identifier string does not parse into the store's id format.
/// `NotFound`: a well-formed identifier that matches no document.
/// `StoreError`: any underlying store fault, with its detail passed through.
#[derive(Debug)]
pub enum RepoError {
    NotConnected,
    InvalidId,
    NotFound,
    StoreError(String),
}

/// The display text of each error, at the specification level.
pub open spec fn spec_message(e: RepoError) -> Seq<char> {
    match e {
        RepoError::NotConnected => "database not connected"@,
        RepoError::InvalidId => "invalid note id"@,
        RepoError::NotFound => "note not found"@,
        RepoError::StoreError(d) => "store error: "@ + d@,
    }
}

impl RepoError {
    /// Descriptive text for display; failures are shown to the user as text,
    /// not handled structurally.
    pub fn message(&self) -> (m: String)
        ensures
            m@ == spec_message(*self),
    {
        match self {
            RepoError::NotConnected => "database not connected".to_owned(),
            RepoError::InvalidId => "invalid note id".to_owned(),
            RepoError::NotFound => "note not found".to_owned(),
            RepoError::StoreError(d) => {
                let mut m = "store error: ".to_owned();
                m.append(d.as_str());
                m
            },
        }
    }
}

impl PartialEq for RepoError {
    fn eq(&self, other: &RepoError) -> (r: bool) {
        match (self, other) {
            (RepoError::NotConnected, RepoError::NotConnected) => true,
            (RepoError::InvalidId, RepoError::InvalidId) => true,
            (RepoError::NotFound, RepoError::NotFound) => true,
            (RepoError::StoreError(a), RepoError::StoreError(b)) => *a == *b,
            _ => false,
        }
    }
}

impl vstd::std_specs::cmp::PartialEqSpecImpl for RepoError {
    open spec fn obeys_eq_spec() -> bool {
        true
    }

    open spec fn eq_spec(&self, other: &RepoError) -> bool {
        match (self, other) {
            (RepoError::NotConnected, RepoError::NotConnected) => true,
            (RepoError::InvalidId, RepoError::InvalidId) => true,
            (RepoError::NotFound, RepoError::NotFound) => true,
            (RepoError::StoreError(a), RepoError::StoreError(b)) => a@ == b@,
            _ => false,
        }
    }
}

} // verus!
