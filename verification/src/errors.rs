use vstd::prelude::*;

verus! {

/// The error taxonomy surfaced to callers. `NotFound`, `Forbidden` and
/// `Conflict` map to the matching HTTP statuses; store and provider failures
/// carry a message and map to a generic server error; `ShitHappened` is the
/// catch-all for unexpected internal conditions.
#[derive(Clone, Debug, PartialEq, Eq)]
pub enum KubeCTFError {
    NotFound(String),
    Forbidden(String),
    Conflict(String),
    AlreadyExists(String),
    DatabaseError(String),
    RedisError(String),
    DeployError(String),
    InvalidToken(String),
    HashingError(String),
    ShitHappened(String),
}

impl KubeCTFError {
    /// The human-readable message carried by every variant.
    pub fn message(&self) -> (r: &String)
        ensures
            r@ == self.spec_message(),
    {
        match self {
            KubeCTFError::NotFound(m) => m,
            KubeCTFError::Forbidden(m) => m,
            KubeCTFError::Conflict(m) => m,
            KubeCTFError::AlreadyExists(m) => m,
            KubeCTFError::DatabaseError(m) => m,
            KubeCTFError::RedisError(m) => m,
            KubeCTFError::DeployError(m) => m,
            KubeCTFError::InvalidToken(m) => m,
            KubeCTFError::HashingError(m) => m,
            KubeCTFError::ShitHappened(m) => m,
        }
    }

    pub open spec fn spec_message(&self) -> Seq<char> {
        match self {
            KubeCTFError::NotFound(m) => m@,
            KubeCTFError::Forbidden(m) => m@,
            KubeCTFError::Conflict(m) => m@,
            KubeCTFError::AlreadyExists(m) => m@,
            KubeCTFError::DatabaseError(m) => m@,
            KubeCTFError::RedisError(m) => m@,
            KubeCTFError::DeployError(m) => m@,
            KubeCTFError::InvalidToken(m) => m@,
            KubeCTFError::HashingError(m) => m@,
            KubeCTFError::ShitHappened(m) => m@,
        }
    }
}

} // verus!
