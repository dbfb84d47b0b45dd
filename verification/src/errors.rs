use vstd::prelude::*;

verus! {

/// The error kinds that the pool and the repositories surface to callers.
///
/// Transport-level failures propagate unchanged; repository-level
/// inconsistencies (orphaned index rows) are absorbed into "not found"
/// results instead of appearing here.
#[derive(Clone, Copy, Debug, PartialEq, Eq, Structural)]
pub enum RepoError {
    /// No session became available before the acquire timeout elapsed.
    PoolExhausted,
    /// Building a fresh session against the cluster failed; not retried
    /// internally. Also used for the startup-fatal absence of contact points.
    ConnectFailed,
    /// A leased session turned out to be unusable.
    SessionBroken,
    /// The candidate email does not match the accepted pattern.
    InvalidEmail,
    /// The email index already holds a row for this email.
    EmailExists,
    /// A write to the email index failed after the user row was written,
    /// leaving the user unreachable by email lookup.
    IndexWriteFailed,
    /// The addressed row does not exist.
    NotFound,
    /// The password did not verify against the stored hash, or no hash is set.
    InvalidCredentials,
    /// The hashing/auth collaborator failed.
    HashFailure,
    /// A statement execution timed out; retryable.
    ExecutionTimeout,
    /// The store rejected or lost a statement execution.
    StoreUnavailable,
}

impl RepoError {
    /// A short description for logs and user-visible messages; internal store
    /// detail is never exposed outward.
    pub fn message(&self) -> &'static str {
        match self {
            RepoError::PoolExhausted => "Pool exhausted",
            RepoError::ConnectFailed => "Failed to connect to the cluster",
            RepoError::SessionBroken => "Session is broken",
            RepoError::InvalidEmail => "Invalid email",
            RepoError::EmailExists => "Email already exists",
            RepoError::IndexWriteFailed => "Failed to write the email index",
            RepoError::NotFound => "User not found",
            RepoError::InvalidCredentials => "Invalid credentials",
            RepoError::HashFailure => "Failed to hash the password",
            RepoError::ExecutionTimeout => "Statement execution timed out",
            RepoError::StoreUnavailable => "Store unavailable",
        }
    }
}

} // verus!
