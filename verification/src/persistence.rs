//! The outcomes a repository operation can fail with, and how the failures
//! that a database driver reports are sorted into them.

use vstd::prelude::*;

verus! {

/// What went wrong where the store could not serve a request.
#[derive(Clone, Copy, Debug, PartialEq, Eq, Structural)]
pub enum Fault {
    /// The driver reported a failure.
    Driver,
    /// An amount to be stored does not fit the stored width.
    OutOfRange,
    /// The request ran past its deadline.
    Deadline,
    /// The client gave the request up.
    Cancelled,
    /// The store answered what was not asked of it.
    Protocol,
    /// The store holds what cannot be read as a record.
    Unreadable,
}

/// What a driver failure amounts to for the ledger.
#[derive(Clone, Copy, Debug, PartialEq, Eq, Structural)]
pub enum StoreFailure {
    /// A unique or primary-key constraint refused the write.
    UniqueViolation,
    /// A query that needed a row found none.
    RowNotFound,
    /// Anything else.
    Other,
}

/// Why a repository operation did not succeed.
#[derive(Clone, Copy, Debug, PartialEq, Eq, Structural)]
pub enum PersistenceError {
    /// What was to be written is there already.
    UniqueViolation,
    /// The debit would take the total below what the limit allows.
    NotEnoughFunds,
    /// There is no account of that number.
    IdDoesNotExist,
    /// The store could not serve the request; asking again may succeed.
    DatabaseError(Fault),
}

/// What a repository operation gives.
pub type PersistenceResult<T> = Result<T, PersistenceError>;

impl PersistenceError {
    /// The error that a driver failure is reported as.
    pub open spec fn of_failure(failure: StoreFailure) -> PersistenceError {
        match failure {
            StoreFailure::UniqueViolation => PersistenceError::UniqueViolation,
            StoreFailure::RowNotFound => PersistenceError::IdDoesNotExist,
            StoreFailure::Other => PersistenceError::DatabaseError(Fault::Driver),
        }
    }

    /// Reports a driver failure: a unique violation as such, a missing row as
    /// an unknown id, anything else as a database error.
    pub fn from_failure(failure: StoreFailure) -> (e: PersistenceError)
        ensures
            e == Self::of_failure(failure),
    {
        match failure {
            StoreFailure::UniqueViolation => PersistenceError::UniqueViolation,
            StoreFailure::RowNotFound => PersistenceError::IdDoesNotExist,
            StoreFailure::Other => PersistenceError::DatabaseError(Fault::Driver),
        }
    }
}

/// What a request comes to that may have run past its deadline: the answer
/// it got in time, or that the deadline has passed.
pub open spec fn answered_in_time<T>(answer: Option<PersistenceResult<T>>) -> PersistenceResult<T> {
    match answer {
        Some(r) => r,
        None => Err(PersistenceError::DatabaseError(Fault::Deadline)),
    }
}

/// Takes the answer that came in time, if one did.
pub fn in_time<T>(answer: Option<PersistenceResult<T>>) -> (r: PersistenceResult<T>)
    ensures
        r == answered_in_time(answer),
{
    match answer {
        Some(r) => r,
        None => Err(PersistenceError::DatabaseError(Fault::Deadline)),
    }
}

} // verus!
