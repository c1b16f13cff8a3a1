//! What a client is answered: the status of each outcome, and what goes with it.

use crate::models::cliente::Cliente;
use crate::models::transacao::{NewTransacao, TransacaoResponse};
use crate::persistence::{PersistenceError, PersistenceResult};
use crate::validation::{id_of, validate_id, validate_post, Malformed, RawPost};
use vstd::prelude::*;

verus! {

/// The status of an answer.
#[derive(Clone, Copy, Debug, PartialEq, Eq, Structural)]
pub enum StatusCode {
    Success,
    NotFound,
    UnprocessableEntity,
    InternalServerError,
}

impl StatusCode {
    /// The number of the status.
    pub open spec fn code(self) -> u16 {
        match self {
            StatusCode::Success => 200,
            StatusCode::NotFound => 404,
            StatusCode::UnprocessableEntity => 422,
            StatusCode::InternalServerError => 500,
        }
    }

    /// The status under which an operation that failed is answered: want of
    /// funds is a request that cannot be processed, an unknown account is not
    /// found, and any failure of the store is the server's.
    pub open spec fn of(error: PersistenceError) -> StatusCode {
        match error {
            PersistenceError::NotEnoughFunds => StatusCode::UnprocessableEntity,
            PersistenceError::IdDoesNotExist => StatusCode::NotFound,
            PersistenceError::UniqueViolation => StatusCode::InternalServerError,
            PersistenceError::DatabaseError(_) => StatusCode::InternalServerError,
        }
    }

    /// The number of the status.
    pub fn as_u16(self) -> (code: u16)
        ensures
            code == self.code(),
    {
        match self {
            StatusCode::Success => 200,
            StatusCode::NotFound => 404,
            StatusCode::UnprocessableEntity => 422,
            StatusCode::InternalServerError => 500,
        }
    }

    /// The status under which a failed operation is answered.
    pub fn from_error(error: PersistenceError) -> (status: StatusCode)
        ensures
            status == StatusCode::of(error),
            status != StatusCode::Success,
    {
        match error {
            PersistenceError::NotEnoughFunds => StatusCode::UnprocessableEntity,
            PersistenceError::IdDoesNotExist => StatusCode::NotFound,
            PersistenceError::UniqueViolation => StatusCode::InternalServerError,
            PersistenceError::DatabaseError(_) => StatusCode::InternalServerError,
        }
    }

    /// The status under which a malformed request is answered.
    pub fn from_malformed(malformed: Malformed) -> (status: StatusCode)
        ensures
            status == StatusCode::UnprocessableEntity,
    {
        StatusCode::UnprocessableEntity
    }
}

/// Takes up a request for a transaction: the path must name an account and
/// the body must hold a well-formed transaction, or the request cannot be
/// processed.
pub fn admit_transacao(id: &str, body: RawPost) -> (r: Result<(i32, NewTransacao), StatusCode>)
    ensures
        match (id_of(id@), body.validated()) {
            (Some(cliente_id), Some(command)) => r matches Ok(admitted) && admitted.0 == cliente_id
                && admitted.1.command() == command && admitted.1.valid(),
            _ => r == Err::<(i32, NewTransacao), StatusCode>(StatusCode::UnprocessableEntity),
        },
{
    let cliente_id = match validate_id(id) {
        Ok(cliente_id) => cliente_id,
        Err(malformed) => {
            return Err(StatusCode::from_malformed(malformed));
        },
    };
    match validate_post(body) {
        Ok(transacao) => Ok((cliente_id, transacao)),
        Err(malformed) => Err(StatusCode::from_malformed(malformed)),
    }
}

/// Takes up a request for a statement: the path must name an account.
pub fn admit_extrato(id: &str) -> (r: Result<i32, StatusCode>)
    ensures
        match id_of(id@) {
            Some(cliente_id) => r == Ok::<i32, StatusCode>(cliente_id),
            None => r == Err::<i32, StatusCode>(StatusCode::UnprocessableEntity),
        },
{
    match validate_id(id) {
        Ok(cliente_id) => Ok(cliente_id),
        Err(malformed) => Err(StatusCode::from_malformed(malformed)),
    }
}

/// Answers a request for a transaction: the new balance where it was
/// applied, else the status of the failure.
pub fn create_transacao(result: PersistenceResult<TransacaoResponse>) -> (r: Result<
    TransacaoResponse,
    StatusCode,
>)
    ensures
        match result {
            Ok(response) => r == Ok::<TransacaoResponse, StatusCode>(response),
            Err(error) => r == Err::<TransacaoResponse, StatusCode>(StatusCode::of(error)),
        },
{
    match result {
        Ok(response) => Ok(response),
        Err(error) => Err(StatusCode::from_error(error)),
    }
}

/// Answers a request for a statement: the statement where there is one, not
/// found where the account is unknown, else the status of the failure.
pub fn get_cliente(result: PersistenceResult<Option<Cliente>>) -> (r: Result<Cliente, StatusCode>)
    ensures
        match result {
            Ok(Some(cliente)) => r == Ok::<Cliente, StatusCode>(cliente),
            Ok(None) => r == Err::<Cliente, StatusCode>(StatusCode::NotFound),
            Err(error) => r == Err::<Cliente, StatusCode>(StatusCode::of(error)),
        },
{
    match result {
        Ok(Some(cliente)) => Ok(cliente),
        Ok(None) => Err(StatusCode::NotFound),
        Err(error) => Err(StatusCode::from_error(error)),
    }
}

} // verus!
