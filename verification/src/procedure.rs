//! A store that applies a transaction by one procedure of its own, and how
//! what the procedure hands back is read.

use crate::models::saldo::NewSaldo;
use crate::models::transacao::TransacaoResponse;
use crate::persistence::{PersistenceError, PersistenceResult};
use vstd::prelude::*;

verus! {

/// What the store's procedure handed back.
#[derive(Clone, Copy, Debug, PartialEq, Eq, Structural)]
pub enum ProcedureAnswer {
    /// No row came back.
    NoRow,
    /// A row came back and holds nothing.
    Null,
    /// A row came back and holds something other than a balance.
    Unreadable,
    /// A row came back with the balance that the transaction left.
    Balance(NewSaldo),
}

/// What the procedure's answer means: a balance is the balance after the
/// transaction; anything else in the row says that the funds did not suffice;
/// an empty row, or none, says that the account is unknown; and a failure of
/// the store stays what it is.
pub open spec fn procedure_result(answer: PersistenceResult<ProcedureAnswer>) -> PersistenceResult<
    TransacaoResponse,
> {
    match answer {
        Ok(ProcedureAnswer::Balance(saldo)) => Ok(
            TransacaoResponse { limite: saldo.limite, saldo: saldo.total },
        ),
        Ok(ProcedureAnswer::Unreadable) => Err(PersistenceError::NotEnoughFunds),
        Ok(ProcedureAnswer::Null) => Err(PersistenceError::IdDoesNotExist),
        Ok(ProcedureAnswer::NoRow) => Err(PersistenceError::IdDoesNotExist),
        Err(error) => Err(error),
    }
}

/// Reads what the store's procedure for a transaction handed back.
pub fn create_transacao_in_db(answer: PersistenceResult<ProcedureAnswer>) -> (r: PersistenceResult<
    TransacaoResponse,
>)
    ensures
        r == procedure_result(answer),
{
    match answer {
        Ok(ProcedureAnswer::Balance(saldo)) => Ok(
            TransacaoResponse { limite: saldo.limite, saldo: saldo.total },
        ),
        Ok(ProcedureAnswer::Unreadable) => Err(PersistenceError::NotEnoughFunds),
        Ok(ProcedureAnswer::Null) => Err(PersistenceError::IdDoesNotExist),
        Ok(ProcedureAnswer::NoRow) => Err(PersistenceError::IdDoesNotExist),
        Err(error) => Err(error),
    }
}

} // verus!
