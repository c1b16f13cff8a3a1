//! Balances, and what a transaction does to one.

use crate::clock::Timestamp;
use crate::models::transacao::{NewTransacao, TipoTransacao};
use crate::persistence::{Fault, PersistenceError, PersistenceResult};
use vstd::prelude::*;

verus! {

/// The balance of an account: what it holds and how far below zero it may go.
#[derive(Clone, Copy, Debug, PartialEq, Eq, Structural)]
pub struct Saldo {
    pub saldo_id: i32,
    pub total: i32,
    pub limite: i32,
    pub data_extrato: Timestamp,
}

/// The amounts a balance is opened with.
#[derive(Clone, Copy, Debug, PartialEq, Eq, Structural)]
pub struct NewSaldo {
    pub total: i32,
    pub limite: i32,
}

/// The total that a credit or a debit of `valor` leaves, before any check.
pub open spec fn moved(total: int, valor: int, tipo: TipoTransacao) -> int {
    match tipo {
        TipoTransacao::CREDITO => total + valor,
        TipoTransacao::DEBITO => total - valor,
        TipoTransacao::ERROR => total,
    }
}

impl Saldo {
    /// The balance honours its limit.
    pub open spec fn valid(self) -> bool {
        self.limite >= 0 && self.total >= -self.limite
    }

    /// What `transacao` does to this balance: the total it leaves, or why it
    /// is not applied. A transaction that is neither a credit nor a debit is
    /// refused, and so is a debit that would leave less than `-limite`; a
    /// total that does not fit the stored width is out of range.
    pub open spec fn movement(self, transacao: NewTransacao) -> PersistenceResult<i32> {
        let novo = moved(self.total as int, transacao.valor as int, transacao.tipo);
        if transacao.tipo == TipoTransacao::ERROR {
            Err(PersistenceError::NotEnoughFunds)
        } else if transacao.tipo == TipoTransacao::DEBITO && novo < -self.limite {
            Err(PersistenceError::NotEnoughFunds)
        } else if i32::MIN <= novo <= i32::MAX {
            Ok(novo as i32)
        } else {
            Err(PersistenceError::DatabaseError(Fault::OutOfRange))
        }
    }

    /// The total that `transacao` leaves, or why it cannot be applied. The
    /// sum is taken in 64 bits, so it never wraps.
    pub fn novo_total(&self, transacao: &NewTransacao) -> (r: PersistenceResult<i32>)
        ensures
            r == self.movement(*transacao),
            self.valid() && transacao.valor >= 0 && r is Ok ==> r->Ok_0 >= -self.limite,
    {
        let total: i64 = self.total as i64;
        let valor: i64 = transacao.valor as i64;
        let novo: i64 = match transacao.tipo {
            TipoTransacao::CREDITO => total + valor,
            TipoTransacao::DEBITO => {
                if total - valor < -(self.limite as i64) {
                    return Err(PersistenceError::NotEnoughFunds);
                }
                total - valor
            },
            TipoTransacao::ERROR => {
                return Err(PersistenceError::NotEnoughFunds);
            },
        };
        if novo < i32::MIN as i64 || novo > i32::MAX as i64 {
            Err(PersistenceError::DatabaseError(Fault::OutOfRange))
        } else {
            Ok(novo as i32)
        }
    }
}

} // verus!
