//! Statements: the balance of an account with its latest transactions.

use crate::clock::Timestamp;
use crate::models::saldo::Saldo;
use crate::models::transacao::Transacao;
use crate::persistence::{PersistenceError, PersistenceResult};
use crate::statement::{
    latest_first, lemma_by_newest_of_ordered, lemma_ultimas_of_log, newest_first, oldest_first, ultimas,
    ultimas_transacoes, ULTIMAS,
};
use vstd::prelude::*;

verus! {

/// The statement of an account.
#[derive(Debug)]
pub struct Cliente {
    pub cliente_id: i32,
    pub saldo: Saldo,
    pub ultimas_transacoes: Option<Vec<Transacao>>,
}

impl Cliente {
    /// `self` is the statement of account `cliente_id` drawn at `data_extrato`
    /// from the balance `saldo` and the recorded transactions `rows`: it shows
    /// the balance as read, the instant it was drawn, and the newest ten
    /// transactions, the newest first.
    pub open spec fn shows(
        self,
        cliente_id: i32,
        saldo: Saldo,
        rows: Seq<Transacao>,
        data_extrato: Timestamp,
    ) -> bool {
        &&& self.cliente_id == cliente_id
        &&& self.saldo == Saldo {
            saldo_id: saldo.saldo_id,
            total: saldo.total,
            limite: saldo.limite,
            data_extrato,
        }
        &&& self.ultimas_transacoes matches Some(list) && list@ == ultimas(rows)
    }

    /// The statement lists exactly `list`.
    pub open spec fn lists(self, list: Seq<Transacao>) -> bool {
        self.ultimas_transacoes matches Some(listed) && listed@ == list
    }

    /// Draws the statement of an account from its balance and its recorded
    /// transactions.
    pub fn extrato(
        cliente_id: i32,
        saldo: Saldo,
        transacoes: Vec<Transacao>,
        data_extrato: Timestamp,
    ) -> (cliente: Cliente)
        ensures
            cliente.shows(cliente_id, saldo, transacoes@, data_extrato),
    {
        Cliente {
            cliente_id,
            saldo: Saldo {
                saldo_id: saldo.saldo_id,
                total: saldo.total,
                limite: saldo.limite,
                data_extrato,
            },
            ultimas_transacoes: Some(ultimas_transacoes(transacoes)),
        }
    }
}

/// What reading the statement of account `id` answers at `data_extrato`, given
/// the balance that was found for it, if any, and its recorded transactions.
pub open spec fn statement_answer(
    r: PersistenceResult<Option<Cliente>>,
    id: i32,
    saldo: Option<Saldo>,
    rows: Seq<Transacao>,
    data_extrato: Timestamp,
) -> bool {
    match saldo {
        Some(found) => r matches Ok(Some(cliente)) && cliente.shows(id, found, rows, data_extrato),
        None => r matches Err(PersistenceError::IdDoesNotExist),
    }
}

/// What a statement lists of rows that come in an order: of rows in the
/// order they were recorded, each newer than all before it, the last ten, the
/// last first; and ten rows or fewer with the newest first as they are.
pub open spec fn lists_in_order(rows: Seq<Transacao>, cliente: Cliente) -> bool {
    &&& oldest_first(rows) ==> cliente.lists(latest_first(rows))
    &&& newest_first(rows) && rows.len() <= ULTIMAS ==> cliente.lists(rows)
}

/// A statement follows the order of its rows.
pub proof fn lemma_statement_lists_in_order(
    cliente: Cliente,
    cliente_id: i32,
    saldo: Saldo,
    rows: Seq<Transacao>,
    data_extrato: Timestamp,
)
    requires
        cliente.shows(cliente_id, saldo, rows, data_extrato),
    ensures
        lists_in_order(rows, cliente),
{
    if oldest_first(rows) {
        lemma_ultimas_of_log(rows);
    }
    if newest_first(rows) {
        lemma_by_newest_of_ordered(rows);
    }
}

/// The statement of account `id` as of `data_extrato`: an account without a
/// balance does not exist.
pub fn statement_at(
    id: i32,
    saldo: Option<Saldo>,
    transacoes: Vec<Transacao>,
    data_extrato: Timestamp,
) -> (r: PersistenceResult<Option<Cliente>>)
    ensures
        statement_answer(r, id, saldo, transacoes@, data_extrato),
        r matches Ok(Some(cliente)) ==> lists_in_order(transacoes@, cliente),
{
    proof {
        if oldest_first(transacoes@) {
            lemma_ultimas_of_log(transacoes@);
        }
        if newest_first(transacoes@) {
            lemma_by_newest_of_ordered(transacoes@);
        }
    }
    match saldo {
        Some(found) => Ok(Some(Cliente::extrato(id, found, transacoes, data_extrato))),
        None => Err(PersistenceError::IdDoesNotExist),
    }
}

/// The statement of account `id` as of `data_extrato`, from what was read of
/// the store in one snapshot: the balance, if there is one, and the recorded
/// transactions. A read that failed fails the statement with its failure.
pub fn statement_of(
    id: i32,
    read: PersistenceResult<(Option<Saldo>, Vec<Transacao>)>,
    data_extrato: Timestamp,
) -> (r: PersistenceResult<Option<Cliente>>)
    ensures
        match read {
            Ok((saldo, rows)) => statement_answer(r, id, saldo, rows@, data_extrato),
            Err(error) => r == Err::<Option<Cliente>, PersistenceError>(error),
        },
        match (read, r) {
            (Ok((_, rows)), Ok(Some(cliente))) => lists_in_order(rows@, cliente),
            _ => true,
        },
{
    match read {
        Ok((saldo, rows)) => statement_at(id, saldo, rows, data_extrato),
        Err(error) => Err(error),
    }
}

} // verus!
