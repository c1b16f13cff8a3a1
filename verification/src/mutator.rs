//! The course of one transaction against the store: what to ask of the store
//! next, given what it answered last.
//!
//! The store is asked to open a transaction that locks the balance, to read
//! the balance, to write the new total together with the record of the
//! transaction, and to commit. Whoever drives the course performs each
//! action, hands back what the store answered, and gives the client the
//! outcome once the course has ended.

use crate::clock::Timestamp;
use crate::models::saldo::Saldo;
use crate::models::transacao::{NewTransacao, TransacaoResponse};
use crate::persistence::{Fault, PersistenceError, PersistenceResult};
use vstd::prelude::*;

verus! {

/// How far the course of a transaction has come.
#[derive(Clone, Copy, Debug, PartialEq, Eq, Structural)]
pub enum Phase {
    /// Nothing was asked of the store yet.
    New,
    /// The store's transaction is open and holds the lock on the balance.
    LockHeld,
    /// The balance was read and takes the transaction.
    Validated { saldo_id: i32, limite: i32, novo_total: i32, realizada_em: Timestamp },
    /// The new total and the record are written, not yet committed.
    Written { limite: i32, total: i32 },
    /// The store committed: the transaction is applied.
    Committed(TransacaoResponse),
    /// The course ended without a change to the store.
    Aborted(PersistenceError),
}

/// What the store answered, or what befell the request meanwhile.
#[derive(Clone, Copy, Debug, PartialEq, Eq, Structural)]
pub enum Event {
    /// The transaction is open and the lock is held.
    Begun,
    /// The balance of the account, if there is one.
    BalanceRead(Option<Saldo>),
    /// The new total and the record were written.
    Stored,
    /// The commit went through.
    Confirmed,
    /// The store failed.
    Failed(PersistenceError),
    /// The request ran past its deadline.
    DeadlineExceeded,
    /// The client gave the request up.
    Cancelled,
}

/// What to ask of the store next.
#[derive(Debug)]
pub enum Action {
    /// Open a transaction that locks the balance of this account.
    Begin { cliente_id: i32 },
    /// Read the locked balance of this account.
    ReadBalance { cliente_id: i32 },
    /// Set the balance to `novo_total` and record the transaction.
    Store {
        cliente_id: i32,
        saldo_id: i32,
        novo_total: i32,
        transacao: NewTransacao,
        realizada_em: Timestamp,
    },
    /// Commit the open transaction.
    Commit,
    /// Roll the open transaction back.
    Rollback,
    /// Nothing: the course has ended.
    Finish,
}

/// One transaction on its course.
#[derive(Debug)]
pub struct Mutation {
    pub cliente_id: i32,
    pub transacao: NewTransacao,
    pub phase: Phase,
}

impl Action {
    /// How many more actions a course can ask for after this one, at most.
    pub open spec fn remaining(self) -> nat {
        match self {
            Action::Begin { .. } => 5,
            Action::ReadBalance { .. } => 4,
            Action::Store { .. } => 3,
            Action::Commit => 2,
            Action::Rollback => 1,
            Action::Finish => 0,
        }
    }

    /// Whether nothing is left to ask of the store.
    pub fn is_finish(&self) -> (r: bool)
        ensures
            r == (self is Finish),
    {
        match self {
            Action::Finish => true,
            _ => false,
        }
    }
}

impl Clone for Action {
    fn clone(&self) -> (copy: Action)
        ensures
            copy == *self,
    {
        match self {
            Action::Begin { cliente_id } => Action::Begin { cliente_id: *cliente_id },
            Action::ReadBalance { cliente_id } => Action::ReadBalance { cliente_id: *cliente_id },
            Action::Store { cliente_id, saldo_id, novo_total, transacao, realizada_em } => Action::Store {
                cliente_id: *cliente_id,
                saldo_id: *saldo_id,
                novo_total: *novo_total,
                transacao: transacao.clone(),
                realizada_em: *realizada_em,
            },
            Action::Commit => Action::Commit,
            Action::Rollback => Action::Rollback,
            Action::Finish => Action::Finish,
        }
    }
}

impl Phase {
    /// The course has ended.
    pub open spec fn terminal(self) -> bool {
        self is Committed || self is Aborted
    }

    /// The store's transaction is open.
    pub open spec fn holds_lock(self) -> bool {
        self is LockHeld || self is Validated || self is Written
    }
}

impl Mutation {
    /// The course of `transacao` on account `cliente_id` before anything was
    /// asked of the store.
    pub open spec fn started(cliente_id: i32, transacao: NewTransacao) -> Mutation {
        Mutation { cliente_id, transacao, phase: Phase::New }
    }

    /// The same transaction in another phase.
    pub open spec fn at(self, phase: Phase) -> Mutation {
        Mutation { cliente_id: self.cliente_id, transacao: self.transacao, phase }
    }

    /// The course ends with `error`; an open transaction is rolled back.
    pub open spec fn abort(self, error: PersistenceError) -> (Mutation, Action) {
        (
            self.at(Phase::Aborted(error)),
            if self.phase.holds_lock() {
                Action::Rollback
            } else {
                Action::Finish
            },
        )
    }

    /// Where the course stands after `event`, met at the instant `now`, and
    /// what to ask of the store next.
    ///
    /// A course that has ended stays as it is, so giving up a request that
    /// was committed undoes nothing. A failure of the store ends the course
    /// with that failure, a passed deadline with `Deadline`, a request given
    /// up with `Cancelled`, an answer that was not asked for with
    /// `Protocol`. Otherwise the phases follow one another: once the lock is
    /// held the balance is read; an account without a balance does not exist;
    /// a balance that takes the transaction is written with the record made
    /// at `now`; what is written is committed; and only the commit applies
    /// the transaction.
    pub open spec fn next(self, event: Event, now: Timestamp) -> (Mutation, Action) {
        if self.phase.terminal() {
            (self, Action::Finish)
        } else {
            match (self.phase, event) {
                (_, Event::Failed(error)) => self.abort(error),
                (_, Event::DeadlineExceeded) => self.abort(PersistenceError::DatabaseError(Fault::Deadline)),
                (_, Event::Cancelled) => self.abort(PersistenceError::DatabaseError(Fault::Cancelled)),
                (Phase::New, Event::Begun) => (
                    self.at(Phase::LockHeld),
                    Action::ReadBalance { cliente_id: self.cliente_id },
                ),
                (Phase::LockHeld, Event::BalanceRead(None)) => self.abort(PersistenceError::IdDoesNotExist),
                (Phase::LockHeld, Event::BalanceRead(Some(saldo))) => match saldo.movement(self.transacao) {
                    Ok(novo_total) => (
                        self.at(
                            Phase::Validated {
                                saldo_id: saldo.saldo_id,
                                limite: saldo.limite,
                                novo_total,
                                realizada_em: now,
                            },
                        ),
                        Action::Store {
                            cliente_id: self.cliente_id,
                            saldo_id: saldo.saldo_id,
                            novo_total,
                            transacao: self.transacao,
                            realizada_em: now,
                        },
                    ),
                    Err(error) => self.abort(error),
                },
                (Phase::Validated { limite, novo_total, .. }, Event::Stored) => (
                    self.at(Phase::Written { limite, total: novo_total }),
                    Action::Commit,
                ),
                (Phase::Written { limite, total }, Event::Confirmed) => (
                    self.at(Phase::Committed(TransacaoResponse { limite, saldo: total })),
                    Action::Finish,
                ),
                _ => self.abort(PersistenceError::DatabaseError(Fault::Protocol)),
            }
        }
    }

    /// What the client is told: nothing while the course runs, then the new
    /// balance or why the transaction was not applied.
    pub open spec fn result(self) -> Option<PersistenceResult<TransacaoResponse>> {
        match self.phase {
            Phase::Committed(response) => Some(Ok(response)),
            Phase::Aborted(error) => Some(Err(error)),
            _ => None,
        }
    }

    /// Starts the course of `transacao` on account `cliente_id`: the first
    /// thing to ask of the store is to open a transaction that locks the
    /// balance of that account.
    pub fn new(cliente_id: i32, transacao: NewTransacao) -> (start: (Mutation, Action))
        ensures
            start.0 == Mutation::started(cliente_id, transacao),
            start.1 == (Action::Begin { cliente_id }),
    {
        (Mutation { cliente_id, transacao, phase: Phase::New }, Action::Begin { cliente_id })
    }

    /// Ends the course with `error` and asks for a rollback where the
    /// store's transaction is open.
    fn end(&mut self, error: PersistenceError) -> (action: Action)
        ensures
            (*final(self), action) == old(self).abort(error),
    {
        let open = match self.phase {
            Phase::LockHeld => true,
            Phase::Validated { .. } => true,
            Phase::Written { .. } => true,
            _ => false,
        };
        self.phase = Phase::Aborted(error);
        if open {
            Action::Rollback
        } else {
            Action::Finish
        }
    }

    /// Takes `event`, met at `now`, and says what to ask of the store next.
    pub fn step(&mut self, event: Event, now: Timestamp) -> (action: Action)
        ensures
            (*final(self), action) == old(self).next(event, now),
    {
        match self.phase {
            Phase::Committed(_) => {
                return Action::Finish;
            },
            Phase::Aborted(_) => {
                return Action::Finish;
            },
            _ => {},
        }
        match event {
            Event::Failed(error) => {
                return self.end(error);
            },
            Event::DeadlineExceeded => {
                return self.end(PersistenceError::DatabaseError(Fault::Deadline));
            },
            Event::Cancelled => {
                return self.end(PersistenceError::DatabaseError(Fault::Cancelled));
            },
            _ => {},
        }
        match (self.phase, event) {
            (Phase::New, Event::Begun) => {
                self.phase = Phase::LockHeld;
                Action::ReadBalance { cliente_id: self.cliente_id }
            },
            (Phase::LockHeld, Event::BalanceRead(None)) => self.end(PersistenceError::IdDoesNotExist),
            (Phase::LockHeld, Event::BalanceRead(Some(saldo))) => match saldo.novo_total(&self.transacao) {
                Ok(novo_total) => {
                    self.phase = Phase::Validated {
                        saldo_id: saldo.saldo_id,
                        limite: saldo.limite,
                        novo_total,
                        realizada_em: now,
                    };
                    Action::Store {
                        cliente_id: self.cliente_id,
                        saldo_id: saldo.saldo_id,
                        novo_total,
                        transacao: self.transacao.clone(),
                        realizada_em: now,
                    }
                },
                Err(error) => self.end(error),
            },
            (Phase::Validated { limite, novo_total, .. }, Event::Stored) => {
                self.phase = Phase::Written { limite, total: novo_total };
                Action::Commit
            },
            (Phase::Written { limite, total }, Event::Confirmed) => {
                self.phase = Phase::Committed(TransacaoResponse { limite, saldo: total });
                Action::Finish
            },
            _ => self.end(PersistenceError::DatabaseError(Fault::Protocol)),
        }
    }

    /// What to tell the client, once the course has ended.
    pub fn outcome(&self) -> (r: Option<PersistenceResult<TransacaoResponse>>)
        ensures
            r == self.result(),
            r is Some <==> self.phase.terminal(),
    {
        match self.phase {
            Phase::Committed(response) => Some(Ok(response)),
            Phase::Aborted(error) => Some(Err(error)),
            _ => None,
        }
    }
}

/// An event with the instant at which it was met.
pub struct Met {
    pub event: Event,
    pub at: Timestamp,
}

impl Mutation {
    /// Where the course stands after the events of `met`, one after the other.
    pub open spec fn run(self, met: Seq<Met>) -> Mutation
        decreases met.len(),
    {
        if met.len() == 0 {
            self
        } else {
            self.run(met.drop_last()).next(met.last().event, met.last().at).0
        }
    }
}

/// A course keeps its account and its transaction, and once it has ended no
/// event changes it or asks anything of the store.
pub proof fn lemma_next_keeps_request(m: Mutation, event: Event, now: Timestamp)
    ensures
        m.next(event, now).0.cliente_id == m.cliente_id,
        m.next(event, now).0.transacao == m.transacao,
        m.phase.terminal() ==> m.next(event, now) == (m, Action::Finish),
{
}

/// The store is told to roll back exactly where a course ends while its
/// transaction is open, and to commit exactly where what was validated has
/// been written.
pub proof fn lemma_rollback_and_commit(m: Mutation, event: Event, now: Timestamp)
    ensures
        m.next(event, now).1 is Rollback <==> m.phase.holds_lock() && m.next(event, now).0.phase is Aborted,
        m.next(event, now).1 is Commit <==> m.phase is Validated && event is Stored,
        m.next(event, now).1 is Store ==> m.phase is LockHeld,
        m.phase.holds_lock() && m.next(event, now).0.phase.terminal() ==> m.next(event, now).1 is Rollback
            || (m.phase is Written && event is Confirmed),
{
}

/// What a phase tells of the events that led to it. A course from the start
/// stands in a phase only after the answers that the phase is named for, in
/// their order; in particular a transaction counts as applied only after the
/// store held the lock, gave a balance that takes the transaction, wrote, and
/// confirmed the commit.
pub proof fn lemma_run_shape(cliente_id: i32, transacao: NewTransacao, met: Seq<Met>)
    ensures
        ({
            let m = Mutation::started(cliente_id, transacao).run(met);
            &&& m.cliente_id == cliente_id
            &&& m.transacao == transacao
            &&& m.phase is New ==> met.len() == 0
            &&& m.phase is LockHeld ==> met.len() == 1 && met[0].event is Begun
            &&& m.phase matches Phase::Validated { saldo_id, limite, novo_total, realizada_em } ==> {
                &&& met.len() == 2
                &&& met[0].event is Begun
                &&& met[1].event matches Event::BalanceRead(Some(saldo))
                &&& saldo.saldo_id == saldo_id
                &&& saldo.limite == limite
                &&& saldo.movement(transacao) == Ok::<i32, PersistenceError>(novo_total)
                &&& realizada_em == met[1].at
            }
            &&& m.phase matches Phase::Written { limite, total } ==> {
                &&& met.len() == 3
                &&& met[0].event is Begun
                &&& met[1].event matches Event::BalanceRead(Some(saldo))
                &&& saldo.limite == limite
                &&& saldo.movement(transacao) == Ok::<i32, PersistenceError>(total)
                &&& met[2].event is Stored
            }
            &&& m.phase matches Phase::Committed(response) ==> {
                &&& met.len() >= 4
                &&& met[0].event is Begun
                &&& met[1].event matches Event::BalanceRead(Some(saldo))
                &&& saldo.limite == response.limite
                &&& saldo.movement(transacao) == Ok::<i32, PersistenceError>(response.saldo)
                &&& met[2].event is Stored
                &&& met[3].event is Confirmed
            }
        }),
    decreases met.len(),
{
    if met.len() > 0 {
        let earlier = met.drop_last();
        lemma_run_shape(cliente_id, transacao, earlier);
        let before = Mutation::started(cliente_id, transacao).run(earlier);
        assert forall|i: int| 0 <= i < earlier.len() implies earlier[i] == met[i] by {}
        if earlier.len() > 0 {
            assert(earlier[0] == met[0]);
        }
        if earlier.len() > 1 {
            assert(earlier[1] == met[1]);
        }
        if earlier.len() > 2 {
            assert(earlier[2] == met[2]);
        }
        if earlier.len() > 3 {
            assert(earlier[3] == met[3]);
        }
    }
}

/// Against a store that does what it is asked, the course of a transaction
/// ends as the account's balance decides: with the lock held, the balance
/// `saldo` read at `now`, the write done and the commit confirmed, a
/// transaction that the balance takes is applied with the total it leaves; one
/// that it does not take ends the course when the balance is read, with the
/// balance's reason and a rollback; and an account without a balance ends it
/// as unknown.
pub proof fn lemma_faithful_store(cliente_id: i32, transacao: NewTransacao, saldo: Saldo, now: Timestamp)
    ensures
        ({
            let start = Mutation::started(cliente_id, transacao);
            let locked = start.next(Event::Begun, now);
            let read = locked.0.next(Event::BalanceRead(Some(saldo)), now);
            let written = read.0.next(Event::Stored, now);
            let ended = written.0.next(Event::Confirmed, now);
            let missing = locked.0.next(Event::BalanceRead(None), now);
            &&& locked.1 == Action::ReadBalance { cliente_id }
            &&& missing.0.result() == Some(
                Err::<TransacaoResponse, PersistenceError>(PersistenceError::IdDoesNotExist),
            )
            &&& missing.1 is Rollback
            &&& match saldo.movement(transacao) {
                Ok(novo_total) => {
                    &&& read.1 == Action::Store {
                        cliente_id,
                        saldo_id: saldo.saldo_id,
                        novo_total,
                        transacao,
                        realizada_em: now,
                    }
                    &&& written.1 is Commit
                    &&& written.0.result() is None
                    &&& ended.1 is Finish
                    &&& ended.0.result() == Some(
                        Ok::<TransacaoResponse, PersistenceError>(
                            TransacaoResponse { limite: saldo.limite, saldo: novo_total },
                        ),
                    )
                },
                Err(error) => {
                    &&& read.1 is Rollback
                    &&& read.0.result() == Some(Err::<TransacaoResponse, PersistenceError>(error))
                },
            }
        }),
{
}

} // verus!
