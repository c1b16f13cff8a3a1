//! A repository that keeps its accounts in memory. It serves the same
//! requests as one backed by a database, performs what the course of a
//! transaction asks of a store, and shows what that course amounts to.

use crate::clock::Timestamp;
use crate::ledger::{
    chronological, lemma_apply, lemma_apply_chronological, lemma_statement_follows_log, not_before_any,
    Conta, ContaView,
};
use crate::models::cliente::Cliente;
use crate::models::saldo::{NewSaldo, Saldo};
use crate::models::transacao::{NewTransacao, Transacao, TransacaoResponse};
use crate::mutator::{Action, Event, Mutation, Phase};
use crate::persistence::{Fault, PersistenceError, PersistenceResult};
use crate::statement::{latest_first, lemma_ultimas_of_log, ultimas, ultimas_transacoes};
use vstd::prelude::*;

verus! {

/// What an open transaction has written and not yet committed.
#[derive(Debug)]
pub struct Staged {
    pub cliente_id: i32,
    pub novo_total: i32,
    pub transacao: NewTransacao,
    pub realizada_em: Timestamp,
}

/// Accounts kept in memory, with at most one transaction open.
#[derive(Debug)]
pub struct MemoryRepository {
    contas: Vec<Conta>,
    open: bool,
    staged: Option<Staged>,
}

/// A repository as a value: its accounts in the order they were opened,
/// whether a transaction is open, and what that transaction has written.
pub struct RepositoryView {
    pub contas: Seq<ContaView>,
    pub open: bool,
    pub staged: Option<Staged>,
}

impl View for MemoryRepository {
    type V = RepositoryView;

    closed spec fn view(&self) -> RepositoryView {
        RepositoryView {
            contas: Seq::new(self.contas@.len(), |i: int| self.contas@[i]@),
            open: self.open,
            staged: self.staged,
        }
    }
}

impl RepositoryView {
    /// No two accounts have one number.
    pub open spec fn distinct(self) -> bool {
        forall|i: int, j: int|
            0 <= i < j < self.contas.len() ==> (#[trigger] self.contas[i]).cliente_id != (
            #[trigger] self.contas[j]).cliente_id
    }

    /// In every account the transactions are numbered as they were recorded.
    pub open spec fn numbered(self) -> bool {
        forall|i: int| 0 <= i < self.contas.len() ==> (#[trigger] self.contas[i]).numbered()
    }

    /// The log of every account is in the order of the commits: numbered as
    /// recorded, with no instant going back.
    pub open spec fn in_order(self) -> bool {
        forall|i: int| 0 <= i < self.contas.len() ==> (#[trigger] self.contas[i]).in_order()
    }

    /// There is an account numbered `id`.
    pub open spec fn has(self, id: i32) -> bool {
        exists|i: int| 0 <= i < self.contas.len() && (#[trigger] self.contas[i]).cliente_id == id
    }

    /// Where the account numbered `id` stands among the accounts.
    pub open spec fn index_of(self, id: i32) -> int {
        choose|i: int| 0 <= i < self.contas.len() && (#[trigger] self.contas[i]).cliente_id == id
    }

    /// The account numbered `id`.
    pub open spec fn conta(self, id: i32) -> ContaView
        recommends
            self.has(id),
    {
        self.contas[self.index_of(id)]
    }

    /// The repository with `conta` in the place of the account numbered `id`.
    pub open spec fn with(self, id: i32, conta: ContaView) -> RepositoryView {
        RepositoryView {
            contas: self.contas.update(self.index_of(id), conta),
            open: self.open,
            staged: self.staged,
        }
    }

    /// The repository with no transaction open.
    pub open spec fn closed(self) -> RepositoryView {
        RepositoryView { contas: self.contas, open: false, staged: None }
    }

    /// The repository after `action` was performed, and what it answered.
    ///
    /// Opening a transaction drops what an earlier one left. Reading and
    /// writing need an open transaction; a write is held back until the
    /// commit, which sets the total and records the transaction in one step,
    /// and an account whose numbers are used up takes no write. A rollback
    /// drops what was held back. Only a commit changes an account.
    pub open spec fn performed(self, action: Action) -> (RepositoryView, Option<Event>) {
        match action {
            Action::Begin { .. } => (
                RepositoryView { contas: self.contas, open: true, staged: None },
                Some(Event::Begun),
            ),
            Action::ReadBalance { cliente_id } => match self.locked_saldo_of(cliente_id) {
                Ok(saldo) => (self, Some(Event::BalanceRead(saldo))),
                Err(error) => (self, Some(Event::Failed(error))),
            },
            Action::Store { cliente_id, saldo_id, novo_total, transacao, realizada_em } => if !self.open {
                (self, Some(Event::Failed(PersistenceError::DatabaseError(Fault::Protocol))))
            } else if !self.has(cliente_id) {
                (self, Some(Event::Failed(PersistenceError::IdDoesNotExist)))
            } else if !self.conta(cliente_id).has_room() {
                (self, Some(Event::Failed(PersistenceError::DatabaseError(Fault::OutOfRange))))
            } else {
                (
                    RepositoryView {
                        contas: self.contas,
                        open: true,
                        staged: Some(Staged { cliente_id, novo_total, transacao, realizada_em }),
                    },
                    Some(Event::Stored),
                )
            },
            Action::Commit => if !self.open {
                (self.closed(), Some(Event::Failed(PersistenceError::DatabaseError(Fault::Protocol))))
            } else {
                match self.staged {
                    Some(staged) => if !self.has(staged.cliente_id) {
                        (self.closed(), Some(Event::Failed(PersistenceError::IdDoesNotExist)))
                    } else if !self.conta(staged.cliente_id).has_room() {
                        (
                            self.closed(),
                            Some(Event::Failed(PersistenceError::DatabaseError(Fault::OutOfRange))),
                        )
                    } else {
                        (
                            self.with(
                                staged.cliente_id,
                                self.conta(staged.cliente_id).stored(
                                    staged.novo_total,
                                    staged.transacao,
                                    staged.realizada_em,
                                ),
                            ).closed(),
                            Some(Event::Confirmed),
                        )
                    },
                    None => (self.closed(), Some(Event::Confirmed)),
                }
            },
            Action::Rollback => (self.closed(), None),
            Action::Finish => (self, None),
        }
    }

    /// The balance of account `id`, if there is such an account.
    pub open spec fn saldo_of(self, id: i32) -> Option<Saldo> {
        if self.has(id) {
            Some(self.conta(id).saldo)
        } else {
            None
        }
    }

    /// The balance of account `id` as an open transaction reads it; without
    /// an open transaction nothing is read.
    pub open spec fn locked_saldo_of(self, id: i32) -> PersistenceResult<Option<Saldo>> {
        if self.open {
            Ok(self.saldo_of(id))
        } else {
            Err(PersistenceError::DatabaseError(Fault::Protocol))
        }
    }

    /// The transactions recorded for account `id`; none where there is no
    /// such account.
    pub open spec fn transacoes_of(self, id: i32) -> Seq<Transacao> {
        if self.has(id) {
            self.conta(id).transacoes
        } else {
            Seq::empty()
        }
    }

    /// The number that the next account is opened under: one more than the
    /// highest in use, and one at the least.
    pub open spec fn next_number(self) -> int {
        highest_number(self.contas) + 1
    }

    /// What opening an account numbered `cliente_id` answers: the number of
    /// its balance, which counts the accounts; that there is one of that
    /// number already; or that the numbers of balances are used up.
    pub open spec fn opening(self, cliente_id: i32) -> PersistenceResult<i32> {
        if self.has(cliente_id) {
            Err(PersistenceError::UniqueViolation)
        } else if self.contas.len() >= i32::MAX {
            Err(PersistenceError::DatabaseError(Fault::OutOfRange))
        } else {
            Ok((self.contas.len() + 1) as i32)
        }
    }

    /// The repository after an account numbered `cliente_id` was to be opened
    /// with `new_saldo`: where it is opened it comes last, with nothing
    /// recorded; where it is not, nothing changes.
    pub open spec fn opened(self, new_saldo: NewSaldo, cliente_id: i32) -> RepositoryView {
        match self.opening(cliente_id) {
            Ok(saldo_id) => RepositoryView {
                contas: self.contas.push(
                    ContaView {
                        cliente_id,
                        saldo: Saldo {
                            saldo_id,
                            total: new_saldo.total,
                            limite: new_saldo.limite,
                            data_extrato: Timestamp { secs: 0, nanos: 0 },
                        },
                        transacoes: Seq::empty(),
                    },
                ),
                open: self.open,
                staged: self.staged,
            },
            Err(_) => self,
        }
    }

    /// The repository after `transacao` was asked of account `id` at
    /// `realizada_em`: that account changes as an account does, and no other.
    pub open spec fn applied(self, id: i32, transacao: NewTransacao, realizada_em: Timestamp) -> RepositoryView {
        if self.has(id) {
            self.with(id, self.conta(id).apply(transacao, realizada_em)).closed()
        } else {
            self.closed()
        }
    }

    /// What asking `transacao` of account `id` answers: what the account
    /// answers, or that there is no such account.
    pub open spec fn answer(self, id: i32, transacao: NewTransacao) -> PersistenceResult<TransacaoResponse> {
        if self.has(id) {
            self.conta(id).answer(transacao)
        } else {
            Err(PersistenceError::IdDoesNotExist)
        }
    }
}

/// The highest number among `contas`, and zero at the least.
pub open spec fn highest_number(contas: Seq<ContaView>) -> int
    decreases contas.len(),
{
    if contas.len() == 0 {
        0
    } else if contas.last().cliente_id > highest_number(contas.drop_last()) {
        contas.last().cliente_id as int
    } else {
        highest_number(contas.drop_last())
    }
}

/// No account has a number above the highest.
pub proof fn lemma_highest_number(contas: Seq<ContaView>, at: int)
    requires
        0 <= at < contas.len(),
    ensures
        contas[at].cliente_id <= highest_number(contas),
        0 <= highest_number(contas) <= i32::MAX,
    decreases contas.len(),
{
    if at < contas.len() - 1 {
        lemma_highest_number(contas.drop_last(), at);
    } else if contas.len() > 1 {
        lemma_highest_number(contas.drop_last(), 0);
    } else {
        assert(highest_number(contas.drop_last()) == 0);
    }
}

/// The next number is free: no account has it yet.
pub proof fn lemma_next_number_free(repository: RepositoryView)
    requires
        repository.next_number() <= i32::MAX,
    ensures
        !repository.has(repository.next_number() as i32),
        repository.next_number() >= 1,
{
    assert forall|i: int| 0 <= i < repository.contas.len() implies (#[trigger] repository.contas[i]).cliente_id
        != repository.next_number() by {
        lemma_highest_number(repository.contas, i);
    }
    if repository.contas.len() > 0 {
        lemma_highest_number(repository.contas, 0);
    }
}

/// Among accounts with distinct numbers, the account numbered `id` is the one
/// found with that number.
pub proof fn lemma_index_of(repository: RepositoryView, id: i32, at: int)
    requires
        repository.distinct(),
        0 <= at < repository.contas.len(),
        repository.contas[at].cliente_id == id,
    ensures
        repository.has(id),
        repository.index_of(id) == at,
        repository.conta(id) == repository.contas[at],
{
    let chosen = repository.index_of(id);
    assert(repository.contas[chosen].cliente_id == id);
    if chosen < at {
        assert(repository.contas[chosen].cliente_id != repository.contas[at].cliente_id);
    } else if at < chosen {
        assert(repository.contas[at].cliente_id != repository.contas[chosen].cliente_id);
    }
}

/// A transaction touches its account and no other: asking it keeps the
/// numbers of all accounts, changes the account it is asked of as an account
/// changes, and leaves every other account as it was.
pub proof fn lemma_applied(
    repository: RepositoryView,
    id: i32,
    transacao: NewTransacao,
    realizada_em: Timestamp,
    other: i32,
)
    requires
        repository.distinct(),
    ensures
        ({
            let after = repository.applied(id, transacao, realizada_em);
            &&& after.distinct()
            &&& after.contas.len() == repository.contas.len()
            &&& after.has(other) == repository.has(other)
            &&& repository.has(id) ==> after.conta(id) == repository.conta(id).apply(transacao, realizada_em)
            &&& repository.has(other) && other != id ==> after.conta(other) == repository.conta(other)
        }),
{
    let after = repository.applied(id, transacao, realizada_em);
    if repository.has(id) {
        let at = repository.index_of(id);
        crate::ledger::lemma_apply(repository.conta(id), transacao, realizada_em);
        assert forall|i: int| 0 <= i < after.contas.len() implies (#[trigger] after.contas[i]).cliente_id
            == repository.contas[i].cliente_id by {}
        assert forall|i: int, j: int| 0 <= i < j < after.contas.len() implies (
        #[trigger] after.contas[i]).cliente_id != (#[trigger] after.contas[j]).cliente_id by {
            assert(repository.contas[i].cliente_id != repository.contas[j].cliente_id);
        }
        lemma_index_of(after, id, at);
        if repository.has(other) {
            let there = repository.index_of(other);
            assert(after.contas[there].cliente_id == other);
            lemma_index_of(after, other, there);
        }
        if after.has(other) {
            let there = after.index_of(other);
            assert(repository.contas[there].cliente_id == other);
        }
    }
}

/// Opening an account adds it and touches no other: where the account is
/// opened it is found under its number with the balance it was opened with,
/// and every account that was there is as it was.
pub proof fn lemma_opened(repository: RepositoryView, new_saldo: NewSaldo, cliente_id: i32, other: i32)
    requires
        repository.distinct(),
    ensures
        ({
            let after = repository.opened(new_saldo, cliente_id);
            &&& after.distinct()
            &&& repository.has(other) ==> after.has(other) && after.conta(other) == repository.conta(other)
            &&& repository.opening(cliente_id) is Ok ==> {
                &&& after.has(cliente_id)
                &&& after.conta(cliente_id).saldo.total == new_saldo.total
                &&& after.conta(cliente_id).saldo.limite == new_saldo.limite
                &&& after.conta(cliente_id).transacoes.len() == 0
            }
            &&& after.has(other) ==> repository.has(other) || (other == cliente_id && repository.opening(
                cliente_id,
            ) is Ok)
        }),
{
    let after = repository.opened(new_saldo, cliente_id);
    if repository.opening(cliente_id) is Ok {
        let last = repository.contas.len() as int;
        assert forall|i: int, j: int| 0 <= i < j < after.contas.len() implies (
        #[trigger] after.contas[i]).cliente_id != (#[trigger] after.contas[j]).cliente_id by {
            if j == last {
                assert(repository.contas[i].cliente_id != cliente_id);
            } else {
                assert(repository.contas[i].cliente_id != repository.contas[j].cliente_id);
            }
        }
        lemma_index_of(after, cliente_id, last);
        if repository.has(other) {
            let there = repository.index_of(other);
            assert(after.contas[there] == repository.contas[there]);
            lemma_index_of(after, other, there);
        }
        if after.has(other) {
            let there = after.index_of(other);
            if there < last {
                assert(repository.contas[there].cliente_id == other);
            }
        }
    }
}

/// Performing an action keeps the accounts numbered apart and their
/// transactions numbered as they were recorded.
pub proof fn lemma_performed_keeps_numbers(repository: RepositoryView, action: Action)
    requires
        repository.distinct(),
        repository.numbered(),
    ensures
        repository.performed(action).0.distinct(),
        repository.performed(action).0.numbered(),
{
    let after = repository.performed(action).0;
    if after.contas != repository.contas {
        let staged = repository.staged->Some_0;
        let at = repository.index_of(staged.cliente_id);
        assert(repository.contas[at].numbered());
        assert forall|i: int| 0 <= i < after.contas.len() implies (#[trigger] after.contas[i]).numbered()
            && after.contas[i].cliente_id == repository.contas[i].cliente_id by {
            assert(repository.contas[i].numbered());
        }
        assert forall|i: int, j: int| 0 <= i < j < after.contas.len() implies (
        #[trigger] after.contas[i]).cliente_id != (#[trigger] after.contas[j]).cliente_id by {
            assert(repository.contas[i].cliente_id != repository.contas[j].cliente_id);
        }
    }
}

/// A transaction keeps the logs in order: asked of a repository whose
/// accounts are numbered apart, it leaves the transactions of every account
/// numbered as they were recorded; and asked at an instant that is before
/// nothing recorded for its account, it leaves every log in the order of the
/// commits.
pub proof fn lemma_applied_keeps_order(
    repository: RepositoryView,
    id: i32,
    transacao: NewTransacao,
    realizada_em: Timestamp,
)
    requires
        repository.distinct(),
    ensures
        ({
            let after = repository.applied(id, transacao, realizada_em);
            &&& after.distinct()
            &&& repository.numbered() ==> after.numbered()
            &&& repository.in_order() && not_before_any(realizada_em, repository.transacoes_of(id))
                ==> after.in_order()
        }),
{
    let after = repository.applied(id, transacao, realizada_em);
    lemma_applied(repository, id, transacao, realizada_em, id);
    if repository.has(id) {
        let at = repository.index_of(id);
        lemma_apply(repository.contas[at], transacao, realizada_em);
        if repository.numbered() {
            assert forall|i: int| 0 <= i < after.contas.len() implies (#[trigger] after.contas[i]).numbered() by {
                assert(repository.contas[i].numbered());
            }
        }
        if repository.in_order() && not_before_any(realizada_em, repository.transacoes_of(id)) {
            assert(repository.contas[at].in_order());
            lemma_apply_chronological(repository.contas[at], transacao, realizada_em);
            assert forall|i: int| 0 <= i < after.contas.len() implies (#[trigger] after.contas[i]).in_order() by {
                assert(repository.contas[i].in_order());
            }
        }
    } else {
        if repository.numbered() {
            assert forall|i: int| 0 <= i < after.contas.len() implies (#[trigger] after.contas[i]).numbered() by {
                assert(repository.contas[i].numbered());
            }
        }
        if repository.in_order() {
            assert forall|i: int| 0 <= i < after.contas.len() implies (#[trigger] after.contas[i]).in_order() by {
                assert(repository.contas[i].in_order());
            }
        }
    }
}

impl MemoryRepository {
    /// The repository is well formed: no two of its accounts have one
    /// number, and in every account the transactions are numbered as they
    /// were recorded.
    pub open spec fn wf(&self) -> bool {
        self@.distinct() && self@.numbered()
    }

    /// A repository without accounts.
    pub fn new() -> (repository: MemoryRepository)
        ensures
            repository.wf(),
            repository@.in_order(),
            repository@.contas.len() == 0,
            !repository@.open,
            repository@.staged is None,
    {
        MemoryRepository { contas: Vec::new(), open: false, staged: None }
    }

    /// Where the account numbered `id` stands, if there is one.
    fn find(&self, id: i32) -> (found: Option<usize>)
        requires
            self.wf(),
        ensures
            match found {
                Some(at) => at < self@.contas.len() && self@.has(id) && self@.index_of(id) == at
                    && self.contas@[at as int]@ == self@.conta(id),
                None => !self@.has(id),
            },
    {
        let mut at: usize = 0;
        while at < self.contas.len()
            invariant
                at <= self.contas@.len(),
                self@.distinct(),
                self@.contas.len() == self.contas@.len(),
                forall|i: int| 0 <= i < at ==> (#[trigger] self@.contas[i]).cliente_id != id,
            decreases self.contas@.len() - at,
        {
            if self.contas[at].cliente_id == id {
                proof {
                    assert(self@.contas[at as int] == self.contas@[at as int]@);
                    lemma_index_of(self@, id, at as int);
                }
                return Some(at);
            }
            assert(self@.contas[at as int] == self.contas@[at as int]@);
            at += 1;
        }
        None
    }

    /// Performs what the course of a transaction asks of a store and says
    /// what came of it; a rollback and the end of a course are not answered.
    pub fn perform(&mut self, action: Action) -> (event: Option<Event>)
        requires
            old(self).wf(),
        ensures
            final(self).wf(),
            (final(self)@, event) == old(self)@.performed(action),
    {
        proof {
            lemma_performed_keeps_numbers(old(self)@, action);
        }
        match action {
            Action::Begin { .. } => {
                self.open = true;
                self.staged = None;
                assert(self@.contas =~= old(self)@.contas);
                Some(Event::Begun)
            },
            Action::ReadBalance { cliente_id } => match self.find_saldo_by_cliente_id_with_lock(cliente_id) {
                Ok(saldo) => Some(Event::BalanceRead(saldo)),
                Err(error) => Some(Event::Failed(error)),
            },
            Action::Store { cliente_id, saldo_id, novo_total, transacao, realizada_em } => {
                if !self.open {
                    return Some(Event::Failed(PersistenceError::DatabaseError(Fault::Protocol)));
                }
                let at = match self.find(cliente_id) {
                    Some(at) => at,
                    None => {
                        return Some(Event::Failed(PersistenceError::IdDoesNotExist));
                    },
                };
                if self.contas[at].transacoes.len() >= i32::MAX as usize {
                    return Some(Event::Failed(PersistenceError::DatabaseError(Fault::OutOfRange)));
                }
                self.staged = Some(Staged { cliente_id, novo_total, transacao, realizada_em });
                assert(self@.contas =~= old(self)@.contas);
                Some(Event::Stored)
            },
            Action::Commit => {
                let was_open = self.open;
                let staged = self.staged.take();
                self.open = false;
                assert(self@.contas =~= old(self)@.contas);
                if !was_open {
                    return Some(Event::Failed(PersistenceError::DatabaseError(Fault::Protocol)));
                }
                let staged = match staged {
                    Some(staged) => staged,
                    None => {
                        return Some(Event::Confirmed);
                    },
                };
                let at = match self.find(staged.cliente_id) {
                    Some(at) => at,
                    None => {
                        return Some(Event::Failed(PersistenceError::IdDoesNotExist));
                    },
                };
                let stored = self.contas[at].store(staged.novo_total, staged.transacao, staged.realizada_em);
                proof {
                    let before = old(self)@;
                    if before.conta(staged.cliente_id).has_room() {
                        assert(self@.contas =~= before.contas.update(
                            at as int,
                            before.conta(staged.cliente_id).stored(
                                staged.novo_total,
                                staged.transacao,
                                staged.realizada_em,
                            ),
                        ));
                    } else {
                        assert(self@.contas =~= before.contas);
                    }
                }
                match stored {
                    Ok(()) => Some(Event::Confirmed),
                    Err(error) => Some(Event::Failed(error)),
                }
            },
            Action::Rollback => {
                self.open = false;
                self.staged = None;
                assert(self@.contas =~= old(self)@.contas);
                None
            },
            Action::Finish => None,
        }
    }

    /// Asks `new_transacao` of account `id` at `realizada_em`, by the course
    /// that a transaction takes against a store: the repository performs what
    /// the course asks, one action after the other, until the course has
    /// ended. The account changes as an account does when the transaction is
    /// asked of it, no other account changes, and the answer is the
    /// account's.
    pub fn create_transacao(&mut self, new_transacao: NewTransacao, id: i32, realizada_em: Timestamp) -> (r:
        PersistenceResult<TransacaoResponse>)
        requires
            old(self).wf(),
        ensures
            final(self).wf(),
            final(self)@ == old(self)@.applied(id, new_transacao, realizada_em),
            r == old(self)@.answer(id, new_transacao),
            old(self)@.in_order() && not_before_any(realizada_em, old(self)@.transacoes_of(id))
                ==> final(self)@.in_order(),
    {
        proof {
            lemma_applied_keeps_order(old(self)@, id, new_transacao, realizada_em);
        }
        let ghost start = self@;
        let (mut mutation, mut action) = Mutation::new(id, new_transacao);
        while !action.is_finish()
            invariant
                self.wf(),
                on_course(start, id, new_transacao, realizada_em, mutation, action, self@),
            decreases action.remaining(),
        {
            let ghost before = self@;
            let ghost asked = action;
            match self.perform(action) {
                Some(event) => {
                    action = mutation.step(event, realizada_em);
                },
                None => {
                    action = Action::Finish;
                },
            }
            proof {
                if asked is Commit {
                    let conta = start.conta(id);
                    let total = conta.saldo.movement(new_transacao)->Ok_0;
                    assert(before.performed(asked).0 == before.with(
                        id,
                        conta.stored(total, new_transacao, realizada_em),
                    ).closed());
                    assert(self@.contas =~= start.applied(id, new_transacao, realizada_em).contas);
                }
                if asked is Rollback && start.has(id) {
                    assert(start.contas.update(start.index_of(id), start.conta(id)) =~= start.contas);
                }
            }
        }
        mutation.outcome().unwrap()
    }

    /// Asks `new_transacao` of account `id` at `realizada_em` in one step, as a
    /// store does that applies a transaction by a procedure of its own. It
    /// comes to what the course of a transaction comes to.
    pub fn create_transacao_in_db(&mut self, new_transacao: NewTransacao, id: i32, realizada_em: Timestamp) -> (r:
        PersistenceResult<TransacaoResponse>)
        requires
            old(self).wf(),
        ensures
            final(self).wf(),
            final(self)@ == old(self)@.applied(id, new_transacao, realizada_em),
            r == old(self)@.answer(id, new_transacao),
            old(self)@.in_order() && not_before_any(realizada_em, old(self)@.transacoes_of(id))
                ==> final(self)@.in_order(),
    {
        proof {
            lemma_applied_keeps_order(old(self)@, id, new_transacao, realizada_em);
        }
        self.open = false;
        self.staged = None;
        assert(self@.contas =~= old(self)@.contas);
        let at = match self.find(id) {
            Some(at) => at,
            None => {
                return Err(PersistenceError::IdDoesNotExist);
            },
        };
        let r = self.contas[at].create_transacao(new_transacao, realizada_em);
        assert(self@.contas =~= old(self)@.contas.update(
            at as int,
            old(self)@.conta(id).apply(new_transacao, realizada_em),
        ));
        r
    }

    /// Opens an account numbered `cliente_id` with the balance `new_saldo`
    /// and gives the number of the balance. An account has one balance: where
    /// there is an account of that number already, nothing changes.
    pub fn create_saldo(&mut self, new_saldo: &NewSaldo, cliente_id: i32) -> (r: PersistenceResult<i32>)
        requires
            old(self).wf(),
        ensures
            final(self).wf(),
            r == old(self)@.opening(cliente_id),
            final(self)@ == old(self)@.opened(*new_saldo, cliente_id),
            old(self)@.in_order() ==> final(self)@.in_order(),
    {
        match self.find(cliente_id) {
            Some(_) => {
                return Err(PersistenceError::UniqueViolation);
            },
            None => {},
        }
        if self.contas.len() >= i32::MAX as usize {
            return Err(PersistenceError::DatabaseError(Fault::OutOfRange));
        }
        let saldo_id = (self.contas.len() + 1) as i32;
        let conta = Conta::new(cliente_id, saldo_id, *new_saldo, Timestamp { secs: 0, nanos: 0 });
        self.contas.push(conta);
        proof {
            let before = old(self)@;
            assert(self@.contas =~= before.contas.push(conta@));
            assert forall|i: int, j: int| 0 <= i < j < self@.contas.len() implies (
            #[trigger] self@.contas[i]).cliente_id != (#[trigger] self@.contas[j]).cliente_id by {
                if j == before.contas.len() {
                    assert(before.contas[i].cliente_id != cliente_id);
                } else {
                    assert(before.contas[i].cliente_id != before.contas[j].cliente_id);
                }
            }
            assert forall|i: int| 0 <= i < self@.contas.len() implies (#[trigger] self@.contas[i]).numbered() by {
                if i < before.contas.len() {
                    assert(before.contas[i].numbered());
                }
            }
            if before.in_order() {
                assert forall|i: int| 0 <= i < self@.contas.len() implies (#[trigger] self@.contas[i]).in_order() by {
                    if i < before.contas.len() {
                        assert(before.contas[i].in_order());
                    }
                }
            }
        }
        Ok(saldo_id)
    }

    /// Opens an account under the next number, with nothing in it and the
    /// limit `limite`, and gives the number of its balance.
    pub fn create_cliente(&mut self, limite: i32) -> (r: PersistenceResult<i32>)
        requires
            old(self).wf(),
        ensures
            final(self).wf(),
            old(self)@.next_number() <= i32::MAX ==> {
                &&& r == old(self)@.opening(old(self)@.next_number() as i32)
                &&& final(self)@ == old(self)@.opened(
                    NewSaldo { total: 0, limite },
                    old(self)@.next_number() as i32,
                )
            },
            old(self)@.next_number() > i32::MAX ==> {
                &&& r == Err::<i32, PersistenceError>(PersistenceError::DatabaseError(Fault::OutOfRange))
                &&& final(self)@ == old(self)@
            },
            !(r matches Err(PersistenceError::UniqueViolation)),
            old(self)@.in_order() ==> final(self)@.in_order(),
    {
        proof {
            if self@.next_number() <= i32::MAX {
                lemma_next_number_free(self@);
            }
        }
        let mut highest: i32 = 0;
        let mut at: usize = 0;
        assert(self@.contas.take(0) =~= Seq::empty());
        while at < self.contas.len()
            invariant
                at <= self.contas@.len(),
                self@.contas.len() == self.contas@.len(),
                highest == highest_number(self@.contas.take(at as int)),
            decreases self.contas@.len() - at,
        {
            let number = self.contas[at].cliente_id;
            proof {
                let taken = self@.contas.take(at + 1);
                assert(taken.drop_last() =~= self@.contas.take(at as int));
                assert(taken.last() == self.contas@[at as int]@);
            }
            if number > highest {
                highest = number;
            }
            at += 1;
        }
        assert(self@.contas.take(at as int) =~= self@.contas);
        if highest == i32::MAX {
            return Err(PersistenceError::DatabaseError(Fault::OutOfRange));
        }
        self.create_saldo(&NewSaldo { total: 0, limite }, highest + 1)
    }

    /// The balance of account `cliente_id`, if there is such an account, read
    /// under the lock of the open transaction.
    pub fn find_saldo_by_cliente_id_with_lock(&self, cliente_id: i32) -> (r: PersistenceResult<Option<Saldo>>)
        requires
            self.wf(),
        ensures
            r == self@.locked_saldo_of(cliente_id),
    {
        if !self.open {
            return Err(PersistenceError::DatabaseError(Fault::Protocol));
        }
        self.find_saldo_by_cliente_id(cliente_id)
    }

    /// The balance of account `cliente_id`, if there is such an account.
    pub fn find_saldo_by_cliente_id(&self, cliente_id: i32) -> (r: PersistenceResult<Option<Saldo>>)
        requires
            self.wf(),
        ensures
            r == Ok::<Option<Saldo>, PersistenceError>(self@.saldo_of(cliente_id)),
    {
        match self.find(cliente_id) {
            Some(at) => Ok(Some(self.contas[at].saldo)),
            None => Ok(None),
        }
    }

    /// The latest ten transactions of account `id`, the latest first; none
    /// where there is no such account. Where no instant of the account's log
    /// goes back, these are the last ten that were committed, the last first.
    pub fn find_transacoes_by_cliente_id(&self, id: i32) -> (r: PersistenceResult<Vec<Transacao>>)
        requires
            self.wf(),
        ensures
            r matches Ok(list) && list@ == ultimas(self@.transacoes_of(id)),
            chronological(self@.transacoes_of(id)) ==> (r matches Ok(list) && list@ == latest_first(
                self@.transacoes_of(id),
            )),
    {
        proof {
            self.lemma_log_in_order(id);
        }
        match self.find(id) {
            Some(at) => {
                let rows = self.contas[at].transacoes.clone();
                assert(rows@ =~= self.contas@[at as int].transacoes@);
                Ok(ultimas_transacoes(rows))
            },
            None => Ok(ultimas_transacoes(Vec::new())),
        }
    }

    /// In a well-formed repository, a log in which no instant goes back has
    /// each transaction newer than all recorded before it, so that a
    /// statement lists the last ten of it, the last first.
    pub proof fn lemma_log_in_order(&self, id: i32)
        requires
            self.wf(),
        ensures
            chronological(self@.transacoes_of(id)) ==> ultimas(self@.transacoes_of(id)) == latest_first(
                self@.transacoes_of(id),
            ),
    {
        if chronological(self@.transacoes_of(id)) {
            if self@.has(id) {
                assert(self@.contas[self@.index_of(id)].numbered());
                lemma_statement_follows_log(self@.conta(id));
            } else {
                lemma_ultimas_of_log(Seq::empty());
            }
        }
    }

    /// The statement of account `id` as of `data_extrato`. Where no instant
    /// of the account's log goes back, it lists the last ten transactions
    /// that were committed, the last first.
    pub fn find_cliente_by_id(&self, id: i32, data_extrato: Timestamp) -> (r: PersistenceResult<
        Option<Cliente>,
    >)
        requires
            self.wf(),
        ensures
            crate::models::cliente::statement_answer(
                r,
                id,
                self@.saldo_of(id),
                self@.transacoes_of(id),
                data_extrato,
            ),
            chronological(self@.transacoes_of(id)) ==> (r matches Ok(Some(cliente)) ==> cliente.lists(
                latest_first(self@.transacoes_of(id)),
            )),
    {
        proof {
            self.lemma_log_in_order(id);
        }
        match self.find(id) {
            Some(at) => Ok(Some(self.contas[at].extrato(data_extrato))),
            None => Err(PersistenceError::IdDoesNotExist),
        }
    }
}

/// Where the course of `transacao` on account `id`, begun on the repository
/// `start` and run at `now`, stands when it asks for `action`: what was
/// answered so far was answered by `start`, whose accounts have changed only
/// where the course has ended with a commit.
pub open spec fn on_course(
    start: RepositoryView,
    id: i32,
    transacao: NewTransacao,
    now: Timestamp,
    mutation: Mutation,
    action: Action,
    current: RepositoryView,
) -> bool {
    &&& mutation.cliente_id == id
    &&& mutation.transacao == transacao
    &&& match action {
        Action::Begin { cliente_id } => {
            &&& cliente_id == id
            &&& mutation.phase is New
            &&& current.contas == start.contas
        },
        Action::ReadBalance { cliente_id } => {
            &&& cliente_id == id
            &&& mutation.phase is LockHeld
            &&& current.contas == start.contas
            &&& current.open
        },
        Action::Store { cliente_id, saldo_id, novo_total, transacao: asked, realizada_em } => {
            &&& cliente_id == id
            &&& asked == transacao
            &&& realizada_em == now
            &&& start.has(id)
            &&& start.conta(id).saldo.movement(transacao) == Ok::<i32, PersistenceError>(novo_total)
            &&& mutation.phase == (Phase::Validated {
                saldo_id,
                limite: start.conta(id).saldo.limite,
                novo_total,
                realizada_em: now,
            })
            &&& current.contas == start.contas
            &&& current.open
        },
        Action::Commit => {
            &&& start.has(id)
            &&& start.conta(id).accepts(transacao)
            &&& mutation.phase == (Phase::Written {
                limite: start.conta(id).saldo.limite,
                total: start.conta(id).saldo.movement(transacao)->Ok_0,
            })
            &&& current.contas == start.contas
            &&& current.open
            &&& current.staged == Some(
                Staged {
                    cliente_id: id,
                    novo_total: start.conta(id).saldo.movement(transacao)->Ok_0,
                    transacao,
                    realizada_em: now,
                },
            )
        },
        Action::Rollback => {
            &&& mutation.phase matches Phase::Aborted(error)
            &&& start.answer(id, transacao) == Err::<TransacaoResponse, PersistenceError>(error)
            &&& current.contas == start.contas
        },
        Action::Finish => {
            &&& mutation.result() == Some(start.answer(id, transacao))
            &&& current == start.applied(id, transacao, now)
        },
    }
}

} // verus!
