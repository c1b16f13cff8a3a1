//! One account with everything recorded for it: how a transaction changes it,
//! which statement it gives, and what holds of every history of transactions.

use crate::clock::Timestamp;
use crate::models::cliente::Cliente;
use crate::models::saldo::{NewSaldo, Saldo};
use crate::models::transacao::{NewTransacao, TipoTransacao, Transacao, TransacaoResponse};
use crate::persistence::{Fault, PersistenceError, PersistenceResult};
use crate::statement::{latest_first, lemma_ultimas_of_log, oldest_first, ultimas};
use vstd::prelude::*;

verus! {

/// An account: its balance and its transactions in the order they were recorded.
#[derive(Debug)]
pub struct Conta {
    pub cliente_id: i32,
    pub saldo: Saldo,
    pub transacoes: Vec<Transacao>,
}

/// An account as a value: its balance and the sequence of its transactions.
pub struct ContaView {
    pub cliente_id: i32,
    pub saldo: Saldo,
    pub transacoes: Seq<Transacao>,
}

impl View for Conta {
    type V = ContaView;

    open spec fn view(&self) -> ContaView {
        ContaView { cliente_id: self.cliente_id, saldo: self.saldo, transacoes: self.transacoes@ }
    }
}

/// A transaction asked of an account, with the instant at which it is made.
pub struct Request {
    pub transacao: NewTransacao,
    pub realizada_em: Timestamp,
}

/// The sum of the amounts of the transactions of kind `tipo` in `log`.
pub open spec fn sum_of(log: Seq<Transacao>, tipo: TipoTransacao) -> int
    decreases log.len(),
{
    if log.len() == 0 {
        0
    } else if log.last().tipo == tipo {
        sum_of(log.drop_last(), tipo) + log.last().valor
    } else {
        sum_of(log.drop_last(), tipo)
    }
}

/// No transaction of `log` was made before one recorded ahead of it.
pub open spec fn chronological(log: Seq<Transacao>) -> bool {
    forall|i: int, j: int|
        0 <= i < j < log.len() ==> !(#[trigger] log[j]).realizada_em.before((#[trigger] log[i]).realizada_em)
}

impl ContaView {
    /// The transactions are numbered from one in the order they were recorded.
    pub open spec fn numbered(self) -> bool {
        forall|i: int| 0 <= i < self.transacoes.len() ==> (#[trigger] self.transacoes[i]).transacao_id == i + 1
    }

    /// The log is in the order of the commits: the transactions are numbered
    /// as they were recorded, and none was made before one recorded ahead of
    /// it.
    pub open spec fn in_order(self) -> bool {
        self.numbered() && chronological(self.transacoes)
    }

    /// The account can record one more transaction.
    pub open spec fn has_room(self) -> bool {
        self.transacoes.len() < i32::MAX
    }

    /// `transacao` is applied to the account: the balance takes it and there
    /// is room to record it.
    pub open spec fn accepts(self, transacao: NewTransacao) -> bool {
        self.saldo.movement(transacao) is Ok && self.has_room()
    }

    /// The account with the total set to `total` and `transacao`, made at
    /// `realizada_em`, recorded last under the next number.
    pub open spec fn stored(self, total: i32, transacao: NewTransacao, realizada_em: Timestamp) -> ContaView {
        ContaView {
            cliente_id: self.cliente_id,
            saldo: Saldo {
                saldo_id: self.saldo.saldo_id,
                total,
                limite: self.saldo.limite,
                data_extrato: self.saldo.data_extrato,
            },
            transacoes: self.transacoes.push(
                transacao.recorded((self.transacoes.len() + 1) as i32, realizada_em),
            ),
        }
    }

    /// The account after `transacao` was asked of it at `realizada_em`: where
    /// it is accepted the total moves and the transaction is recorded; where
    /// it is not, nothing changes.
    pub open spec fn apply(self, transacao: NewTransacao, realizada_em: Timestamp) -> ContaView {
        if self.accepts(transacao) {
            self.stored(self.saldo.movement(transacao)->Ok_0, transacao, realizada_em)
        } else {
            self
        }
    }

    /// What asking `transacao` of the account answers: the balance it leaves,
    /// or why it is not applied. An account whose numbers are used up reports
    /// that the next one is out of range.
    pub open spec fn answer(self, transacao: NewTransacao) -> PersistenceResult<TransacaoResponse> {
        match self.saldo.movement(transacao) {
            Ok(total) => if self.has_room() {
                Ok(TransacaoResponse { limite: self.saldo.limite, saldo: total })
            } else {
                Err(PersistenceError::DatabaseError(Fault::OutOfRange))
            },
            Err(error) => Err(error),
        }
    }

    /// The account after the requests of `history` were asked of it one after
    /// the other.
    pub open spec fn replay(self, history: Seq<Request>) -> ContaView
        decreases history.len(),
    {
        if history.len() == 0 {
            self
        } else {
            self.replay(history.drop_last()).apply(history.last().transacao, history.last().realizada_em)
        }
    }

    /// The transactions recorded since the account held `before` of them.
    pub open spec fn since(self, before: nat) -> Seq<Transacao> {
        self.transacoes.skip(before as int)
    }
}

impl Conta {
    /// An account opened with `new_saldo` and nothing recorded.
    pub fn new(cliente_id: i32, saldo_id: i32, new_saldo: NewSaldo, aberto_em: Timestamp) -> (conta: Conta)
        ensures
            conta@ == (ContaView {
                cliente_id,
                saldo: Saldo { saldo_id, total: new_saldo.total, limite: new_saldo.limite, data_extrato: aberto_em },
                transacoes: Seq::empty(),
            }),
            conta@.in_order(),
    {
        Conta {
            cliente_id,
            saldo: Saldo { saldo_id, total: new_saldo.total, limite: new_saldo.limite, data_extrato: aberto_em },
            transacoes: Vec::new(),
        }
    }

    /// Sets the total to `novo_total` and records `transacao`, made at
    /// `realizada_em`, under the next number; an account whose numbers are
    /// used up stays as it is.
    pub fn store(&mut self, novo_total: i32, transacao: NewTransacao, realizada_em: Timestamp) -> (r:
        PersistenceResult<()>)
        ensures
            old(self)@.has_room() ==> r is Ok && final(self)@ == old(self)@.stored(
                novo_total,
                transacao,
                realizada_em,
            ),
            !old(self)@.has_room() ==> r == Err::<(), PersistenceError>(
                PersistenceError::DatabaseError(Fault::OutOfRange),
            ) && final(self)@ == old(self)@,
            old(self)@.numbered() ==> final(self)@.numbered(),
            old(self)@.in_order() && not_before_any(realizada_em, old(self)@.transacoes)
                ==> final(self)@.in_order(),
    {
        if self.transacoes.len() >= i32::MAX as usize {
            return Err(PersistenceError::DatabaseError(Fault::OutOfRange));
        }
        let transacao_id = (self.transacoes.len() + 1) as i32;
        self.saldo.total = novo_total;
        self.transacoes.push(
            Transacao {
                transacao_id,
                valor: transacao.valor,
                tipo: transacao.tipo,
                descricao: transacao.descricao,
                realizada_em,
            },
        );
        Ok(())
    }

    /// Asks `new_transacao` of the account at `realizada_em`. An accepted
    /// transaction moves the total and is recorded; a refused one leaves the
    /// account as it was.
    pub fn create_transacao(&mut self, new_transacao: NewTransacao, realizada_em: Timestamp) -> (r:
        PersistenceResult<TransacaoResponse>)
        ensures
            final(self)@ == old(self)@.apply(new_transacao, realizada_em),
            r == old(self)@.answer(new_transacao),
            r is Ok <==> old(self)@.accepts(new_transacao),
            old(self)@.saldo.valid() && new_transacao.valor >= 0 ==> final(self)@.saldo.valid(),
            old(self)@.numbered() ==> final(self)@.numbered(),
            old(self)@.in_order() && not_before_any(realizada_em, old(self)@.transacoes)
                ==> final(self)@.in_order(),
    {
        let novo_total = match self.saldo.novo_total(&new_transacao) {
            Ok(total) => total,
            Err(error) => {
                return Err(error);
            },
        };
        match self.store(novo_total, new_transacao, realizada_em) {
            Ok(()) => Ok(TransacaoResponse { limite: self.saldo.limite, saldo: novo_total }),
            Err(error) => Err(error),
        }
    }

    /// The statement of the account as of `data_extrato`. The account stays
    /// as it is. Where its log is in the order of the commits, the statement
    /// lists the last ten transactions that were committed, the last first.
    pub fn extrato(&self, data_extrato: Timestamp) -> (cliente: Cliente)
        ensures
            cliente.shows(self.cliente_id, self.saldo, self.transacoes@, data_extrato),
            self@.in_order() ==> cliente.lists(latest_first(self.transacoes@)),
    {
        proof {
            if self@.in_order() {
                lemma_statement_follows_log(self@);
            }
        }
        let rows = self.transacoes.clone();
        assert(rows@ =~= self.transacoes@);
        Cliente::extrato(self.cliente_id, self.saldo, rows, data_extrato)
    }
}

/// Asking a transaction of an account keeps its number, its limit and all that
/// was recorded, and adds one record where the transaction is accepted. An
/// account that is numbered in order stays so, and one that honours its limit
/// still does where the amount is not negative.
pub proof fn lemma_apply(conta: ContaView, transacao: NewTransacao, realizada_em: Timestamp)
    ensures
        ({
            let after = conta.apply(transacao, realizada_em);
            &&& after.cliente_id == conta.cliente_id
            &&& after.saldo.limite == conta.saldo.limite
            &&& after.saldo.saldo_id == conta.saldo.saldo_id
            &&& after.transacoes.len() == conta.transacoes.len() + if conta.accepts(transacao) {
                1nat
            } else {
                0nat
            }
            &&& after.transacoes.take(conta.transacoes.len() as int) == conta.transacoes
            &&& conta.numbered() ==> after.numbered()
            &&& conta.saldo.valid() && transacao.valor >= 0 ==> after.saldo.valid()
        }),
{
    let after = conta.apply(transacao, realizada_em);
    assert(after.transacoes.take(conta.transacoes.len() as int) =~= conta.transacoes);
}

/// Asking is not idempotent: a transaction that is accepted and asked once
/// more is recorded once more and moves the total once more, unless the
/// account no longer takes it, and then the second asking changes nothing.
pub proof fn lemma_asked_twice(conta: ContaView, transacao: NewTransacao, first: Timestamp, second: Timestamp)
    requires
        conta.accepts(transacao),
    ensures
        ({
            let once = conta.apply(transacao, first);
            let twice = once.apply(transacao, second);
            &&& once.transacoes.len() == conta.transacoes.len() + 1
            &&& once.accepts(transacao) ==> {
                &&& twice.transacoes.len() == conta.transacoes.len() + 2
                &&& twice.transacoes[conta.transacoes.len() as int].valor == transacao.valor
                &&& twice.transacoes[conta.transacoes.len() as int + 1].valor == transacao.valor
                &&& twice.saldo.total - once.saldo.total == once.saldo.total - conta.saldo.total
            }
            &&& !once.accepts(transacao) ==> twice == once
        }),
{
}

/// A history of requests keeps the account's number and limit and all that
/// was recorded before it, and numbers what it records in order.
pub proof fn lemma_replay(conta: ContaView, history: Seq<Request>)
    ensures
        ({
            let after = conta.replay(history);
            &&& after.cliente_id == conta.cliente_id
            &&& after.saldo.limite == conta.saldo.limite
            &&& conta.transacoes.len() <= after.transacoes.len() <= conta.transacoes.len() + history.len()
            &&& after.transacoes.take(conta.transacoes.len() as int) == conta.transacoes
            &&& conta.numbered() ==> after.numbered()
        }),
    decreases history.len(),
{
    if history.len() > 0 {
        let before = conta.replay(history.drop_last());
        lemma_replay(conta, history.drop_last());
        lemma_apply(before, history.last().transacao, history.last().realizada_em);
        let after = conta.replay(history);
        assert(after.transacoes.take(conta.transacoes.len() as int) =~= before.transacoes.take(
            conta.transacoes.len() as int,
        ));
    } else {
        assert(conta.transacoes.take(conta.transacoes.len() as int) =~= conta.transacoes);
    }
}

/// The limit is honoured throughout: an account that honours its limit still
/// does after every prefix of a history of requests for amounts that are not
/// negative.
pub proof fn lemma_limit_honoured(conta: ContaView, history: Seq<Request>, prefix: int)
    requires
        conta.saldo.valid(),
        forall|i: int| 0 <= i < history.len() ==> (#[trigger] history[i]).transacao.valor >= 0,
        0 <= prefix <= history.len(),
    ensures
        conta.replay(history.take(prefix)).saldo.valid(),
        conta.replay(history.take(prefix)).saldo.total >= -conta.saldo.limite,
    decreases prefix,
{
    let taken = history.take(prefix);
    if prefix > 0 {
        lemma_limit_honoured(conta, history, prefix - 1);
        lemma_replay(conta, history.take(prefix - 1));
        assert(taken.drop_last() =~= history.take(prefix - 1));
        assert(taken.last() == history[prefix - 1]);
        lemma_apply(conta.replay(taken.drop_last()), taken.last().transacao, taken.last().realizada_em);
    }
}

/// Conservation: after a history of requests the total is what it was, plus
/// the credits and minus the debits that were recorded since.
pub proof fn lemma_conservation(conta: ContaView, history: Seq<Request>)
    ensures
        ({
            let after = conta.replay(history);
            let recorded = after.since(conta.transacoes.len());
            after.saldo.total == conta.saldo.total + sum_of(recorded, TipoTransacao::CREDITO) - sum_of(
                recorded,
                TipoTransacao::DEBITO,
            )
        }),
    decreases history.len(),
{
    let start = conta.transacoes.len();
    if history.len() == 0 {
        assert(conta.since(start) =~= Seq::empty());
    } else {
        let before = conta.replay(history.drop_last());
        let asked = history.last();
        let after = conta.replay(history);
        lemma_conservation(conta, history.drop_last());
        lemma_replay(conta, history.drop_last());
        if before.accepts(asked.transacao) {
            let record = asked.transacao.recorded((before.transacoes.len() + 1) as i32, asked.realizada_em);
            assert(after.since(start) =~= before.since(start).push(record));
            assert(after.since(start).drop_last() =~= before.since(start));
        }
    }
}

/// A statement follows the order of the commits: where the log is in that
/// order, each transaction is newer than all recorded before it, and the
/// statement lists the last ten that were recorded, the last first.
pub proof fn lemma_statement_follows_log(conta: ContaView)
    requires
        conta.in_order(),
    ensures
        oldest_first(conta.transacoes),
        ultimas(conta.transacoes) == latest_first(conta.transacoes),
        forall|i: int|
            0 <= i < ultimas(conta.transacoes).len() ==> #[trigger] ultimas(conta.transacoes)[i]
                == conta.transacoes[conta.transacoes.len() - 1 - i],
{
    let log = conta.transacoes;
    assert forall|i: int, j: int| 0 <= i < j < log.len() implies (#[trigger] log[j]).newer_than(
        #[trigger] log[i],
    ) by {
        assert(log[i].transacao_id == i + 1 && log[j].transacao_id == j + 1);
        assert(!log[j].realizada_em.before(log[i].realizada_em));
    }
    lemma_ultimas_of_log(log);
}

/// `at` is before no transaction of `log`.
pub open spec fn not_before_any(at: Timestamp, log: Seq<Transacao>) -> bool {
    forall|i: int| 0 <= i < log.len() ==> !at.before((#[trigger] log[i]).realizada_em)
}

/// Recording keeps the order of the commits where the clock does not run
/// backwards: asked at an instant that is not before any recorded one, a
/// transaction leaves the log in that order.
pub proof fn lemma_apply_chronological(conta: ContaView, transacao: NewTransacao, realizada_em: Timestamp)
    requires
        chronological(conta.transacoes),
        not_before_any(realizada_em, conta.transacoes),
    ensures
        chronological(conta.apply(transacao, realizada_em).transacoes),
        conta.in_order() ==> conta.apply(transacao, realizada_em).in_order(),
{
    lemma_apply(conta, transacao, realizada_em);
}

/// No request of `history` is made before one that comes ahead of it, nor
/// before a transaction of `log`.
pub open spec fn in_order_of_time(log: Seq<Transacao>, history: Seq<Request>) -> bool {
    &&& forall|i: int, j: int|
        0 <= i < j < history.len() ==> !(#[trigger] history[j]).realizada_em.before(
            (#[trigger] history[i]).realizada_em,
        )
    &&& forall|i: int, j: int|
        0 <= i < log.len() && 0 <= j < history.len() ==> !(#[trigger] history[j]).realizada_em.before(
            (#[trigger] log[i]).realizada_em,
        )
}

/// A history keeps the order of time where the clock does not run backwards:
/// asked at instants that never go back, the requests leave the log in the
/// order of time, and no transaction in it is later than an instant `bound`
/// that none was made after.
pub proof fn lemma_replay_chronological(conta: ContaView, history: Seq<Request>, bound: Timestamp)
    requires
        chronological(conta.transacoes),
        in_order_of_time(conta.transacoes, history),
        not_before_any(bound, conta.transacoes),
        forall|j: int| 0 <= j < history.len() ==> !bound.before((#[trigger] history[j]).realizada_em),
    ensures
        chronological(conta.replay(history).transacoes),
        not_before_any(bound, conta.replay(history).transacoes),
    decreases history.len(),
{
    if history.len() > 0 {
        let earlier = history.drop_last();
        let asked = history.last();
        assert forall|j: int| 0 <= j < earlier.len() implies !asked.realizada_em.before(
            (#[trigger] earlier[j]).realizada_em,
        ) by {
            assert(earlier[j] == history[j]);
            assert(asked == history[history.len() - 1]);
        }
        assert(not_before_any(asked.realizada_em, conta.transacoes)) by {
            assert(asked == history[history.len() - 1]);
        }
        assert(in_order_of_time(conta.transacoes, earlier)) by {
            assert forall|i: int, j: int| 0 <= i < j < earlier.len() implies !(
            #[trigger] earlier[j]).realizada_em.before((#[trigger] earlier[i]).realizada_em) by {
                assert(earlier[i] == history[i] && earlier[j] == history[j]);
            }
            assert forall|i: int, j: int|
                0 <= i < conta.transacoes.len() && 0 <= j < earlier.len() implies !(
            #[trigger] earlier[j]).realizada_em.before((#[trigger] conta.transacoes[i]).realizada_em) by {
                assert(earlier[j] == history[j]);
            }
        }
        lemma_replay_chronological(conta, earlier, asked.realizada_em);
        let before = conta.replay(earlier);
        lemma_apply_chronological(before, asked.transacao, asked.realizada_em);
        let after = conta.replay(history);
        assert(!bound.before(asked.realizada_em)) by {
            assert(asked == history[history.len() - 1]);
        }
        assert forall|i: int| 0 <= i < after.transacoes.len() implies !bound.before(
            (#[trigger] after.transacoes[i]).realizada_em,
        ) by {
            if i < before.transacoes.len() {
                assert(after.transacoes[i] == before.transacoes[i]);
                assert(!asked.realizada_em.before(before.transacoes[i].realizada_em));
            }
        }
    }
}

/// A statement follows the order of the requests: drawn from an account
/// whose log is in the order of the commits, after a history of requests made
/// at instants that never go back, it lists the last ten transactions that
/// were recorded, the last first.
pub proof fn lemma_statement_follows_history(conta: ContaView, history: Seq<Request>)
    requires
        conta.in_order(),
        in_order_of_time(conta.transacoes, history),
    ensures
        conta.replay(history).in_order(),
        ultimas(conta.replay(history).transacoes) == latest_first(conta.replay(history).transacoes),
{
    lemma_replay(conta, history);
    if history.len() > 0 {
        assert(history.last() == history[history.len() - 1]);
        lemma_replay_chronological(conta, history, history.last().realizada_em);
    }
    lemma_statement_follows_log(conta.replay(history));
}

/// A statement is consistent with what was committed: drawn after a history
/// of requests, it shows the opening total plus the credits and minus the
/// debits recorded since.
pub proof fn lemma_statement_total(
    conta: ContaView,
    history: Seq<Request>,
    statement: Cliente,
    data_extrato: Timestamp,
)
    requires
        ({
            let after = conta.replay(history);
            statement.shows(after.cliente_id, after.saldo, after.transacoes, data_extrato)
        }),
    ensures
        ({
            let recorded = conta.replay(history).since(conta.transacoes.len());
            statement.saldo.total == conta.saldo.total + sum_of(recorded, TipoTransacao::CREDITO) - sum_of(
                recorded,
                TipoTransacao::DEBITO,
            )
        }),
{
    lemma_conservation(conta, history);
}

/// Drawing a statement twice from one account gives the same balance and the
/// same list; only the instant of drawing can differ.
pub proof fn lemma_statements_agree(
    conta: ContaView,
    first: Cliente,
    first_at: Timestamp,
    second: Cliente,
    second_at: Timestamp,
)
    requires
        first.shows(conta.cliente_id, conta.saldo, conta.transacoes, first_at),
        second.shows(conta.cliente_id, conta.saldo, conta.transacoes, second_at),
    ensures
        first.saldo.total == second.saldo.total,
        first.saldo.limite == second.saldo.limite,
        first.ultimas_transacoes->Some_0@ == second.ultimas_transacoes->Some_0@,
{
}

/// How many of `asked` equal debits of `valor` an account with nothing owed
/// and the limit `limite` can take.
pub open spec fn debits_taken(asked: nat, limite: int, valor: int) -> int {
    if asked <= limite / valor {
        asked as int
    } else {
        limite / valor
    }
}

/// Every request of `history` is a debit of `valor`.
pub open spec fn all_debits_of(history: Seq<Request>, valor: i32) -> bool {
    forall|i: int|
        0 <= i < history.len() ==> (#[trigger] history[i]).transacao.tipo == TipoTransacao::DEBITO
            && history[i].transacao.valor == valor
}

/// Debits that contend for one account are taken one at a time until the
/// limit is used up. Of any number of debits of one positive amount `valor`,
/// asked in any order of an account that owes nothing, as many are recorded
/// as fit under the limit, `limite / valor` where that many were asked; each
/// of the others is refused for want of funds; and the total ends at minus
/// the amount of those recorded.
pub proof fn lemma_contended_debits(conta: ContaView, history: Seq<Request>, valor: i32)
    requires
        conta.saldo.total == 0,
        conta.saldo.limite >= 0,
        valor > 0,
        all_debits_of(history, valor),
        conta.transacoes.len() + (conta.saldo.limite as int) / (valor as int) <= i32::MAX,
    ensures
        ({
            let after = conta.replay(history);
            let taken = debits_taken(history.len(), conta.saldo.limite as int, valor as int);
            &&& after.transacoes.len() == conta.transacoes.len() + taken
            &&& after.saldo.total == -(taken * valor)
            &&& history.len() >= (conta.saldo.limite as int) / (valor as int) ==> taken == (
            conta.saldo.limite as int) / (valor as int)
            &&& forall|k: int|
                0 <= k < history.len() ==> {
                    let then = #[trigger] conta.replay(history.take(k));
                    then.accepts(history[k].transacao) || then.answer(history[k].transacao) == Err::<
                        TransacaoResponse,
                        PersistenceError,
                    >(PersistenceError::NotEnoughFunds)
                }
        }),
    decreases history.len(),
{
    let limite = conta.saldo.limite as int;
    let d = valor as int;
    let most = limite / d;
    assert(0 <= most && most * d <= limite < (most + 1) * d) by (nonlinear_arith)
        requires
            limite >= 0,
            d > 0,
            most == limite / d,
    ;
    if history.len() == 0 {
        assert(0 * d == 0) by (nonlinear_arith);
    } else {
        let earlier = history.drop_last();
        let before = conta.replay(earlier);
        let asked = history.last().transacao;
        let after = conta.replay(history);
        let taken = debits_taken(earlier.len(), limite, d);
        lemma_contended_debits(conta, earlier, valor);
        lemma_replay(conta, earlier);
        assert(asked.tipo == TipoTransacao::DEBITO && asked.valor == valor);
        assert(before.saldo.total == -(taken * d));
        if taken < most {
            assert((taken + 1) * d <= most * d) by (nonlinear_arith)
                requires
                    taken + 1 <= most,
                    d > 0,
            ;
            assert((taken + 1) * d == taken * d + d) by (nonlinear_arith);
            assert(taken * d >= 0) by (nonlinear_arith)
                requires
                    taken >= 0,
                    d > 0,
            ;
            assert(before.accepts(asked));
            assert(after.saldo.total == -((taken + 1) * d));
        } else {
            assert(taken == most);
            assert((most + 1) * d == most * d + d) by (nonlinear_arith);
            assert(before.saldo.movement(asked) == Err::<i32, PersistenceError>(
                PersistenceError::NotEnoughFunds,
            ));
            assert(after == before);
        }
        assert forall|k: int| 0 <= k < history.len() implies {
            let then = #[trigger] conta.replay(history.take(k));
            then.accepts(history[k].transacao) || then.answer(history[k].transacao) == Err::<
                TransacaoResponse,
                PersistenceError,
            >(PersistenceError::NotEnoughFunds)
        } by {
            if k < earlier.len() {
                assert(history.take(k) =~= earlier.take(k));
                assert(history[k] == earlier[k]);
            } else {
                assert(history.take(k) =~= earlier);
            }
        }
    }
}

} // verus!
