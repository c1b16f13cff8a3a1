//! What many transactions at once on one account come to.
//!
//! Whatever the order in which the store serves the courses, and whatever
//! fails on the way, the account ends as if the committed transactions had
//! been asked one after the other in the order of their commits; the limit
//! is honoured throughout; every client is answered as that order has it;
//! and equal debits that contend are applied until the limit is used up.

use crate::clock::Timestamp;
use crate::contention::{Course, Move, Shared};
use crate::ledger::{
    debits_taken, in_order_of_time, lemma_conservation, lemma_limit_honoured,
    lemma_statement_follows_history, not_before_any, sum_of, ContaView, Request,
};
use crate::models::cliente::Cliente;
use crate::models::transacao::{NewTransacao, TipoTransacao, Transacao, TransacaoResponse};
use crate::mutator::{Action, Phase};
use crate::persistence::PersistenceError;
use crate::statement::{latest_first, ultimas};
use vstd::prelude::*;

verus! {

impl Shared {
    /// Course `j` is where its phase says: it asks what follows that phase,
    /// it holds the lock exactly between its begin and its end, and what it
    /// has validated or written was decided on the balance as it stands.
    pub open spec fn fits(self, j: int) -> bool {
        let course = self.courses[j];
        let m = course.mutation;
        let ours = m.cliente_id == self.conta.cliente_id;
        &&& (self.holder == Some(j)) == (ours && (course.asks is ReadBalance || course.asks is Store
            || course.asks is Commit || course.asks is Rollback))
        &&& match course.asks {
            Action::Begin { cliente_id } => m.phase is New && cliente_id == m.cliente_id,
            Action::ReadBalance { cliente_id } => {
                &&& m.phase is LockHeld
                &&& cliente_id == m.cliente_id
                &&& ours ==> self.staged is None
            },
            Action::Store { cliente_id, saldo_id, novo_total, transacao, realizada_em } => {
                &&& ours
                &&& cliente_id == m.cliente_id
                &&& transacao == m.transacao
                &&& self.conta.saldo.movement(m.transacao) == Ok::<i32, PersistenceError>(novo_total)
                &&& m.phase == (Phase::Validated {
                    saldo_id,
                    limite: self.conta.saldo.limite,
                    novo_total,
                    realizada_em,
                })
                &&& self.staged is None
            },
            Action::Commit => {
                &&& ours
                &&& m.phase matches Phase::Written { limite, total }
                &&& limite == self.conta.saldo.limite
                &&& self.conta.saldo.movement(m.transacao) == Ok::<i32, PersistenceError>(total)
                &&& self.conta.has_room()
                &&& self.staged matches Some(staged)
                &&& staged.novo_total == total
                &&& staged.transacao == m.transacao
            },
            Action::Rollback => m.phase is Aborted,
            Action::Finish => m.phase.terminal(),
        }
    }

    /// The account is what asking the committed transactions one after the
    /// other makes of `start`, and every course is where its phase says.
    pub open spec fn sound(self, start: ContaView) -> bool {
        &&& self.conta == start.replay(self.committed)
        &&& self.holder matches Some(h) ==> 0 <= h < self.courses.len()
        &&& self.holder is None ==> self.staged is None
        &&& forall|j: int| 0 <= j < self.courses.len() ==> #[trigger] self.fits(j)
    }
}

/// A move that can be made keeps the account what the committed transactions
/// make of it, whichever course moves and whatever befalls it.
pub proof fn lemma_move_keeps_sound(start: ContaView, shared: Shared, mv: Move)
    requires
        shared.sound(start),
        shared.allows(mv),
    ensures
        shared.after(mv).sound(start),
{
    let after = shared.after(mv);
    let i = mv.course;
    assert(shared.fits(i));
    crate::ledger::lemma_replay(start, shared.committed);
    if after.committed.len() > shared.committed.len() {
        let staged = shared.staged->Some_0;
        let request = Request { transacao: staged.transacao, realizada_em: staged.realizada_em };
        assert(after.committed == shared.committed.push(request));
        assert(after.committed.drop_last() =~= shared.committed);
        assert(shared.conta.accepts(staged.transacao));
    } else {
        assert(after.committed == shared.committed);
    }
    assert forall|j: int| 0 <= j < after.courses.len() implies #[trigger] after.fits(j) by {
        assert(shared.fits(j));
        if j != i {
            assert(after.courses[j] == shared.courses[j]);
        }
    }
}

/// Whatever the order in which the store serves the courses, and whatever
/// fails on the way, the account ends as if the committed transactions had
/// been asked of it one after the other, in the order of their commits.
pub proof fn lemma_serial(start: ContaView, asked: Seq<NewTransacao>, moves: Seq<Move>)
    requires
        Shared::opened(start, asked).admits(moves),
    ensures
        Shared::opened(start, asked).run(moves).sound(start),
        Shared::opened(start, asked).run(moves).conta == start.replay(
            Shared::opened(start, asked).run(moves).committed,
        ),
    decreases moves.len(),
{
    let opened = Shared::opened(start, asked);
    if moves.len() == 0 {
        assert forall|j: int| 0 <= j < opened.courses.len() implies #[trigger] opened.fits(j) by {}
    } else {
        lemma_serial(start, asked, moves.drop_last());
        lemma_move_keeps_sound(start, opened.run(moves.drop_last()), moves.last());
    }
}

impl Shared {
    /// A course whose transaction was applied was answered with the balance
    /// that its transaction left when the committed transactions are asked
    /// one after the other.
    pub open spec fn answered(self, start: ContaView, j: int) -> bool {
        self.courses[j].mutation.phase matches Phase::Committed(response) ==> exists|k: int|
            0 <= k < self.committed.len() && (#[trigger] self.committed[k]).transacao
                == self.courses[j].mutation.transacao && start.replay(self.committed.take(k)).answer(
                self.committed[k].transacao,
            ) == Ok::<TransacaoResponse, PersistenceError>(response)
    }

    /// Every course whose transaction was applied was answered as the order
    /// of the commits has it.
    pub open spec fn all_answered(self, start: ContaView) -> bool {
        forall|j: int| 0 <= j < self.courses.len() ==> #[trigger] self.answered(start, j)
    }

    /// No amount is negative: not of a course, nor of what is written or
    /// committed.
    pub open spec fn modest(self) -> bool {
        &&& forall|j: int| 0 <= j < self.courses.len() ==> (#[trigger] self.courses[j]).mutation.transacao.valor >= 0
        &&& forall|k: int| 0 <= k < self.committed.len() ==> (#[trigger] self.committed[k]).transacao.valor >= 0
        &&& self.staged matches Some(staged) ==> staged.transacao.valor >= 0
    }
}

/// A move keeps every applied course answered as the order of the commits
/// has it.
pub proof fn lemma_move_keeps_answered(start: ContaView, shared: Shared, mv: Move)
    requires
        shared.sound(start),
        shared.all_answered(start),
        shared.allows(mv),
    ensures
        shared.after(mv).all_answered(start),
{
    let after = shared.after(mv);
    let i = mv.course;
    assert(shared.fits(i));
    assert forall|j: int| 0 <= j < after.courses.len() implies #[trigger] after.answered(start, j) by {
        assert(shared.answered(start, j));
        if after.courses[j].mutation.phase is Committed {
            if j != i || shared.courses[j].mutation.phase is Committed {
                assert(after.courses[j].mutation == shared.courses[j].mutation);
                let k = choose|k: int|
                    0 <= k < shared.committed.len() && (#[trigger] shared.committed[k]).transacao
                        == shared.courses[j].mutation.transacao && start.replay(
                        shared.committed.take(k),
                    ).answer(shared.committed[k].transacao) == Ok::<TransacaoResponse, PersistenceError>(
                        shared.courses[j].mutation.phase->Committed_0,
                    );
                assert(after.committed.take(k) =~= shared.committed.take(k));
                assert(after.committed[k] == shared.committed[k]);
            } else {
                let k = shared.committed.len() as int;
                assert(after.committed.take(k) =~= shared.committed);
                assert(after.committed[k].transacao == shared.courses[i].mutation.transacao);
            }
        }
    }
}

/// Whatever the order in which the store serves the courses, each client
/// whose transaction was applied was answered with the balance that the
/// transaction left in the order of the commits.
pub proof fn lemma_answers_serial(start: ContaView, asked: Seq<NewTransacao>, moves: Seq<Move>)
    requires
        Shared::opened(start, asked).admits(moves),
    ensures
        Shared::opened(start, asked).run(moves).all_answered(start),
    decreases moves.len(),
{
    let opened = Shared::opened(start, asked);
    if moves.len() == 0 {
        assert forall|j: int| 0 <= j < opened.courses.len() implies #[trigger] opened.answered(start, j) by {}
    } else {
        lemma_serial(start, asked, moves.drop_last());
        lemma_answers_serial(start, asked, moves.drop_last());
        lemma_move_keeps_answered(start, opened.run(moves.drop_last()), moves.last());
    }
}

/// A move brings in no negative amount.
pub proof fn lemma_move_keeps_modest(start: ContaView, shared: Shared, mv: Move)
    requires
        shared.sound(start),
        shared.modest(),
        shared.allows(mv),
    ensures
        shared.after(mv).modest(),
{
    let after = shared.after(mv);
    assert(shared.fits(mv.course));
    assert forall|j: int| 0 <= j < after.courses.len() implies (#[trigger] after.courses[j]).mutation.transacao.valor
        >= 0 by {
        assert(shared.courses[j].mutation.transacao.valor >= 0);
    }
    assert forall|k: int| 0 <= k < after.committed.len() implies (#[trigger] after.committed[k]).transacao.valor
        >= 0 by {
        if k < shared.committed.len() {
            assert(shared.committed[k].transacao.valor >= 0);
        }
    }
}

/// The limit is honoured whatever the order: where the account honours its
/// limit and no amount asked is negative, the account honours its limit after
/// every move.
pub proof fn lemma_limit_honoured_in_any_order(start: ContaView, asked: Seq<NewTransacao>, moves: Seq<Move>)
    requires
        start.saldo.valid(),
        forall|i: int| 0 <= i < asked.len() ==> (#[trigger] asked[i]).valor >= 0,
        Shared::opened(start, asked).admits(moves),
    ensures
        Shared::opened(start, asked).run(moves).modest(),
        Shared::opened(start, asked).run(moves).conta.saldo.valid(),
        Shared::opened(start, asked).run(moves).conta.saldo.total >= -start.saldo.limite,
    decreases moves.len(),
{
    let opened = Shared::opened(start, asked);
    if moves.len() > 0 {
        lemma_serial(start, asked, moves.drop_last());
        lemma_limit_honoured_in_any_order(start, asked, moves.drop_last());
        lemma_move_keeps_modest(start, opened.run(moves.drop_last()), moves.last());
    }
    lemma_serial(start, asked, moves);
    let end = opened.run(moves);
    assert(end.committed.take(end.committed.len() as int) =~= end.committed);
    lemma_limit_honoured(start, end.committed, end.committed.len() as int);
}

/// A statement shows what was committed, whatever the order: drawn at any
/// moment while the store serves the courses, it shows the opening total
/// plus the credits and minus the debits that were committed by then, and
/// nothing of what is only written.
pub proof fn lemma_statement_in_any_order(
    start: ContaView,
    asked: Seq<NewTransacao>,
    moves: Seq<Move>,
    statement: Cliente,
    data_extrato: Timestamp,
)
    requires
        Shared::opened(start, asked).admits(moves),
        ({
            let now = Shared::opened(start, asked).run(moves);
            statement.shows(now.conta.cliente_id, now.conta.saldo, now.conta.transacoes, data_extrato)
        }),
    ensures
        ({
            let now = Shared::opened(start, asked).run(moves);
            let recorded = now.conta.since(start.transacoes.len());
            &&& now.conta == start.replay(now.committed)
            &&& statement.saldo.total == start.saldo.total + sum_of(recorded, TipoTransacao::CREDITO) - sum_of(
                recorded,
                TipoTransacao::DEBITO,
            )
        }),
{
    lemma_serial(start, asked, moves);
    lemma_conservation(start, Shared::opened(start, asked).run(moves).committed);
}

/// No move of `moves` is made before one that comes ahead of it.
pub open spec fn never_back(moves: Seq<Move>) -> bool {
    forall|a: int, b: int|
        0 <= a < b < moves.len() ==> !(#[trigger] moves[b]).at.before((#[trigger] moves[a]).at)
}

impl Shared {
    /// The instants of what is committed, written or about to be written
    /// never go back, and none is later than `bound`.
    pub open spec fn timely(self, bound: Timestamp) -> bool {
        &&& forall|a: int, b: int|
            0 <= a < b < self.committed.len() ==> !(#[trigger] self.committed[b]).realizada_em.before(
                (#[trigger] self.committed[a]).realizada_em,
            )
        &&& forall|k: int|
            0 <= k < self.committed.len() ==> !bound.before((#[trigger] self.committed[k]).realizada_em)
        &&& self.staged matches Some(staged) ==> !bound.before(staged.realizada_em) && self.not_before_commits(
            staged.realizada_em,
        )
        &&& forall|j: int|
            0 <= j < self.courses.len() ==> ((#[trigger] self.courses[j]).asks matches Action::Store {
                realizada_em,
                ..
            } ==> !bound.before(realizada_em) && self.not_before_commits(realizada_em))
    }

    /// `at` is before nothing that is committed.
    pub open spec fn not_before_commits(self, at: Timestamp) -> bool {
        forall|k: int| 0 <= k < self.committed.len() ==> !at.before((#[trigger] self.committed[k]).realizada_em)
    }
}

/// A move made at an instant that is not before `bound` keeps the instants
/// in order, with that instant for the new bound.
pub proof fn lemma_move_keeps_timely(start: ContaView, shared: Shared, bound: Timestamp, mv: Move)
    requires
        shared.sound(start),
        shared.timely(bound),
        shared.allows(mv),
        !mv.at.before(bound),
    ensures
        shared.after(mv).timely(mv.at),
{
    let after = shared.after(mv);
    let i = mv.course;
    assert(shared.fits(i));
    assert forall|k: int| 0 <= k < after.committed.len() implies !mv.at.before(
        (#[trigger] after.committed[k]).realizada_em,
    ) by {
        if k < shared.committed.len() {
            assert(after.committed[k] == shared.committed[k]);
            assert(!bound.before(shared.committed[k].realizada_em));
        }
    }
    assert forall|a: int, b: int| 0 <= a < b < after.committed.len() implies !(
    #[trigger] after.committed[b]).realizada_em.before((#[trigger] after.committed[a]).realizada_em) by {
        assert(after.committed[a] == shared.committed[a]);
        if b < shared.committed.len() {
            assert(after.committed[b] == shared.committed[b]);
        } else {
            assert(shared.not_before_commits(shared.staged->Some_0.realizada_em));
        }
    }
    assert forall|j: int| 0 <= j < after.courses.len() implies ((#[trigger] after.courses[j]).asks matches Action::Store {
        realizada_em,
        ..
    } ==> !mv.at.before(realizada_em) && after.not_before_commits(realizada_em)) by {
        assert(shared.fits(j));
        if j != i {
            assert(after.courses[j] == shared.courses[j]);
        }
        match after.courses[j].asks {
            Action::Store { realizada_em, .. } => {
                assert forall|k: int| 0 <= k < after.committed.len() implies !realizada_em.before(
                    (#[trigger] after.committed[k]).realizada_em,
                ) by {
                    assert(after.committed == shared.committed);
                    assert(!bound.before(shared.committed[k].realizada_em));
                    if j != i {
                        assert(shared.not_before_commits(realizada_em));
                    }
                }
            },
            _ => {},
        }
    }
    match after.staged {
        Some(staged) => {
            assert forall|k: int| 0 <= k < after.committed.len() implies !staged.realizada_em.before(
                (#[trigger] after.committed[k]).realizada_em,
            ) by {
                assert(after.committed == shared.committed);
                match shared.staged {
                    Some(before) => {
                        assert(shared.not_before_commits(before.realizada_em));
                    },
                    None => {
                        match shared.courses[i].asks {
                            Action::Store { realizada_em, .. } => {
                                assert(shared.not_before_commits(realizada_em));
                            },
                            _ => {},
                        }
                    },
                }
            }
        },
        None => {},
    }
}

/// The instants of what a run commits never go back where the instants of
/// its moves never do.
pub proof fn lemma_run_timely(start: ContaView, asked: Seq<NewTransacao>, moves: Seq<Move>)
    requires
        Shared::opened(start, asked).admits(moves),
        never_back(moves),
        moves.len() > 0,
    ensures
        Shared::opened(start, asked).run(moves).timely(moves.last().at),
    decreases moves.len(),
{
    let opened = Shared::opened(start, asked);
    let earlier = moves.drop_last();
    let mv = moves.last();
    lemma_serial(start, asked, earlier);
    if earlier.len() == 0 {
        assert(opened.timely(mv.at));
        lemma_move_keeps_timely(start, opened, mv.at, mv);
    } else {
        assert forall|a: int, b: int| 0 <= a < b < earlier.len() implies !(#[trigger] earlier[b]).at.before(
            (#[trigger] earlier[a]).at,
        ) by {
            assert(earlier[a] == moves[a] && earlier[b] == moves[b]);
        }
        lemma_run_timely(start, asked, earlier);
        assert(earlier.last() == moves[earlier.len() - 1]);
        assert(mv == moves[moves.len() - 1]);
        lemma_move_keeps_timely(start, opened.run(earlier), earlier.last().at, mv);
    }
}

/// No move of `moves` is made before a transaction of `log`.
pub open spec fn after_log(moves: Seq<Move>, log: Seq<Transacao>) -> bool {
    forall|k: int| 0 <= k < moves.len() ==> not_before_any((#[trigger] moves[k]).at, log)
}

impl Shared {
    /// The instants of what is committed, written or about to be written are
    /// before no transaction of `log`.
    pub open spec fn stamped_after(self, log: Seq<Transacao>) -> bool {
        &&& forall|k: int|
            0 <= k < self.committed.len() ==> not_before_any((#[trigger] self.committed[k]).realizada_em, log)
        &&& self.staged matches Some(staged) ==> not_before_any(staged.realizada_em, log)
        &&& forall|j: int|
            0 <= j < self.courses.len() ==> ((#[trigger] self.courses[j]).asks matches Action::Store {
                realizada_em,
                ..
            } ==> not_before_any(realizada_em, log))
    }
}

/// A move made at an instant that is before no transaction of `log` brings
/// in no instant that is.
pub proof fn lemma_move_keeps_stamped(start: ContaView, shared: Shared, log: Seq<Transacao>, mv: Move)
    requires
        shared.sound(start),
        shared.stamped_after(log),
        shared.allows(mv),
        not_before_any(mv.at, log),
    ensures
        shared.after(mv).stamped_after(log),
{
    let after = shared.after(mv);
    let i = mv.course;
    assert(shared.fits(i));
    assert forall|k: int| 0 <= k < after.committed.len() implies not_before_any(
        (#[trigger] after.committed[k]).realizada_em,
        log,
    ) by {
        if k < shared.committed.len() {
            assert(after.committed[k] == shared.committed[k]);
        }
    }
    assert forall|j: int| 0 <= j < after.courses.len() implies ((#[trigger] after.courses[j]).asks matches Action::Store {
        realizada_em,
        ..
    } ==> not_before_any(realizada_em, log)) by {
        if j != i {
            assert(after.courses[j] == shared.courses[j]);
        }
        assert(shared.courses[j].asks matches Action::Store { realizada_em, .. } ==> not_before_any(
            realizada_em,
            log,
        ));
    }
    match shared.courses[i].asks {
        Action::Store { realizada_em, .. } => {
            assert(not_before_any(realizada_em, log));
        },
        _ => {},
    }
}

/// A run whose moves are before no transaction of `log` commits at no
/// instant that is.
pub proof fn lemma_run_stamped(start: ContaView, asked: Seq<NewTransacao>, moves: Seq<Move>, log: Seq<Transacao>)
    requires
        Shared::opened(start, asked).admits(moves),
        after_log(moves, log),
    ensures
        Shared::opened(start, asked).run(moves).stamped_after(log),
    decreases moves.len(),
{
    let opened = Shared::opened(start, asked);
    if moves.len() > 0 {
        let earlier = moves.drop_last();
        assert forall|k: int| 0 <= k < earlier.len() implies not_before_any((#[trigger] earlier[k]).at, log) by {
            assert(earlier[k] == moves[k]);
        }
        lemma_serial(start, asked, earlier);
        lemma_run_stamped(start, asked, earlier, log);
        assert(moves.last() == moves[moves.len() - 1]);
        lemma_move_keeps_stamped(start, opened.run(earlier), log, moves.last());
    }
}

/// A statement follows the order of the commits: where the log of the
/// account is in that order to begin with and the clock never goes back
/// while the store serves the courses, the log stays in the order of the
/// commits, and a statement drawn at any moment lists the last ten
/// transactions that were committed, the last first.
pub proof fn lemma_statement_follows_commits(start: ContaView, asked: Seq<NewTransacao>, moves: Seq<Move>)
    requires
        start.in_order(),
        Shared::opened(start, asked).admits(moves),
        never_back(moves),
        after_log(moves, start.transacoes),
    ensures
        ({
            let now = Shared::opened(start, asked).run(moves);
            &&& now.conta == start.replay(now.committed)
            &&& now.conta.in_order()
            &&& ultimas(now.conta.transacoes) == latest_first(now.conta.transacoes)
        }),
{
    let now = Shared::opened(start, asked).run(moves);
    lemma_serial(start, asked, moves);
    lemma_run_stamped(start, asked, moves, start.transacoes);
    if moves.len() > 0 {
        lemma_run_timely(start, asked, moves);
    }
    assert(in_order_of_time(start.transacoes, now.committed)) by {
        assert forall|i: int, j: int|
            0 <= i < start.transacoes.len() && 0 <= j < now.committed.len() implies !(
        #[trigger] now.committed[j]).realizada_em.before((#[trigger] start.transacoes[i]).realizada_em) by {
            assert(not_before_any(now.committed[j].realizada_em, start.transacoes));
        }
    }
    lemma_statement_follows_history(start, now.committed);
}

/// How many courses of `courses` have had their transaction applied.
pub open spec fn applied(courses: Seq<Course>) -> nat
    decreases courses.len(),
{
    if courses.len() == 0 {
        0
    } else if courses.last().mutation.phase is Committed {
        applied(courses.drop_last()) + 1
    } else {
        applied(courses.drop_last())
    }
}

/// A course that moves changes the number of applied ones by itself alone.
pub proof fn lemma_applied_update(courses: Seq<Course>, i: int, next: Course)
    requires
        0 <= i < courses.len(),
    ensures
        applied(courses.update(i, next)) + (if courses[i].mutation.phase is Committed {
            1nat
        } else {
            0nat
        }) == applied(courses) + (if next.mutation.phase is Committed {
            1nat
        } else {
            0nat
        }),
    decreases courses.len(),
{
    let updated = courses.update(i, next);
    if i == courses.len() - 1 {
        assert(updated.drop_last() =~= courses.drop_last());
    } else {
        lemma_applied_update(courses.drop_last(), i, next);
        assert(updated.drop_last() =~= courses.drop_last().update(i, next));
    }
}

/// Where every course has had its transaction applied, the applied are all.
pub proof fn lemma_applied_all(courses: Seq<Course>)
    requires
        forall|j: int| 0 <= j < courses.len() ==> (#[trigger] courses[j]).mutation.phase is Committed,
    ensures
        applied(courses) == courses.len(),
    decreases courses.len(),
{
    if courses.len() > 0 {
        assert forall|j: int| 0 <= j < courses.drop_last().len() implies (
        #[trigger] courses.drop_last()[j]).mutation.phase is Committed by {
            assert(courses.drop_last()[j] == courses[j]);
        }
        lemma_applied_all(courses.drop_last());
    }
}

/// So many amounts of `valor` stay within `limite` exactly where their
/// number is at most `limite / valor`.
pub proof fn lemma_within_limit(count: int, valor: int, limite: int)
    requires
        count >= 0,
        valor > 0,
        limite >= 0,
    ensures
        count * valor <= limite <==> count <= limite / valor,
        count * valor >= 0,
{
    let most = limite / valor;
    assert(0 <= most && most * valor <= limite < (most + 1) * valor) by (nonlinear_arith)
        requires
            limite >= 0,
            valor > 0,
            most == limite / valor,
    ;
    assert(count * valor >= 0) by (nonlinear_arith)
        requires
            count >= 0,
            valor > 0,
    ;
    if count <= most {
        assert(count * valor <= most * valor) by (nonlinear_arith)
            requires
                count <= most,
                valor > 0,
        ;
    } else {
        assert(count * valor >= (most + 1) * valor) by (nonlinear_arith)
            requires
                count >= most + 1,
                valor > 0,
        ;
    }
}

impl Shared {
    /// Equal debits of `valor` contend for an account that owed nothing at
    /// `start`: the account owes the amounts of those committed, which stay
    /// within the limit; as many courses are applied as transactions are
    /// committed; and a course was refused only for want of funds, when one
    /// more debit would have passed the limit.
    pub open spec fn contended(self, start: ContaView, valor: i32) -> bool {
        &&& self.sound(start)
        &&& forall|j: int|
            0 <= j < self.courses.len() ==> {
                &&& (#[trigger] self.courses[j]).mutation.cliente_id == self.conta.cliente_id
                &&& self.courses[j].mutation.transacao.tipo == TipoTransacao::DEBITO
                &&& self.courses[j].mutation.transacao.valor == valor
            }
        &&& self.conta.saldo.total == -(self.committed.len() * valor)
        &&& self.committed.len() * valor <= start.saldo.limite
        &&& self.conta.transacoes.len() == start.transacoes.len() + self.committed.len()
        &&& self.conta.saldo.limite == start.saldo.limite
        &&& applied(self.courses) == self.committed.len()
        &&& forall|j: int|
            0 <= j < self.courses.len() ==> ((#[trigger] self.courses[j]).mutation.phase matches Phase::Aborted(
                error,
            ) ==> error == PersistenceError::NotEnoughFunds && (self.committed.len() + 1) * valor
                > start.saldo.limite)
    }
}

/// A move that the store serves keeps equal debits contending as they do.
pub proof fn lemma_move_keeps_contended(start: ContaView, shared: Shared, valor: i32, mv: Move)
    requires
        start.saldo.total == 0,
        start.saldo.limite >= 0,
        valor > 0,
        start.transacoes.len() + (start.saldo.limite as int) / (valor as int) <= i32::MAX,
        shared.contended(start, valor),
        shared.allows(mv),
        mv.turn is Served,
    ensures
        shared.after(mv).contended(start, valor),
{
    let after = shared.after(mv);
    let i = mv.course;
    let course = shared.courses[i];
    let count = shared.committed.len() as int;
    let d = valor as int;
    let limite = start.saldo.limite as int;
    lemma_move_keeps_sound(start, shared, mv);
    assert(shared.fits(i));
    lemma_within_limit(count, d, limite);
    lemma_within_limit(count + 1, d, limite);
    assert((count + 1) * d == count * d + d) by (nonlinear_arith);
    assert((count + 2) * d == count * d + 2 * d) by (nonlinear_arith);
    lemma_applied_update(shared.courses, i, after.courses[i]);
    assert forall|j: int| 0 <= j < after.courses.len() implies {
        &&& (#[trigger] after.courses[j]).mutation.cliente_id == after.conta.cliente_id
        &&& after.courses[j].mutation.transacao.tipo == TipoTransacao::DEBITO
        &&& after.courses[j].mutation.transacao.valor == valor
    } by {
        assert(shared.courses[j].mutation.transacao.valor == valor);
    }
    assert forall|j: int| 0 <= j < after.courses.len() implies ((#[trigger] after.courses[j]).mutation.phase matches Phase::Aborted(
        error,
    ) ==> error == PersistenceError::NotEnoughFunds && (after.committed.len() + 1) * valor
        > start.saldo.limite) by {
        assert(shared.courses[j].mutation.transacao.valor == valor);
        if j != i {
            assert(after.courses[j] == shared.courses[j]);
        }
    }
}

/// Debits that contend for one account, in any order. Of any number of
/// debits of one positive amount `valor`, asked at once of an account that
/// owes nothing and served by the store in whatever order, with nothing
/// failing on the way: once all courses have ended, as many were applied as
/// fit under the limit, `limite / valor` where that many were asked; each of
/// the others was refused for want of funds; and the total is minus the
/// amount of those applied.
pub proof fn lemma_contended_debits_in_any_order(
    start: ContaView,
    asked: Seq<NewTransacao>,
    valor: i32,
    moves: Seq<Move>,
)
    requires
        start.saldo.total == 0,
        start.saldo.limite >= 0,
        valor > 0,
        forall|i: int|
            0 <= i < asked.len() ==> (#[trigger] asked[i]).tipo == TipoTransacao::DEBITO && asked[i].valor
                == valor,
        start.transacoes.len() + (start.saldo.limite as int) / (valor as int) <= i32::MAX,
        Shared::opened(start, asked).admits(moves),
        forall|k: int| 0 <= k < moves.len() ==> (#[trigger] moves[k]).turn is Served,
    ensures
        ({
            let end = Shared::opened(start, asked).run(moves);
            let taken = debits_taken(asked.len(), start.saldo.limite as int, valor as int);
            &&& end.contended(start, valor)
            &&& end.courses.len() == asked.len()
            &&& (forall|j: int| 0 <= j < end.courses.len() ==> (#[trigger] end.courses[j]).asks is Finish) ==> {
                &&& applied(end.courses) == taken
                &&& end.committed.len() == taken
                &&& end.conta.saldo.total == -(taken * valor)
                &&& asked.len() >= (start.saldo.limite as int) / (valor as int) ==> taken == (
                start.saldo.limite as int) / (valor as int)
                &&& forall|j: int|
                    0 <= j < end.courses.len() ==> (#[trigger] end.courses[j]).mutation.phase is Committed
                        || end.courses[j].mutation.phase == Phase::Aborted(PersistenceError::NotEnoughFunds)
            }
        }),
    decreases moves.len(),
{
    let opened = Shared::opened(start, asked);
    let d = valor as int;
    let limite = start.saldo.limite as int;
    if moves.len() == 0 {
        lemma_serial(start, asked, moves);
        assert(0 * d == 0) by (nonlinear_arith);
        lemma_applied_none(opened.courses);
    } else {
        let earlier = moves.drop_last();
        assert forall|k: int| 0 <= k < earlier.len() implies (#[trigger] earlier[k]).turn is Served by {
            assert(earlier[k] == moves[k]);
        }
        lemma_contended_debits_in_any_order(start, asked, valor, earlier);
        assert(moves.last() == moves[moves.len() - 1]);
        lemma_move_keeps_contended(start, opened.run(earlier), valor, moves.last());
    }
    let end = opened.run(moves);
    let count = end.committed.len() as int;
    lemma_within_limit(count, d, limite);
    lemma_within_limit(count + 1, d, limite);
    if forall|j: int| 0 <= j < end.courses.len() ==> (#[trigger] end.courses[j]).asks is Finish {
        assert forall|j: int| 0 <= j < end.courses.len() implies (#[trigger] end.courses[j]).mutation.phase is Committed
            || end.courses[j].mutation.phase == Phase::Aborted(PersistenceError::NotEnoughFunds) by {
            assert(end.fits(j));
        }
        if forall|j: int| 0 <= j < end.courses.len() ==> (#[trigger] end.courses[j]).mutation.phase is Committed {
            lemma_applied_all(end.courses);
        } else {
            let j = choose|j: int|
                0 <= j < end.courses.len() && !((#[trigger] end.courses[j]).mutation.phase is Committed);
            assert(end.courses[j].mutation.phase == Phase::Aborted(PersistenceError::NotEnoughFunds));
            lemma_applied_most(end.courses);
        }
    }
}

/// Where no course has begun, none is applied.
pub proof fn lemma_applied_none(courses: Seq<Course>)
    requires
        forall|j: int| 0 <= j < courses.len() ==> (#[trigger] courses[j]).mutation.phase is New,
    ensures
        applied(courses) == 0,
    decreases courses.len(),
{
    if courses.len() > 0 {
        assert forall|j: int| 0 <= j < courses.drop_last().len() implies (
        #[trigger] courses.drop_last()[j]).mutation.phase is New by {
            assert(courses.drop_last()[j] == courses[j]);
        }
        lemma_applied_none(courses.drop_last());
    }
}

/// There are no more courses applied than there are courses.
pub proof fn lemma_applied_most(courses: Seq<Course>)
    ensures
        applied(courses) <= courses.len(),
    decreases courses.len(),
{
    if courses.len() > 0 {
        lemma_applied_most(courses.drop_last());
    }
}

} // verus!
