//! Many transactions under way at once on one account.
//!
//! Each transaction takes its own course, and the store serves the courses
//! in whatever order they come to it. The lock on the balance lets one
//! course at a time between its begin and its end.

use crate::clock::Timestamp;
use crate::ledger::{Conta, ContaView, Request};
use crate::memory::Staged;
use crate::models::transacao::{NewTransacao, TransacaoResponse};
use crate::mutator::{Action, Event, Mutation};
use crate::persistence::{Fault, PersistenceError, PersistenceResult};
use vstd::prelude::*;

verus! {

/// A transaction on its course together with what it asks of the store next.
#[derive(Debug)]
pub struct Course {
    pub mutation: Mutation,
    pub asks: Action,
}

/// What befalls a course when its turn comes.
#[derive(Clone, Copy, Debug, PartialEq, Eq, Structural)]
pub enum Turn {
    /// The store performs what the course asks.
    Served,
    /// The store fails.
    Failed(PersistenceError),
    /// The deadline of the request has passed.
    Late,
    /// The client has given the request up.
    GivenUp,
}

/// One step of one course, at an instant.
pub struct Move {
    pub course: int,
    pub turn: Turn,
    pub at: Timestamp,
}

/// One account with the courses under way on it.
pub struct Shared {
    /// The account as it is committed.
    pub conta: ContaView,
    /// The course that holds the lock on the balance.
    pub holder: Option<int>,
    /// What the holder has written and not yet committed.
    pub staged: Option<Staged>,
    /// The courses, ended or not.
    pub courses: Seq<Course>,
    /// What was committed, in the order of the commits.
    pub committed: Seq<Request>,
}

impl Shared {
    /// The account `conta` with a course begun for each transaction of
    /// `asked` and nothing served yet.
    pub open spec fn opened(conta: ContaView, asked: Seq<NewTransacao>) -> Shared {
        Shared {
            conta,
            holder: None,
            staged: None,
            courses: Seq::new(
                asked.len(),
                |i: int|
                    Course {
                        mutation: Mutation::started(conta.cliente_id, asked[i]),
                        asks: Action::Begin { cliente_id: conta.cliente_id },
                    },
            ),
            committed: Seq::empty(),
        }
    }

    /// The store after it performed what course `i` asks, and what it
    /// answered. The lock is taken with the begin and given back with the
    /// commit or the rollback; a write is held back until the commit, which
    /// alone changes the account.
    pub open spec fn served(self, i: int) -> (Shared, Option<Event>) {
        match self.courses[i].asks {
            Action::Begin { cliente_id } => if cliente_id == self.conta.cliente_id {
                (
                    Shared {
                        conta: self.conta,
                        holder: Some(i),
                        staged: self.staged,
                        courses: self.courses,
                        committed: self.committed,
                    },
                    Some(Event::Begun),
                )
            } else {
                (self, Some(Event::Begun))
            },
            Action::ReadBalance { cliente_id } => if cliente_id == self.conta.cliente_id {
                (self, Some(Event::BalanceRead(Some(self.conta.saldo))))
            } else {
                (self, Some(Event::BalanceRead(None)))
            },
            Action::Store { cliente_id, saldo_id, novo_total, transacao, realizada_em } => if self.holder != Some(
                i,
            ) {
                (self, Some(Event::Failed(PersistenceError::DatabaseError(Fault::Protocol))))
            } else if !self.conta.has_room() {
                (self, Some(Event::Failed(PersistenceError::DatabaseError(Fault::OutOfRange))))
            } else {
                (
                    Shared {
                        conta: self.conta,
                        holder: self.holder,
                        staged: Some(Staged { cliente_id, novo_total, transacao, realizada_em }),
                        courses: self.courses,
                        committed: self.committed,
                    },
                    Some(Event::Stored),
                )
            },
            Action::Commit => match self.staged {
                Some(staged) => if self.holder == Some(i) && !self.conta.has_room() {
                    (self, Some(Event::Failed(PersistenceError::DatabaseError(Fault::OutOfRange))))
                } else if self.holder == Some(i) {
                    (
                        Shared {
                            conta: self.conta.stored(staged.novo_total, staged.transacao, staged.realizada_em),
                            holder: None,
                            staged: None,
                            courses: self.courses,
                            committed: self.committed.push(
                                Request { transacao: staged.transacao, realizada_em: staged.realizada_em },
                            ),
                        },
                        Some(Event::Confirmed),
                    )
                } else {
                    (self, Some(Event::Failed(PersistenceError::DatabaseError(Fault::Protocol))))
                },
                None => (self, Some(Event::Failed(PersistenceError::DatabaseError(Fault::Protocol)))),
            },
            Action::Rollback => if self.holder == Some(i) {
                (
                    Shared {
                        conta: self.conta,
                        holder: None,
                        staged: None,
                        courses: self.courses,
                        committed: self.committed,
                    },
                    None,
                )
            } else {
                (self, None)
            },
            Action::Finish => (self, None),
        }
    }

    /// The move can be made: the course has not ended, and it is not waiting
    /// for a lock that another course holds.
    pub open spec fn allows(self, mv: Move) -> bool {
        &&& 0 <= mv.course < self.courses.len()
        &&& !(self.courses[mv.course].asks is Finish)
        &&& mv.turn is Served && self.waits_for_lock(mv.course) ==> self.holder is None
    }

    /// Course `i` asks for the lock on the balance of the account.
    pub open spec fn waits_for_lock(self, i: int) -> bool {
        self.courses[i].asks == (Action::Begin { cliente_id: self.conta.cliente_id })
    }

    /// What the course meets on its move: what the store answers, or what
    /// befalls the course instead. A rollback is always performed.
    pub open spec fn met(self, mv: Move) -> (Shared, Option<Event>) {
        if self.courses[mv.course].asks is Rollback {
            self.served(mv.course)
        } else {
            match mv.turn {
                Turn::Served => self.served(mv.course),
                Turn::Failed(error) => (self, Some(Event::Failed(error))),
                Turn::Late => (self, Some(Event::DeadlineExceeded)),
                Turn::GivenUp => (self, Some(Event::Cancelled)),
            }
        }
    }

    /// The account and its courses after the move.
    pub open spec fn after(self, mv: Move) -> Shared {
        let course = self.courses[mv.course];
        let met = self.met(mv);
        let next = match met.1 {
            Some(event) => Course {
                mutation: course.mutation.next(event, mv.at).0,
                asks: course.mutation.next(event, mv.at).1,
            },
            None => Course { mutation: course.mutation, asks: Action::Finish },
        };
        Shared {
            conta: met.0.conta,
            holder: met.0.holder,
            staged: met.0.staged,
            courses: self.courses.update(mv.course, next),
            committed: met.0.committed,
        }
    }

    /// The account and its courses after the moves of `moves`, one after the
    /// other.
    pub open spec fn run(self, moves: Seq<Move>) -> Shared
        decreases moves.len(),
    {
        if moves.len() == 0 {
            self
        } else {
            self.run(moves.drop_last()).after(moves.last())
        }
    }

    /// Each move of `moves` can be made when its turn comes.
    pub open spec fn admits(self, moves: Seq<Move>) -> bool
        decreases moves.len(),
    {
        moves.len() == 0 || (self.admits(moves.drop_last()) && self.run(moves.drop_last()).allows(
            moves.last(),
        ))
    }
}

/// One account in memory with the courses under way on it, to be served in
/// any order.
pub struct Contention {
    conta: Conta,
    holder: Option<usize>,
    staged: Option<Staged>,
    courses: Vec<Course>,
    committed: Ghost<Seq<Request>>,
}

impl View for Contention {
    type V = Shared;

    closed spec fn view(&self) -> Shared {
        Shared {
            conta: self.conta@,
            holder: match self.holder {
                Some(i) => Some(i as int),
                None => None,
            },
            staged: self.staged,
            courses: self.courses@,
            committed: self.committed@,
        }
    }
}

impl Contention {
    /// Begins a course on `conta` for each transaction of `asked`.
    pub fn open(conta: Conta, asked: Vec<NewTransacao>) -> (contention: Contention)
        ensures
            contention@ == Shared::opened(conta@, asked@),
    {
        let mut courses: Vec<Course> = Vec::new();
        let mut i: usize = 0;
        while i < asked.len()
            invariant
                i <= asked@.len(),
                courses@.len() == i,
                forall|k: int|
                    0 <= k < i ==> #[trigger] courses@[k] == (Course {
                        mutation: Mutation::started(conta.cliente_id, asked@[k]),
                        asks: Action::Begin { cliente_id: conta.cliente_id },
                    }),
            decreases asked@.len() - i,
        {
            let (mutation, asks) = Mutation::new(conta.cliente_id, asked[i].clone());
            courses.push(Course { mutation, asks });
            i += 1;
        }
        let contention = Contention { conta, holder: None, staged: None, courses, committed: Ghost(Seq::empty()) };
        assert(contention@.courses =~= Shared::opened(conta@, asked@).courses);
        contention
    }

    /// The account as it is committed.
    pub fn conta(&self) -> (conta: &Conta)
        ensures
            conta@ == self@.conta,
    {
        &self.conta
    }

    /// How many courses there are, ended or not.
    pub fn len(&self) -> (n: usize)
        ensures
            n == self@.courses.len(),
    {
        self.courses.len()
    }

    /// What the client of course `course` is told, once that course has
    /// ended; nothing of a course that there is not.
    pub fn outcome(&self, course: usize) -> (r: Option<PersistenceResult<TransacaoResponse>>)
        ensures
            r == if course < self@.courses.len() {
                self@.courses[course as int].mutation.result()
            } else {
                None
            },
    {
        if course < self.courses.len() {
            self.courses[course].mutation.outcome()
        } else {
            None
        }
    }

    /// Performs what course `i` asks of the store.
    fn serve(&mut self, i: usize) -> (event: Option<Event>)
        requires
            i < old(self)@.courses.len(),
        ensures
            (final(self)@, event) == old(self)@.served(i as int),
    {
        let asks = self.courses[i].asks.clone();
        match asks {
            Action::Begin { cliente_id } => {
                if cliente_id == self.conta.cliente_id {
                    self.holder = Some(i);
                }
                Some(Event::Begun)
            },
            Action::ReadBalance { cliente_id } => {
                if cliente_id == self.conta.cliente_id {
                    Some(Event::BalanceRead(Some(self.conta.saldo)))
                } else {
                    Some(Event::BalanceRead(None))
                }
            },
            Action::Store { cliente_id, saldo_id, novo_total, transacao, realizada_em } => {
                let holds = match self.holder {
                    Some(h) => h == i,
                    None => false,
                };
                if !holds {
                    Some(Event::Failed(PersistenceError::DatabaseError(Fault::Protocol)))
                } else if self.conta.transacoes.len() >= i32::MAX as usize {
                    Some(Event::Failed(PersistenceError::DatabaseError(Fault::OutOfRange)))
                } else {
                    self.staged = Some(Staged { cliente_id, novo_total, transacao, realizada_em });
                    Some(Event::Stored)
                }
            },
            Action::Commit => {
                let holds = match self.holder {
                    Some(h) => h == i,
                    None => false,
                };
                if !holds || self.staged.is_none() {
                    return Some(Event::Failed(PersistenceError::DatabaseError(Fault::Protocol)));
                }
                if self.conta.transacoes.len() >= i32::MAX as usize {
                    return Some(Event::Failed(PersistenceError::DatabaseError(Fault::OutOfRange)));
                }
                let staged = self.staged.take().unwrap();
                self.holder = None;
                self.committed = Ghost(
                    self.committed@.push(
                        Request { transacao: staged.transacao, realizada_em: staged.realizada_em },
                    ),
                );
                let _ = self.conta.store(staged.novo_total, staged.transacao, staged.realizada_em);
                Some(Event::Confirmed)
            },
            Action::Rollback => {
                let holds = match self.holder {
                    Some(h) => h == i,
                    None => false,
                };
                if holds {
                    self.holder = None;
                    self.staged = None;
                }
                None
            },
            Action::Finish => None,
        }
    }

    /// Gives course `course` its turn at the instant `at`, where it can take
    /// one: the course has not ended and is not kept waiting for the lock.
    /// Says whether the turn was taken.
    pub fn take_turn(&mut self, course: usize, turn: Turn, at: Timestamp) -> (taken: bool)
        ensures
            taken == old(self)@.allows(Move { course: course as int, turn, at }),
            taken ==> final(self)@ == old(self)@.after(Move { course: course as int, turn, at }),
            !taken ==> final(self)@ == old(self)@,
    {
        if course >= self.courses.len() {
            return false;
        }
        let asks = self.courses[course].asks.clone();
        let served = match turn {
            Turn::Served => true,
            _ => false,
        };
        match asks {
            Action::Finish => {
                return false;
            },
            Action::Begin { cliente_id } => {
                if served && cliente_id == self.conta.cliente_id && self.holder.is_some() {
                    return false;
                }
            },
            _ => {},
        }
        let rollback = match asks {
            Action::Rollback => true,
            _ => false,
        };
        let event = if rollback {
            self.serve(course)
        } else {
            match turn {
                Turn::Served => self.serve(course),
                Turn::Failed(error) => Some(Event::Failed(error)),
                Turn::Late => Some(Event::DeadlineExceeded),
                Turn::GivenUp => Some(Event::Cancelled),
            }
        };
        match event {
            Some(event) => {
                let next = self.courses[course].mutation.step(event, at);
                self.courses[course].asks = next;
            },
            None => {
                self.courses[course].asks = Action::Finish;
            },
        }
        assert(self@.courses =~= old(self)@.after(Move { course: course as int, turn, at }).courses);
        true
    }
}

} // verus!
