use contas::clock::Timestamp;
use contas::contention::{Contention, Turn};
use contas::ledger::Conta;
use contas::models::saldo::NewSaldo;
use contas::models::transacao::{Descricao, NewTransacao, TipoTransacao, TransacaoResponse};
use contas::persistence::{Fault, PersistenceError};

fn at(secs: i64) -> Timestamp {
    Timestamp { secs, nanos: 0 }
}

fn conta(total: i32, limite: i32) -> Conta {
    Conta::new(1, 1, NewSaldo { total, limite }, at(0))
}

fn pedido(valor: i32, tipo: TipoTransacao) -> NewTransacao {
    NewTransacao { valor, tipo, descricao: Descricao::try_from("mov".to_string()).unwrap() }
}

fn debits(n: usize, valor: i32) -> Vec<NewTransacao> {
    (0..n).map(|_| pedido(valor, TipoTransacao::DEBITO)).collect()
}

fn ended(contention: &Contention) -> bool {
    (0..contention.len()).all(|course| contention.outcome(course).is_some())
}

/// Serves the courses in the order that `pick` gives until all have ended.
fn run(contention: &mut Contention, mut pick: impl FnMut(usize) -> usize) {
    let mut step = 0;
    while !ended(contention) {
        let course = pick(step) % contention.len();
        step += 1;
        contention.take_turn(course, Turn::Served, at(step as i64));
        assert!(step < 100_000);
    }
}

/// An order that jumps about: the numbers of a linear congruential sequence.
fn shuffled(seed: u64) -> impl FnMut(usize) -> usize {
    let mut state = seed;
    move |_| {
        state = state.wrapping_mul(6364136223846793005).wrapping_add(1442695040888963407);
        (state >> 33) as usize
    }
}

fn count(contention: &Contention) -> (usize, usize) {
    let mut applied = 0;
    let mut short = 0;
    for course in 0..contention.len() {
        match contention.outcome(course) {
            Some(Ok(_)) => applied += 1,
            Some(Err(PersistenceError::NotEnoughFunds)) => short += 1,
            other => panic!("{:?}", other),
        }
    }
    (applied, short)
}

#[test]
fn a_course_waits_while_another_holds_the_lock() {
    let mut contention = Contention::open(conta(0, 100), debits(2, 60));
    assert!(contention.take_turn(1, Turn::Served, at(1)));
    assert!(!contention.take_turn(0, Turn::Served, at(2)));
    assert!(contention.take_turn(1, Turn::Served, at(3)));
    assert!(!contention.take_turn(0, Turn::Served, at(4)));
    assert!(contention.take_turn(1, Turn::Served, at(5)));
    assert_eq!(contention.conta().saldo.total, 0);
    assert!(contention.take_turn(1, Turn::Served, at(6)));
    assert_eq!(contention.conta().saldo.total, -60);
    assert_eq!(contention.outcome(1), Some(Ok(TransacaoResponse { limite: 100, saldo: -60 })));
    assert!(!contention.take_turn(1, Turn::Served, at(7)));

    assert_eq!(contention.outcome(0), None);
    assert!(contention.take_turn(0, Turn::Served, at(8)));
    assert!(contention.take_turn(0, Turn::Served, at(9)));
    assert_eq!(contention.outcome(0), Some(Err(PersistenceError::NotEnoughFunds)));
    assert!(contention.take_turn(0, Turn::Served, at(10)));
    assert!(!contention.take_turn(0, Turn::Served, at(11)));
    assert_eq!(contention.conta().saldo.total, -60);
    assert_eq!(contention.conta().transacoes.len(), 1);
    assert_eq!(contention.conta().transacoes[0].realizada_em, at(3));
}

#[test]
fn contended_debits_stop_at_the_limit_in_any_order() {
    for seed in 0..20 {
        let mut contention = Contention::open(conta(0, 1000), debits(10, 300));
        run(&mut contention, shuffled(seed));
        assert_eq!(count(&contention), (3, 7));
        assert_eq!(contention.conta().saldo.total, -900);
        assert_eq!(contention.conta().transacoes.len(), 3);
    }
    let mut in_turn = Contention::open(conta(0, 1000), debits(10, 300));
    run(&mut in_turn, |step| step);
    assert_eq!(count(&in_turn), (3, 7));
    let mut backwards = Contention::open(conta(0, 1000), debits(10, 300));
    run(&mut backwards, |step| 9 - step % 10);
    assert_eq!(count(&backwards), (3, 7));
    assert_eq!(backwards.conta().saldo.total, -900);
}

#[test]
fn fewer_debits_than_fit_are_all_applied() {
    let mut contention = Contention::open(conta(0, 1000), debits(3, 250));
    run(&mut contention, shuffled(7));
    assert_eq!(count(&contention), (3, 0));
    assert_eq!(contention.conta().saldo.total, -750);
}

#[test]
fn each_client_is_answered_in_the_order_of_the_commits() {
    let asked = vec![
        pedido(500, TipoTransacao::DEBITO),
        pedido(200, TipoTransacao::CREDITO),
        pedido(700, TipoTransacao::DEBITO),
        pedido(100, TipoTransacao::DEBITO),
    ];
    let mut contention = Contention::open(conta(0, 1000), asked);
    run(&mut contention, shuffled(42));

    let mut serial = conta(0, 1000);
    for transacao in contention.conta().transacoes.iter() {
        let again = NewTransacao { valor: transacao.valor, tipo: transacao.tipo, descricao: transacao.descricao.clone() };
        let answer = serial.create_transacao(again, transacao.realizada_em).unwrap();
        let told = (0..contention.len()).filter(|course| contention.outcome(*course) == Some(Ok(answer))).count();
        assert_eq!(told, 1);
    }
    assert_eq!(serial.saldo, contention.conta().saldo);
    assert_eq!(serial.transacoes.len(), contention.conta().transacoes.len());
    assert!(contention.conta().saldo.total >= -1000);
}

#[test]
fn a_course_that_fails_leaves_nothing_behind() {
    let mut contention = Contention::open(conta(0, 100), debits(2, 60));
    assert!(contention.take_turn(0, Turn::Served, at(1)));
    assert!(contention.take_turn(0, Turn::Served, at(2)));
    assert!(contention.take_turn(0, Turn::Served, at(3)));
    assert!(contention.take_turn(0, Turn::Failed(PersistenceError::DatabaseError(Fault::Driver)), at(4)));
    assert_eq!(contention.outcome(0), Some(Err(PersistenceError::DatabaseError(Fault::Driver))));
    assert!(!contention.take_turn(1, Turn::Served, at(5)));
    assert!(contention.take_turn(0, Turn::Late, at(6)));
    assert!(!contention.take_turn(0, Turn::Served, at(7)));
    assert_eq!(contention.conta().saldo.total, 0);
    assert!(contention.conta().transacoes.is_empty());

    run(&mut contention, |step| step);
    assert_eq!(contention.outcome(1), Some(Ok(TransacaoResponse { limite: 100, saldo: -60 })));
    assert_eq!(contention.conta().saldo.total, -60);
}

#[test]
fn a_course_given_up_or_late_while_it_waits_never_takes_the_lock() {
    let mut contention = Contention::open(conta(0, 100), debits(3, 10));
    assert!(contention.take_turn(0, Turn::Served, at(1)));
    assert!(contention.take_turn(1, Turn::GivenUp, at(2)));
    assert!(contention.take_turn(2, Turn::Late, at(3)));
    assert_eq!(contention.outcome(1), Some(Err(PersistenceError::DatabaseError(Fault::Cancelled))));
    assert_eq!(contention.outcome(2), Some(Err(PersistenceError::DatabaseError(Fault::Deadline))));
    assert!(!contention.take_turn(1, Turn::Served, at(4)));
    run(&mut contention, |step| step);
    assert_eq!(contention.outcome(0), Some(Ok(TransacaoResponse { limite: 100, saldo: -10 })));
    assert_eq!(contention.conta().transacoes.len(), 1);
}

#[test]
fn there_is_no_turn_for_a_course_that_there_is_not() {
    let mut contention = Contention::open(conta(0, 100), debits(1, 10));
    assert_eq!(contention.len(), 1);
    assert!(!contention.take_turn(1, Turn::Served, at(1)));
    assert_eq!(contention.outcome(1), None);
    assert_eq!(contention.conta().saldo.total, 0);
}
