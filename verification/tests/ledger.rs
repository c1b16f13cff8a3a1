use contas::boundary::{admit_transacao, create_transacao, get_cliente, StatusCode};
use contas::clock::Timestamp;
use contas::ledger::Conta;
use contas::models::cliente::statement_at;
use contas::models::saldo::NewSaldo;
use contas::models::transacao::{Descricao, NewTransacao, TipoTransacao, TransacaoResponse};
use contas::persistence::{Fault, PersistenceError};
use contas::validation::RawPost;

fn at(secs: i64) -> Timestamp {
    Timestamp { secs, nanos: 0 }
}

fn conta(total: i32, limite: i32) -> Conta {
    Conta::new(1, 1, NewSaldo { total, limite }, at(0))
}

fn pedido(valor: i32, tipo: TipoTransacao, descricao: &str) -> NewTransacao {
    NewTransacao { valor, tipo, descricao: Descricao::try_from(descricao.to_string()).unwrap() }
}

fn body(valor: i64, tipo: &str, descricao: &str) -> RawPost {
    RawPost { valor: Some(valor), tipo: Some(tipo.to_string()), descricao: Some(descricao.to_string()) }
}

fn post(conta: &mut Conta, valor: i64, tipo: &str, descricao: &str, now: Timestamp) -> Result<TransacaoResponse, StatusCode> {
    let (_, transacao) = admit_transacao("1", body(valor, tipo, descricao))?;
    create_transacao(conta.create_transacao(transacao, now))
}

#[test]
fn a_new_account_holds_what_it_was_opened_with() {
    let conta = conta(0, 1000);
    assert_eq!(conta.cliente_id, 1);
    assert_eq!(conta.saldo.total, 0);
    assert_eq!(conta.saldo.limite, 1000);
    assert!(conta.transacoes.is_empty());
}

#[test]
fn scenario_credit_is_applied() {
    let mut conta = conta(0, 1000);
    assert_eq!(post(&mut conta, 100, "c", "pay", at(1)), Ok(TransacaoResponse { limite: 1000, saldo: 100 }));
}

#[test]
fn scenario_debit_past_the_limit_leaves_the_account_as_it_was() {
    let mut conta = conta(0, 1000);
    post(&mut conta, 100, "c", "pay", at(1)).unwrap();
    assert_eq!(post(&mut conta, 1200, "d", "rent", at(2)), Err(StatusCode::UnprocessableEntity));
    let extrato = conta.extrato(at(3));
    assert_eq!(extrato.saldo.total, 100);
    assert_eq!(extrato.saldo.limite, 1000);
    assert_eq!(extrato.ultimas_transacoes.unwrap().len(), 1);
}

#[test]
fn scenario_debit_down_to_the_limit_is_applied() {
    let mut conta = conta(0, 1000);
    post(&mut conta, 100, "c", "pay", at(1)).unwrap();
    assert_eq!(post(&mut conta, 1100, "d", "rent", at(2)), Ok(TransacaoResponse { limite: 1000, saldo: -1000 }));
}

#[test]
fn scenario_debit_at_the_limit_is_refused() {
    let mut conta = conta(0, 1000);
    post(&mut conta, 100, "c", "pay", at(1)).unwrap();
    post(&mut conta, 1100, "d", "rent", at(2)).unwrap();
    assert_eq!(post(&mut conta, 1, "d", "x", at(3)), Err(StatusCode::UnprocessableEntity));
    assert_eq!(conta.saldo.total, -1000);
    assert_eq!(conta.transacoes.len(), 2);
}

#[test]
fn scenario_empty_description_is_refused() {
    let mut conta = conta(0, 1000);
    assert_eq!(post(&mut conta, 50, "c", "", at(1)), Err(StatusCode::UnprocessableEntity));
    assert_eq!(conta.saldo.total, 0);
    assert!(conta.transacoes.is_empty());
}

#[test]
fn scenario_statement_of_unknown_account_is_not_found() {
    let found = statement_at(424242, None, Vec::new(), at(1));
    assert!(matches!(found, Err(PersistenceError::IdDoesNotExist)));
    assert!(matches!(get_cliente(found), Err(StatusCode::NotFound)));
}

#[test]
fn scenarios_in_a_row() {
    let mut conta = conta(0, 1000);
    assert_eq!(post(&mut conta, 100, "c", "pay", at(1)), Ok(TransacaoResponse { limite: 1000, saldo: 100 }));
    assert_eq!(post(&mut conta, 1200, "d", "rent", at(2)), Err(StatusCode::UnprocessableEntity));
    let extrato = conta.extrato(at(3));
    assert_eq!(extrato.saldo.total, 100);
    assert_eq!(extrato.ultimas_transacoes.unwrap().len(), 1);
    assert_eq!(post(&mut conta, 1100, "d", "rent", at(4)), Ok(TransacaoResponse { limite: 1000, saldo: -1000 }));
    assert_eq!(post(&mut conta, 1, "d", "x", at(5)), Err(StatusCode::UnprocessableEntity));
    assert_eq!(post(&mut conta, 50, "c", "", at(6)), Err(StatusCode::UnprocessableEntity));
    assert_eq!(conta.saldo.total, -1000);
    assert_eq!(conta.transacoes.len(), 2);
}

#[test]
fn an_applied_transaction_is_recorded_last_under_the_next_number() {
    let mut conta = conta(0, 1000);
    conta.create_transacao(pedido(10, TipoTransacao::CREDITO, "um"), at(5)).unwrap();
    conta.create_transacao(pedido(4, TipoTransacao::DEBITO, "dois"), at(6)).unwrap();
    assert_eq!(conta.transacoes.len(), 2);
    let last = &conta.transacoes[1];
    assert_eq!(last.transacao_id, 2);
    assert_eq!(last.valor, 4);
    assert_eq!(last.tipo, TipoTransacao::DEBITO);
    assert_eq!(last.descricao.as_str(), "dois");
    assert_eq!(last.realizada_em, at(6));
    assert_eq!(conta.transacoes[0].transacao_id, 1);
    assert_eq!(conta.transacoes[0].descricao.as_str(), "um");
}

#[test]
fn a_refused_transaction_changes_nothing() {
    let mut conta = conta(5, 10);
    let refused = conta.create_transacao(pedido(16, TipoTransacao::DEBITO, "muito"), at(1));
    assert_eq!(refused, Err(PersistenceError::NotEnoughFunds));
    assert_eq!(conta.saldo.total, 5);
    assert!(conta.transacoes.is_empty());
    let overflow = Conta::new(1, 1, NewSaldo { total: i32::MAX, limite: 0 }, at(0))
        .create_transacao(pedido(1, TipoTransacao::CREDITO, "mais"), at(1));
    assert_eq!(overflow, Err(PersistenceError::DatabaseError(Fault::OutOfRange)));
}

#[test]
fn the_limit_is_honoured_after_every_transaction() {
    let mut conta = conta(0, 500);
    let asked = [
        (300, TipoTransacao::DEBITO),
        (300, TipoTransacao::DEBITO),
        (100, TipoTransacao::CREDITO),
        (301, TipoTransacao::DEBITO),
        (300, TipoTransacao::DEBITO),
        (1, TipoTransacao::DEBITO),
        (0, TipoTransacao::DEBITO),
    ];
    for (k, (valor, tipo)) in asked.into_iter().enumerate() {
        let _ = conta.create_transacao(pedido(valor, tipo, "mov"), at(k as i64));
        assert!(conta.saldo.total >= -conta.saldo.limite);
    }
    assert_eq!(conta.saldo.total, -500);
}

#[test]
fn the_total_is_the_opening_total_plus_credits_minus_debits() {
    let mut conta = conta(40, 100);
    let asked = [
        (25, TipoTransacao::CREDITO),
        (90, TipoTransacao::DEBITO),
        (500, TipoTransacao::DEBITO),
        (7, TipoTransacao::CREDITO),
        (82, TipoTransacao::DEBITO),
        (1, TipoTransacao::DEBITO),
    ];
    for (k, (valor, tipo)) in asked.into_iter().enumerate() {
        let _ = conta.create_transacao(pedido(valor, tipo, "mov"), at(k as i64));
    }
    let credits: i32 = conta.transacoes.iter().filter(|t| t.tipo == TipoTransacao::CREDITO).map(|t| t.valor).sum();
    let debits: i32 = conta.transacoes.iter().filter(|t| t.tipo == TipoTransacao::DEBITO).map(|t| t.valor).sum();
    assert_eq!(credits, 32);
    assert_eq!(debits, 172);
    assert_eq!(conta.saldo.total, 40 + 32 - 172);
    assert_eq!(conta.extrato(at(99)).saldo.total, -100);
}

#[test]
fn contended_debits_stop_at_the_limit() {
    let mut conta = conta(0, 1000);
    let mut applied = 0;
    let mut short = 0;
    for k in 0..10 {
        match conta.create_transacao(pedido(300, TipoTransacao::DEBITO, "saque"), at(k)) {
            Ok(_) => applied += 1,
            Err(PersistenceError::NotEnoughFunds) => short += 1,
            Err(other) => panic!("{:?}", other),
        }
    }
    assert_eq!(applied, 3);
    assert_eq!(short, 7);
    assert_eq!(conta.saldo.total, -900);
    assert_eq!(conta.transacoes.len(), 3);
}

#[test]
fn contended_debits_that_divide_the_limit_use_it_up() {
    let mut conta = conta(0, 1000);
    let applied = (0..7).filter(|k| conta.create_transacao(pedido(250, TipoTransacao::DEBITO, "saque"), at(*k)).is_ok()).count();
    assert_eq!(applied, 4);
    assert_eq!(conta.saldo.total, -1000);
}

#[test]
fn a_statement_lists_the_latest_ten_the_latest_first() {
    let mut conta = conta(0, 1000);
    for k in 1..=12 {
        conta.create_transacao(pedido(k, TipoTransacao::CREDITO, "mov"), at(k as i64)).unwrap();
    }
    let extrato = conta.extrato(at(100));
    assert_eq!(extrato.cliente_id, 1);
    assert_eq!(extrato.saldo.total, 78);
    assert_eq!(extrato.saldo.data_extrato, at(100));
    let listed: Vec<i32> = extrato.ultimas_transacoes.unwrap().iter().map(|t| t.transacao_id).collect();
    assert_eq!(listed, vec![12, 11, 10, 9, 8, 7, 6, 5, 4, 3]);
}

#[test]
fn transactions_of_one_instant_are_listed_by_their_numbers() {
    let mut conta = conta(0, 1000);
    for k in 1..=3 {
        conta.create_transacao(pedido(k, TipoTransacao::CREDITO, "mov"), at(7)).unwrap();
    }
    let listed: Vec<i32> = conta.extrato(at(8)).ultimas_transacoes.unwrap().iter().map(|t| t.transacao_id).collect();
    assert_eq!(listed, vec![3, 2, 1]);
}

#[test]
fn two_statements_in_a_row_differ_only_in_their_instant() {
    let mut conta = conta(0, 1000);
    conta.create_transacao(pedido(5, TipoTransacao::CREDITO, "um"), at(1)).unwrap();
    conta.create_transacao(pedido(3, TipoTransacao::DEBITO, "dois"), at(2)).unwrap();
    let first = conta.extrato(at(10));
    let second = conta.extrato(at(20));
    assert_eq!(first.saldo.total, second.saldo.total);
    assert_eq!(first.saldo.limite, second.saldo.limite);
    let a: Vec<i32> = first.ultimas_transacoes.unwrap().iter().map(|t| t.transacao_id).collect();
    let b: Vec<i32> = second.ultimas_transacoes.unwrap().iter().map(|t| t.transacao_id).collect();
    assert_eq!(a, b);
    assert_eq!(first.saldo.data_extrato, at(10));
    assert_eq!(second.saldo.data_extrato, at(20));
    assert_eq!(conta.transacoes.len(), 2);
}
