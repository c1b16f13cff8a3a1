use contas::clock::Timestamp;
use contas::models::saldo::Saldo;
use contas::models::transacao::{Descricao, NewTransacao, TipoTransacao};
use contas::persistence::{Fault, PersistenceError};

fn saldo(total: i32, limite: i32) -> Saldo {
    Saldo { saldo_id: 1, total, limite, data_extrato: Timestamp { secs: 0, nanos: 0 } }
}

fn pedido(valor: i32, tipo: TipoTransacao) -> NewTransacao {
    NewTransacao { valor, tipo, descricao: Descricao::try_from("teste".to_string()).unwrap() }
}

#[test]
fn credit_adds_to_the_total() {
    assert_eq!(saldo(0, 1000).novo_total(&pedido(100, TipoTransacao::CREDITO)), Ok(100));
    assert_eq!(saldo(-1000, 1000).novo_total(&pedido(1, TipoTransacao::CREDITO)), Ok(-999));
}

#[test]
fn debit_takes_from_the_total() {
    assert_eq!(saldo(100, 1000).novo_total(&pedido(30, TipoTransacao::DEBITO)), Ok(70));
    assert_eq!(saldo(0, 1000).novo_total(&pedido(30, TipoTransacao::DEBITO)), Ok(-30));
}

#[test]
fn debit_down_to_the_limit_is_accepted() {
    assert_eq!(saldo(100, 1000).novo_total(&pedido(1100, TipoTransacao::DEBITO)), Ok(-1000));
    assert_eq!(saldo(0, 0).novo_total(&pedido(0, TipoTransacao::DEBITO)), Ok(0));
}

#[test]
fn debit_one_below_the_limit_is_refused() {
    assert_eq!(
        saldo(100, 1000).novo_total(&pedido(1101, TipoTransacao::DEBITO)),
        Err(PersistenceError::NotEnoughFunds)
    );
    assert_eq!(
        saldo(-1000, 1000).novo_total(&pedido(1, TipoTransacao::DEBITO)),
        Err(PersistenceError::NotEnoughFunds)
    );
    assert_eq!(saldo(0, 0).novo_total(&pedido(1, TipoTransacao::DEBITO)), Err(PersistenceError::NotEnoughFunds));
}

#[test]
fn credit_past_the_stored_width_is_out_of_range() {
    assert_eq!(
        saldo(i32::MAX, 1000).novo_total(&pedido(1, TipoTransacao::CREDITO)),
        Err(PersistenceError::DatabaseError(Fault::OutOfRange))
    );
    assert_eq!(
        saldo(1, 1000).novo_total(&pedido(i32::MAX, TipoTransacao::CREDITO)),
        Err(PersistenceError::DatabaseError(Fault::OutOfRange))
    );
    assert_eq!(saldo(0, 1000).novo_total(&pedido(i32::MAX, TipoTransacao::CREDITO)), Ok(i32::MAX));
}

#[test]
fn debit_never_wraps() {
    assert_eq!(
        saldo(i32::MIN, i32::MAX).novo_total(&pedido(i32::MAX, TipoTransacao::DEBITO)),
        Err(PersistenceError::NotEnoughFunds)
    );
    assert_eq!(
        saldo(0, i32::MAX).novo_total(&pedido(i32::MAX, TipoTransacao::DEBITO)),
        Ok(-i32::MAX)
    );
}

#[test]
fn transaction_of_no_kind_is_refused() {
    assert_eq!(saldo(0, 1000).novo_total(&pedido(1, TipoTransacao::ERROR)), Err(PersistenceError::NotEnoughFunds));
}

#[test]
fn the_balance_itself_is_left_alone() {
    let before = saldo(5, 10);
    let _ = before.novo_total(&pedido(3, TipoTransacao::DEBITO));
    assert_eq!(before, saldo(5, 10));
}
