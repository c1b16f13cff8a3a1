use contas::boundary::{admit_extrato, admit_transacao, create_transacao, get_cliente, StatusCode};
use contas::clock::Timestamp;
use contas::models::cliente::Cliente;
use contas::models::saldo::{NewSaldo, Saldo};
use contas::models::transacao::{TipoTransacao, TransacaoResponse};
use contas::persistence::{Fault, PersistenceError, StoreFailure};
use contas::procedure::{create_transacao_in_db, ProcedureAnswer};
use contas::validation::{Malformed, RawPost};

fn body(valor: i64, tipo: &str, descricao: &str) -> RawPost {
    RawPost { valor: Some(valor), tipo: Some(tipo.to_string()), descricao: Some(descricao.to_string()) }
}

#[test]
fn statuses_have_their_numbers() {
    assert_eq!(StatusCode::Success.as_u16(), 200);
    assert_eq!(StatusCode::NotFound.as_u16(), 404);
    assert_eq!(StatusCode::UnprocessableEntity.as_u16(), 422);
    assert_eq!(StatusCode::InternalServerError.as_u16(), 500);
}

#[test]
fn failures_have_their_statuses() {
    assert_eq!(StatusCode::from_error(PersistenceError::NotEnoughFunds), StatusCode::UnprocessableEntity);
    assert_eq!(StatusCode::from_error(PersistenceError::IdDoesNotExist), StatusCode::NotFound);
    assert_eq!(StatusCode::from_error(PersistenceError::UniqueViolation), StatusCode::InternalServerError);
    for fault in [Fault::Driver, Fault::OutOfRange, Fault::Deadline, Fault::Cancelled, Fault::Protocol, Fault::Unreadable] {
        assert_eq!(StatusCode::from_error(PersistenceError::DatabaseError(fault)), StatusCode::InternalServerError);
    }
    assert_eq!(StatusCode::from_malformed(Malformed), StatusCode::UnprocessableEntity);
}

#[test]
fn an_applied_transaction_is_answered_with_the_balance() {
    let applied = TransacaoResponse { limite: 1000, saldo: 100 };
    assert_eq!(create_transacao(Ok(applied)), Ok(applied));
}

#[test]
fn a_transaction_that_failed_is_answered_with_its_status() {
    assert_eq!(create_transacao(Err(PersistenceError::NotEnoughFunds)), Err(StatusCode::UnprocessableEntity));
    assert_eq!(create_transacao(Err(PersistenceError::IdDoesNotExist)), Err(StatusCode::NotFound));
    assert_eq!(create_transacao(Err(PersistenceError::UniqueViolation)), Err(StatusCode::InternalServerError));
    assert_eq!(
        create_transacao(Err(PersistenceError::DatabaseError(Fault::Driver))),
        Err(StatusCode::InternalServerError)
    );
}

#[test]
fn a_statement_is_answered_as_it_is() {
    let cliente = Cliente {
        cliente_id: 1,
        saldo: Saldo { saldo_id: 1, total: 7, limite: 9, data_extrato: Timestamp { secs: 1, nanos: 2 } },
        ultimas_transacoes: Some(Vec::new()),
    };
    let answered = get_cliente(Ok(Some(cliente))).unwrap();
    assert_eq!(answered.cliente_id, 1);
    assert_eq!(answered.saldo.total, 7);
    assert_eq!(answered.saldo.limite, 9);
    assert_eq!(answered.saldo.data_extrato, Timestamp { secs: 1, nanos: 2 });
    assert!(answered.ultimas_transacoes.unwrap().is_empty());
}

#[test]
fn an_unknown_account_is_not_found() {
    assert!(matches!(get_cliente(Ok(None)), Err(StatusCode::NotFound)));
    assert!(matches!(get_cliente(Err(PersistenceError::IdDoesNotExist)), Err(StatusCode::NotFound)));
    assert_eq!(create_transacao(Err(PersistenceError::IdDoesNotExist)), Err(StatusCode::NotFound));
}

#[test]
fn a_failure_of_the_store_is_the_servers() {
    assert!(matches!(get_cliente(Err(PersistenceError::UniqueViolation)), Err(StatusCode::InternalServerError)));
    assert!(matches!(
        get_cliente(Err(PersistenceError::DatabaseError(Fault::Deadline))),
        Err(StatusCode::InternalServerError)
    ));
}

#[test]
fn a_well_formed_request_is_admitted() {
    let (cliente_id, transacao) = admit_transacao("1", body(100, "c", "pay")).unwrap();
    assert_eq!(cliente_id, 1);
    assert_eq!(transacao.valor, 100);
    assert_eq!(transacao.tipo, TipoTransacao::CREDITO);
    assert_eq!(transacao.descricao.as_str(), "pay");
    assert_eq!(admit_extrato("424242"), Ok(424242));
}

#[test]
fn a_malformed_request_cannot_be_processed() {
    assert!(matches!(admit_transacao("1", body(50, "c", "")), Err(StatusCode::UnprocessableEntity)));
    assert!(matches!(admit_transacao("1", body(50, "x", "pay")), Err(StatusCode::UnprocessableEntity)));
    assert!(matches!(admit_transacao("1", body(-50, "c", "pay")), Err(StatusCode::UnprocessableEntity)));
    assert!(matches!(admit_transacao("um", body(50, "c", "pay")), Err(StatusCode::UnprocessableEntity)));
    assert_eq!(admit_extrato("um"), Err(StatusCode::UnprocessableEntity));
    assert_eq!(admit_extrato(""), Err(StatusCode::UnprocessableEntity));
}

#[test]
fn driver_failures_are_reported() {
    assert_eq!(PersistenceError::from_failure(StoreFailure::UniqueViolation), PersistenceError::UniqueViolation);
    assert_eq!(PersistenceError::from_failure(StoreFailure::RowNotFound), PersistenceError::IdDoesNotExist);
    assert_eq!(PersistenceError::from_failure(StoreFailure::Other), PersistenceError::DatabaseError(Fault::Driver));
}

#[test]
fn what_the_procedure_hands_back_is_read() {
    let balance = ProcedureAnswer::Balance(NewSaldo { total: -30, limite: 500 });
    assert_eq!(create_transacao_in_db(Ok(balance)), Ok(TransacaoResponse { limite: 500, saldo: -30 }));
    assert_eq!(create_transacao_in_db(Ok(ProcedureAnswer::Unreadable)), Err(PersistenceError::NotEnoughFunds));
    assert_eq!(create_transacao_in_db(Ok(ProcedureAnswer::Null)), Err(PersistenceError::IdDoesNotExist));
    assert_eq!(create_transacao_in_db(Ok(ProcedureAnswer::NoRow)), Err(PersistenceError::IdDoesNotExist));
    assert_eq!(
        create_transacao_in_db(Err(PersistenceError::DatabaseError(Fault::Driver))),
        Err(PersistenceError::DatabaseError(Fault::Driver))
    );
    assert_eq!(create_transacao_in_db(Err(PersistenceError::UniqueViolation)), Err(PersistenceError::UniqueViolation));
}
