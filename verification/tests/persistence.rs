use contas::persistence::{in_time, Fault, PersistenceError, StoreFailure};

#[test]
fn a_unique_violation_is_reported_as_such() {
    assert_eq!(PersistenceError::from_failure(StoreFailure::UniqueViolation), PersistenceError::UniqueViolation);
}

#[test]
fn a_missing_row_is_an_unknown_id() {
    assert_eq!(PersistenceError::from_failure(StoreFailure::RowNotFound), PersistenceError::IdDoesNotExist);
}

#[test]
fn any_other_failure_is_a_database_error() {
    assert_eq!(PersistenceError::from_failure(StoreFailure::Other), PersistenceError::DatabaseError(Fault::Driver));
}

#[test]
fn an_answer_in_time_is_taken_as_it_is() {
    assert_eq!(in_time(Some(Ok(7))), Ok(7));
    assert_eq!(in_time::<i32>(Some(Err(PersistenceError::NotEnoughFunds))), Err(PersistenceError::NotEnoughFunds));
    assert_eq!(
        in_time::<i32>(Some(Err(PersistenceError::DatabaseError(Fault::Driver)))),
        Err(PersistenceError::DatabaseError(Fault::Driver))
    );
}

#[test]
fn no_answer_in_time_is_a_passed_deadline() {
    assert_eq!(in_time::<i32>(None), Err(PersistenceError::DatabaseError(Fault::Deadline)));
}
