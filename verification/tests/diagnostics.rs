//! The queue of diagnostic records.

use stackable_odbc_core::diagnostics::DiagnosticQueue;
use stackable_odbc_core::errors::{Cause, OdbcError};
use stackable_odbc_core::types::{SqlState, sql_state};

fn outer() -> Cause {
    Cause::caused_by("outer", Cause::new("inner"))
}

#[test]
fn push_reports_the_data_sources_own_error_code() {
    let mut q = DiagnosticQueue::new();
    q.push(&OdbcError::general("boom", SqlState::general_error()).with_native_error(1555));
    assert_eq!(q.get(0).expect("record").native_error, 1555);
}

#[test]
fn push_defaults_native_error_to_zero_without_one() {
    let mut q = DiagnosticQueue::new();
    q.push(&OdbcError::NotConnected);
    assert_eq!(q.get(0).expect("record").native_error, 0);
}

#[test]
fn push_message_carries_the_whole_causal_chain() {
    let mut q = DiagnosticQueue::new();
    q.push(&OdbcError::general("wrapped", SqlState::general_error()).with_source(outer()));

    let msg = &q.get(0).expect("record").message;
    assert_eq!(
        msg, "wrapped: outer: inner",
        "expected the full chain, got {msg:?}"
    );
}

#[test]
fn push_and_retrieve() {
    let mut q = DiagnosticQueue::new();
    assert!(q.is_empty());

    let err = OdbcError::NotConnected;
    q.push(&err);

    assert_eq!(q.len(), 1);
    let rec = q.get(0).unwrap();
    assert_eq!(rec.sqlstate.as_str(), sql_state::CONNECTION_NOT_OPEN);
    assert_eq!(rec.message, "Connection not established");
}

#[test]
fn clear_empties_queue() {
    let mut q = DiagnosticQueue::new();
    q.push(&OdbcError::NoResultSet);
    assert!(!q.is_empty());
    q.clear();
    assert!(q.is_empty());
}

#[test]
fn default_is_empty() {
    let q = DiagnosticQueue::default();
    assert!(q.is_empty());
}

#[test]
fn records_come_out_in_the_order_they_went_in() {
    let mut q = DiagnosticQueue::new();
    q.push(&OdbcError::NotConnected);
    q.push(&OdbcError::StringTruncated);
    q.push(&OdbcError::not_implemented("feature"));

    assert_eq!(q.len(), 3);
    assert_eq!(q.get(0).unwrap().sqlstate.as_str(), "08003");
    assert_eq!(q.get(1).unwrap().sqlstate.as_str(), "01004");
    assert_eq!(q.get(2).unwrap().sqlstate.as_str(), "HYC00");
    assert_eq!(q.get(2).unwrap().message, "feature is not implemented");
    assert!(q.get(3).is_none());
}
