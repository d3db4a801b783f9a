//! Errors and what they map to.

use stackable_odbc_core::errors::{Cause, OdbcError};
use stackable_odbc_core::types::{SqlReturn, SqlState, sql_state};

fn inner() -> Cause {
    Cause::new("inner")
}

fn outer() -> Cause {
    Cause::caused_by("outer", inner())
}

#[test]
fn general_defaults_to_no_native_code_and_no_cause() {
    let err = OdbcError::general("boom", SqlState::general_error());
    assert_eq!(
        err.native_error(),
        0,
        "a General built without a data-source code must report 0, which is \
         'no native error'"
    );
    assert!(
        err.cause().is_none(),
        "a General built without a cause must not invent one"
    );
}

#[test]
fn native_error_is_carried_to_the_accessor() {
    let err = OdbcError::general("boom", SqlState::general_error()).with_native_error(1555);
    assert_eq!(err.native_error(), 1555);
}

#[test]
fn native_error_survives_a_later_with_source() {
    let err = OdbcError::general("boom", SqlState::general_error())
        .with_native_error(19)
        .with_source(inner());
    assert_eq!(err.native_error(), 19);
    assert!(err.cause().is_some());
}

#[test]
fn native_error_is_zero_for_variants_with_no_data_source_behind_them() {
    assert_eq!(
        OdbcError::InvalidHandle.with_native_error(7).native_error(),
        0
    );
    assert_eq!(
        OdbcError::NotConnected.with_native_error(7).native_error(),
        0
    );
    assert!(
        OdbcError::NotConnected.with_source(inner()).cause().is_none(),
        "a variant with no cause field must stay causeless"
    );
}

#[test]
fn with_source_preserves_the_chain_rather_than_stringifying_it() {
    let err = OdbcError::general("wrapped", SqlState::general_error()).with_source(outer());

    let cause = err.cause().expect("cause must be recorded");
    assert_eq!(cause.to_string(), "outer");
    assert_eq!(
        cause.source().expect("the chain must continue").to_string(),
        "inner",
        "the whole chain must survive, not just the outermost link"
    );
}

#[test]
fn sqlstate_mapping() {
    assert_eq!(
        OdbcError::InvalidHandle.sqlstate().as_str(),
        sql_state::GENERAL_ERROR
    );
    assert_eq!(
        OdbcError::NotImplemented {
            feature: "x".into()
        }
        .sqlstate()
        .as_str(),
        sql_state::OPTIONAL_FEATURE_NOT_IMPLEMENTED
    );
    assert_eq!(
        OdbcError::NotConnected.sqlstate().as_str(),
        sql_state::CONNECTION_NOT_OPEN
    );
    assert_eq!(
        OdbcError::NoResultSet.sqlstate().as_str(),
        sql_state::INVALID_CURSOR_STATE
    );
    assert_eq!(
        OdbcError::StringTruncated.sqlstate().as_str(),
        sql_state::STRING_DATA_RIGHT_TRUNCATED
    );
    assert_eq!(
        OdbcError::Panic {
            message: "boom".into()
        }
        .sqlstate()
        .as_str(),
        sql_state::GENERAL_ERROR
    );
    assert_eq!(
        OdbcError::MissingParameter {
            name: "host".into()
        }
        .sqlstate()
        .as_str(),
        sql_state::GENERAL_ERROR
    );
}

#[test]
fn sql_return_mapping() {
    assert_eq!(
        OdbcError::InvalidHandle.sql_return(),
        SqlReturn::INVALID_HANDLE
    );
    assert_eq!(
        OdbcError::StringTruncated.sql_return(),
        SqlReturn::SUCCESS_WITH_INFO
    );
    assert_eq!(OdbcError::NotConnected.sql_return(), SqlReturn::ERROR);
}

#[test]
fn builders_give_the_same_error_in_either_order() {
    let a = OdbcError::general("boom", SqlState::general_error())
        .with_native_error(19)
        .with_source(outer());
    let b = OdbcError::general("boom", SqlState::general_error())
        .with_source(outer())
        .with_native_error(19);
    assert_eq!(a.to_string(), b.to_string());
    assert_eq!(a.native_error(), b.native_error());
    assert_eq!(
        a.cause().unwrap().source().unwrap().to_string(),
        b.cause().unwrap().source().unwrap().to_string()
    );
}

#[test]
fn every_variant_has_its_message() {
    assert_eq!(OdbcError::InvalidHandle.to_string(), "Invalid handle");
    assert_eq!(
        OdbcError::not_implemented("Bookmarks").to_string(),
        "Bookmarks is not implemented"
    );
    assert_eq!(
        OdbcError::NotConnected.to_string(),
        "Connection not established"
    );
    assert_eq!(
        OdbcError::NoResultSet.to_string(),
        "No result set available"
    );
    assert_eq!(
        OdbcError::StringTruncated.to_string(),
        "String data truncated"
    );
    assert_eq!(
        OdbcError::FractionalTruncation.to_string(),
        "Fractional truncation"
    );
    assert_eq!(
        OdbcError::FractionalTruncation.sql_return(),
        SqlReturn::SUCCESS_WITH_INFO
    );
    assert_eq!(
        OdbcError::FractionalTruncation.sqlstate().as_str(),
        "01S07"
    );
    assert_eq!(
        OdbcError::Panic {
            message: "boom".into()
        }
        .to_string(),
        "Panic in driver: boom"
    );
    assert_eq!(
        OdbcError::MissingParameter {
            name: "host".into()
        }
        .to_string(),
        "Missing required parameter: host"
    );
}

#[test]
fn return_codes_are_those_of_the_c_interface() {
    assert_eq!(SqlReturn::SUCCESS.code(), 0);
    assert_eq!(SqlReturn::SUCCESS_WITH_INFO.code(), 1);
    assert_eq!(SqlReturn::NEED_DATA.code(), 99);
    assert_eq!(SqlReturn::NO_DATA.code(), 100);
    assert_eq!(SqlReturn::ERROR.code(), -1);
    assert_eq!(SqlReturn::INVALID_HANDLE.code(), -2);
}
