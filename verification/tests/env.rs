//! Environment attributes.

use stackable_odbc_core::env::{
    SQL_ATTR_ODBC_VERSION, SQL_ATTR_OUTPUT_NTS, SQL_TRUE, sql_get_env_attr, sql_set_env_attr,
};
use stackable_odbc_core::handles::EnvironmentHandle;
use stackable_odbc_core::types::SqlReturn;

fn set(env: &mut EnvironmentHandle, attribute: i32, value: usize) -> SqlReturn {
    sql_set_env_attr(Some(env), false, attribute, value)
}

#[test]
fn set_and_get_odbc_version() {
    let mut env = EnvironmentHandle::new();

    let ret = set(&mut env, SQL_ATTR_ODBC_VERSION, 3);
    assert_eq!(ret, SqlReturn::SUCCESS);

    let mut version: i32 = 0;
    let ret = sql_get_env_attr(
        Some(&mut env),
        SQL_ATTR_ODBC_VERSION,
        Some(&mut version),
        None,
    );
    assert_eq!(ret, SqlReturn::SUCCESS);
    assert_eq!(version, 3);

    let ret = set(&mut env, SQL_ATTR_ODBC_VERSION, 380);
    assert_eq!(ret, SqlReturn::SUCCESS);

    let mut version: i32 = 0;
    let ret = sql_get_env_attr(
        Some(&mut env),
        SQL_ATTR_ODBC_VERSION,
        Some(&mut version),
        None,
    );
    assert_eq!(ret, SqlReturn::SUCCESS);
    assert_eq!(version, 380);
}

#[test]
fn set_env_attr_invalid_version() {
    let mut env = EnvironmentHandle::new();
    let ret = set(&mut env, SQL_ATTR_ODBC_VERSION, 999);
    assert_eq!(ret, SqlReturn::ERROR);
    let record = env.diagnostics.get(0).unwrap();
    assert_eq!(record.sqlstate.as_str(), "HY024");
    assert_eq!(record.message, "Invalid ODBC version value: 999");
}

#[test]
fn set_env_attr_clears_diagnostics_from_an_earlier_call() {
    let mut env = EnvironmentHandle::new();
    let ret = set(&mut env, SQL_ATTR_ODBC_VERSION, 999);
    assert_eq!(ret, SqlReturn::ERROR);
    assert_eq!(env.diagnostics.len(), 1, "precondition: a record is queued");

    let ret = set(&mut env, SQL_ATTR_ODBC_VERSION, 3);
    assert_eq!(ret, SqlReturn::SUCCESS);
    assert_eq!(
        env.diagnostics.len(),
        0,
        "the queue must be cleared at entry, not appended to"
    );
}

#[test]
fn get_env_attr_unsupported_attribute() {
    let mut env = EnvironmentHandle::new();
    let mut value: i32 = 0;
    let ret = sql_get_env_attr(Some(&mut env), 999, Some(&mut value), None);
    assert_eq!(ret, SqlReturn::ERROR);
    assert_eq!(
        env.diagnostics.get(0).unwrap().message,
        "SQLGetEnvAttr attribute 999 is not implemented"
    );
    let ret = set(&mut env, 201, 0);
    assert_eq!(ret, SqlReturn::ERROR);
    assert_eq!(
        env.diagnostics.get(0).unwrap().message,
        "SQLSetEnvAttr attribute 201 is not implemented"
    );
}

#[test]
fn get_env_attr_clears_diagnostics_from_an_earlier_call() {
    let mut env = EnvironmentHandle::new();
    let mut value: i32 = 0;
    let ret = sql_get_env_attr(Some(&mut env), 999, Some(&mut value), None);
    assert_eq!(ret, SqlReturn::ERROR);
    assert_eq!(env.diagnostics.len(), 1, "precondition: a record is queued");

    let ret = sql_get_env_attr(
        Some(&mut env),
        SQL_ATTR_ODBC_VERSION,
        Some(&mut value),
        None,
    );
    assert_eq!(ret, SqlReturn::SUCCESS);
    assert_eq!(
        env.diagnostics.len(),
        0,
        "the queue must be cleared at entry, not appended to"
    );
}

#[test]
fn set_env_attr_fails_after_connection_allocated() {
    let mut env = EnvironmentHandle::new();
    let ret = sql_set_env_attr(Some(&mut env), true, SQL_ATTR_ODBC_VERSION, 3);
    assert_eq!(ret, SqlReturn::ERROR);
    assert_eq!(
        env.diagnostics.get(0).unwrap().sqlstate.as_str(),
        "HY010"
    );
}

#[test]
fn set_env_attr_output_nts_true_succeeds() {
    let mut env = EnvironmentHandle::new();
    let ret = set(&mut env, SQL_ATTR_OUTPUT_NTS, 1);
    assert_eq!(ret, SqlReturn::SUCCESS);
}

#[test]
fn set_env_attr_output_nts_false_fails() {
    let mut env = EnvironmentHandle::new();
    let ret = set(&mut env, SQL_ATTR_OUTPUT_NTS, 0);
    assert_eq!(ret, SqlReturn::ERROR);
    assert_eq!(
        env.diagnostics.get(0).unwrap().message,
        "SQL_ATTR_OUTPUT_NTS = SQL_FALSE is not implemented"
    );
}

#[test]
fn get_env_attr_output_nts_returns_true() {
    let mut env = EnvironmentHandle::new();
    let mut value: i32 = 0;
    let ret = sql_get_env_attr(Some(&mut env), SQL_ATTR_OUTPUT_NTS, Some(&mut value), None);
    assert_eq!(ret, SqlReturn::SUCCESS);
    assert_eq!(value, SQL_TRUE);
}

#[test]
fn set_env_attr_null_handle_returns_invalid() {
    let ret = sql_set_env_attr(None, false, SQL_ATTR_ODBC_VERSION, 3);
    assert_eq!(ret, SqlReturn::INVALID_HANDLE);
}

#[test]
fn get_env_attr_null_handle_returns_invalid() {
    let mut value: i32 = 0;
    let ret = sql_get_env_attr(None, SQL_ATTR_ODBC_VERSION, Some(&mut value), None);
    assert_eq!(ret, SqlReturn::INVALID_HANDLE);
}

#[test]
fn get_env_attr_writes_string_length() {
    let mut env = EnvironmentHandle::new();
    let mut value: i32 = 0;
    let mut str_len: i32 = 0;
    let ret = sql_get_env_attr(
        Some(&mut env),
        SQL_ATTR_ODBC_VERSION,
        Some(&mut value),
        Some(&mut str_len),
    );
    assert_eq!(ret, SqlReturn::SUCCESS);
    assert_eq!(str_len, 4);
}

#[test]
fn a_version_is_the_low_half_of_the_argument() {
    let mut env = EnvironmentHandle::new();
    let wide = (1usize << 32) + 380;
    assert_eq!(
        set(&mut env, SQL_ATTR_ODBC_VERSION, wide),
        SqlReturn::SUCCESS
    );
    let mut version: i32 = 0;
    let _ = sql_get_env_attr(
        Some(&mut env),
        SQL_ATTR_ODBC_VERSION,
        Some(&mut version),
        None,
    );
    assert_eq!(version, 380);
}
