//! Connection attributes.

use stackable_odbc_core::connect::{
    ConnectStep, OpenStep, connect_answered, pending_answered, sql_driver_connect_w,
};
use stackable_odbc_core::connect_attr::{
    AttrAnswer, AttrValue, SQL_ASYNC_ENABLE_OFF, SQL_AUTOCOMMIT_OFF, SQL_AUTOCOMMIT_ON,
    SQL_CD_FALSE, SQL_CD_TRUE, SQL_CUR_USE_DRIVER, SQL_MODE_READ_ONLY, SQL_MODE_READ_WRITE,
    SQL_TXN_READ_COMMITTED, SQL_TXN_REPEATABLE_READ, SQL_TXN_SERIALIZABLE,
    connection_has_result_set_pending, set_connect_attr_answered, sql_get_connect_attr_w,
    sql_set_connect_attr_w, validate_txn_isolation,
};
use stackable_odbc_core::errors::OdbcError;
use stackable_odbc_core::handles::{BackendCall, ConnectionHandle, Session, Step};
use stackable_odbc_core::types::connection_attribute::{
    ACCESS_MODE, ASYNC_DBC_FUNCTIONS_ENABLE, ASYNC_ENABLE, AUTOCOMMIT, CONNECTION_DEAD,
    CONNECTION_TIMEOUT, CURRENT_CATALOG, ENLIST_IN_DTC, LOGIN_TIMEOUT, METADATA_ID, ODBC_CURSORS,
    PACKET_SIZE, QUIET_MODE, TRACE, TRACEFILE, TRANSLATE_LIB, TRANSLATE_OPTION, TXN_ISOLATION,
};
use stackable_odbc_core::types::{SqlReturn, SqlState, sql_state};
use stackable_odbc_core::utf16::{MAX_NTS_SCAN, SQL_NTS};

/// A data source: what it supports, and what reached it.
struct Backend {
    manual_commit: bool,
    isolation_options: u32,
    default_isolation: u32,
    switches_isolation: bool,
    access_modes: bool,
    good_catalog: Option<&'static str>,
    session_catalog: Option<&'static str>,
    dead: bool,
    applied_isolation: Option<u32>,
    applied_read_only: Option<bool>,
    seen_timeouts: (Option<u32>, Option<u32>),
}

/// One that runs serializable only and has nothing to set.
fn mock() -> Backend {
    Backend {
        manual_commit: false,
        isolation_options: SQL_TXN_SERIALIZABLE,
        default_isolation: SQL_TXN_SERIALIZABLE,
        switches_isolation: true,
        access_modes: true,
        good_catalog: None,
        session_catalog: None,
        dead: false,
        applied_isolation: None,
        applied_read_only: None,
        seen_timeouts: (None, None),
    }
}

impl Backend {
    fn answer(&mut self, call: &BackendCall) -> Result<(), OdbcError> {
        match call {
            BackendCall::SetAutocommit(on) => {
                if *on || self.manual_commit {
                    Ok(())
                } else {
                    Err(OdbcError::not_implemented("manual commit"))
                }
            }
            BackendCall::SetTxnIsolation(level) => {
                if self.switches_isolation {
                    self.applied_isolation = Some(*level);
                    Ok(())
                } else {
                    Err(OdbcError::not_implemented("isolation"))
                }
            }
            BackendCall::SetAccessMode(read_only) => {
                if self.access_modes {
                    self.applied_read_only = Some(*read_only);
                    Ok(())
                } else {
                    Err(OdbcError::not_implemented("access mode"))
                }
            }
            BackendCall::SetCurrentCatalog(catalog) => match self.good_catalog {
                Some(good) if good == catalog => Ok(()),
                Some(_) => Err(OdbcError::general(
                    "no such catalog",
                    SqlState::invalid_catalog_name(),
                )),
                None => Err(OdbcError::not_implemented("catalogs")),
            },
            _ => panic!("not an attribute"),
        }
    }

    fn connect(&mut self, conn: &mut ConnectionHandle) -> SqlReturn {
        let units: Vec<u16> = "Database=test\0".encode_utf16().collect();
        let step = sql_driver_connect_w(
            Some(conn),
            Some(&units),
            SQL_NTS as i16,
            false,
            0,
            &|_: &str| vec![],
            &[],
        );
        let mut open = match step {
            ConnectStep::Done { code, text: _ } => return code,
            ConnectStep::Connect { params, output: _ } => {
                self.seen_timeouts = (params.login_timeout(), params.connection_timeout());
                connect_answered(
                    conn,
                    Ok(Session {
                        txn_isolation_options: self.isolation_options,
                        default_txn_isolation: self.default_isolation,
                        connection_dead: self.dead,
                        current_catalog: self.session_catalog.map(str::to_string),
                    }),
                )
            }
        };
        loop {
            open = match open {
                OpenStep::Done(code) | OpenStep::Abandon(code) => return code,
                OpenStep::Ask(call, rest) => {
                    let outcome = self.answer(&call);
                    pending_answered(conn, rest, outcome)
                }
            };
        }
    }

    fn connected(&mut self) -> ConnectionHandle {
        let mut conn = ConnectionHandle::new();
        assert_eq!(self.connect(&mut conn), SqlReturn::SUCCESS);
        conn
    }

    fn finish(&mut self, conn: &mut ConnectionHandle, step: Step) -> SqlReturn {
        match step {
            Step::Done(code) => code,
            Step::Ask(call) => {
                let outcome = self.answer(&call);
                set_connect_attr_answered(conn, call, outcome)
            }
        }
    }

    fn set(&mut self, conn: &mut ConnectionHandle, attribute: i32, value: usize) -> SqlReturn {
        let step = sql_set_connect_attr_w(Some(conn), &[], attribute, value, None, 0);
        self.finish(conn, step)
    }

    fn set_catalog(
        &mut self,
        conn: &mut ConnectionHandle,
        cursors_open: &[bool],
        catalog: &str,
    ) -> (SqlReturn, Option<String>) {
        let wide: Vec<u16> = catalog.encode_utf16().collect();
        let step = sql_set_connect_attr_w(
            Some(conn),
            cursors_open,
            CURRENT_CATALOG,
            4096,
            Some(&wide),
            (wide.len() * 2) as i32,
        );
        let ret = self.finish(conn, step);
        (
            ret,
            conn.diagnostics
                .get(0)
                .map(|d| d.sqlstate.as_str().to_owned()),
        )
    }
}

fn get(conn: &mut ConnectionHandle, attribute: i32) -> AttrAnswer {
    sql_get_connect_attr_w(Some(conn), attribute, true, 0)
}

/// The value of an attribute, whatever its width.
fn number(conn: &mut ConnectionHandle, attribute: i32) -> usize {
    let answer = get(conn, attribute);
    assert_eq!(answer.code, SqlReturn::SUCCESS);
    match answer.value {
        Some(AttrValue::Word(n)) => n as usize,
        Some(AttrValue::Long(n)) => n,
        _ => panic!("a number was expected"),
    }
}

fn first_sqlstate(conn: &ConnectionHandle) -> String {
    conn.diagnostics
        .get(0)
        .expect("expected a diagnostic record")
        .sqlstate
        .as_str()
        .to_string()
}

#[test]
fn set_and_get_autocommit() {
    let mut conn = ConnectionHandle::new();
    let ret = mock().set(&mut conn, AUTOCOMMIT, 0);
    assert_eq!(ret, SqlReturn::SUCCESS);
    assert_eq!(number(&mut conn, AUTOCOMMIT), 0);
}

#[test]
fn get_autocommit_default_is_on() {
    let mut conn = ConnectionHandle::new();
    assert_eq!(number(&mut conn, AUTOCOMMIT), SQL_AUTOCOMMIT_ON);
}

/// Sets the timeouts before connecting, and reports what the backend saw.
fn timeouts_seen_by_connect(
    login: Option<usize>,
    connection: Option<usize>,
) -> (Option<u32>, Option<u32>) {
    let mut backend = mock();
    let mut conn = ConnectionHandle::new();
    for (attribute, value) in [(LOGIN_TIMEOUT, login), (CONNECTION_TIMEOUT, connection)] {
        if let Some(v) = value {
            assert_eq!(
                backend.set(&mut conn, attribute, v),
                SqlReturn::SUCCESS,
            );
        }
    }
    assert_eq!(backend.connect(&mut conn), SqlReturn::SUCCESS);
    backend.seen_timeouts
}

#[test]
fn login_and_connection_timeouts_reach_the_backend() {
    assert_eq!(
        timeouts_seen_by_connect(Some(15), Some(45)),
        (Some(15), Some(45)),
    );
}

#[test]
fn an_unset_timeout_is_none_and_a_zero_timeout_is_some_zero() {
    assert_eq!(
        timeouts_seen_by_connect(None, None),
        (None, None),
        "nothing was set, so the backend must see nothing",
    );
    assert_eq!(
        timeouts_seen_by_connect(Some(0), Some(0)),
        (Some(0), Some(0)),
        "an explicit 0 is a value, not an absence",
    );
}

#[test]
fn setting_access_mode_reaches_the_backend() {
    let mut backend = mock();
    let mut conn = backend.connected();
    assert_eq!(
        backend.applied_read_only, None,
        "nothing has set the access mode yet",
    );
    let ret = backend.set(&mut conn, ACCESS_MODE, SQL_MODE_READ_ONLY);
    assert_eq!(ret, SqlReturn::SUCCESS);
    assert_eq!(
        backend.applied_read_only,
        Some(true),
        "Backend::set_access_mode was never called",
    );
}

#[test]
fn an_access_mode_set_before_connecting_is_applied_at_connect() {
    let mut backend = mock();
    let mut conn = ConnectionHandle::new();
    assert_eq!(
        backend.set(&mut conn, ACCESS_MODE, SQL_MODE_READ_ONLY),
        SqlReturn::SUCCESS,
        "this attribute is settable before connecting",
    );
    assert_eq!(backend.connect(&mut conn), SqlReturn::SUCCESS);
    assert_eq!(
        backend.applied_read_only,
        Some(true),
        "a mode set before connecting must be applied once the connection exists",
    );
}

#[test]
fn a_backend_that_refuses_an_access_mode_keeps_it_out_of_the_stored_attributes() {
    let mut backend = mock();
    backend.access_modes = false;
    let mut conn = backend.connected();
    let ret = backend.set(&mut conn, ACCESS_MODE, SQL_MODE_READ_ONLY);
    assert_eq!(ret, SqlReturn::ERROR);
    assert_eq!(
        number(&mut conn, ACCESS_MODE),
        SQL_MODE_READ_WRITE,
        "a refused read-only mode must not be reported back as in force",
    );
}

/// Enters manual commit, does work or not, and then changes the isolation
/// level: the first state posted.
fn isolation_after(execute_first: bool) -> String {
    let mut backend = mock();
    backend.manual_commit = true;
    let mut conn = backend.connected();
    assert_eq!(
        backend.set(&mut conn, AUTOCOMMIT, SQL_AUTOCOMMIT_OFF),
        SqlReturn::SUCCESS,
        "the mock supports manual-commit mode",
    );
    if execute_first {
        conn.txn_dirty = true;
    }
    let _ = backend.set(&mut conn, TXN_ISOLATION, SQL_TXN_SERIALIZABLE as usize);
    conn.diagnostics
        .get(0)
        .map(|r| r.sqlstate.as_str().to_owned())
        .unwrap_or_default()
}

#[test]
fn setting_txn_isolation_with_an_open_transaction_is_hy011() {
    assert_eq!(isolation_after(true), "HY011");
}

#[test]
fn setting_txn_isolation_in_manual_commit_with_no_work_done_is_not_hy011() {
    assert_ne!(
        isolation_after(false),
        "HY011",
        "entering manual-commit mode does not by itself open a transaction",
    );
}

#[test]
fn setting_current_catalog_while_a_result_set_is_pending_is_24000() {
    let mut backend = mock();
    let mut conn = backend.connected();
    let (ret, state) = backend.set_catalog(&mut conn, &[false, true], "other");
    assert_eq!(ret, SqlReturn::ERROR);
    assert_eq!(state.expect("a diagnostic record"), "24000");
    assert!(connection_has_result_set_pending(&[false, true]));
}

#[test]
fn setting_current_catalog_with_no_cursor_open_is_not_24000() {
    let mut backend = mock();
    let mut conn = backend.connected();
    let (ret, state) = backend.set_catalog(&mut conn, &[false], "other");
    assert_eq!(
        ret,
        SqlReturn::ERROR,
        "the default set_current_catalog refuses"
    );
    assert_ne!(
        state.expect("a diagnostic record"),
        "24000",
        "no cursor is open, so the pending-result-set check must not fire"
    );
    assert!(!connection_has_result_set_pending(&[false]));
    assert!(!connection_has_result_set_pending(&[]));
}

#[test]
fn get_connection_dead_on_an_unconnected_handle_is_false() {
    let mut conn = ConnectionHandle::new();
    assert_eq!(
        number(&mut conn, CONNECTION_DEAD),
        SQL_CD_FALSE as usize
    );
}

fn connection_dead_for(dead: bool) -> u32 {
    let mut backend = mock();
    backend.dead = dead;
    let mut conn = backend.connected();
    number(&mut conn, CONNECTION_DEAD) as u32
}

#[test]
fn a_backend_that_reports_a_lost_connection_is_read_as_sql_cd_true() {
    assert_eq!(connection_dead_for(true), SQL_CD_TRUE);
}

#[test]
fn a_backend_with_no_liveness_signal_is_read_as_sql_cd_false() {
    assert_eq!(connection_dead_for(false), SQL_CD_FALSE);
}

#[test]
fn set_unknown_attr_returns_success() {
    let mut conn = ConnectionHandle::new();
    let ret = mock().set(&mut conn, 9999, 0);
    assert_eq!(ret, SqlReturn::SUCCESS);
}

#[test]
fn set_connection_dead_is_error() {
    let mut conn = ConnectionHandle::new();
    let ret = mock().set(&mut conn, CONNECTION_DEAD, 0);
    assert_eq!(ret, SqlReturn::ERROR);
    assert_eq!(
        first_sqlstate(&conn),
        sql_state::INVALID_ATTRIBUTE_VALUE,
        "a write to a read-only attribute is HY024, not a generic HY000",
    );
}

#[test]
fn packet_size_after_connect_reports_hy011() {
    let mut backend = mock();
    let mut conn = ConnectionHandle::new();
    assert_eq!(
        backend.set(&mut conn, PACKET_SIZE, 8192),
        SqlReturn::SUCCESS
    );
    assert_eq!(backend.connect(&mut conn), SqlReturn::SUCCESS);
    assert_eq!(backend.set(&mut conn, PACKET_SIZE, 4096), SqlReturn::ERROR);
    assert_eq!(
        conn.diagnostics
            .get(0)
            .expect("a HY011 record")
            .sqlstate
            .as_str(),
        "HY011"
    );
}

#[test]
fn attributes_core_does_not_implement_report_hyc00() {
    let cases: &[(i32, &str, usize)] = &[
        (ASYNC_ENABLE, "SQL_ATTR_ASYNC_ENABLE", 1),
        (ENLIST_IN_DTC, "SQL_ATTR_ENLIST_IN_DTC", 1),
    ];
    for (attribute, name, value) in cases {
        let mut conn = ConnectionHandle::new();
        let ret = mock().set(&mut conn, *attribute, *value);
        assert_eq!(ret, SqlReturn::ERROR, "{name} was accepted");
        assert_eq!(
            first_sqlstate(&conn),
            "HYC00",
            "{name} posted the wrong SQLSTATE"
        );
    }
}

/// The catalog an attribute read gives, for a buffer of `bytes`.
fn catalog(conn: &mut ConnectionHandle, bytes: i32) -> (SqlReturn, String) {
    let answer = sql_get_connect_attr_w(Some(conn), CURRENT_CATALOG, true, bytes);
    let units = (answer.length.unwrap() / 2) as usize;
    match answer.value {
        Some(AttrValue::Text(text)) => {
            let shown = text.len().saturating_sub(1).min(units);
            (answer.code, String::from_utf16_lossy(&text[..shown]))
        }
        _ => panic!("a text was expected"),
    }
}

#[test]
fn current_catalog_falls_back_to_the_session_catalog() {
    let mut backend = mock();
    backend.session_catalog = Some("alt_catalog");
    let mut conn = backend.connected();
    let (ret, attr) = catalog(&mut conn, 128);
    assert_eq!(ret, SqlReturn::SUCCESS);
    assert_eq!(
        attr, "alt_catalog",
        "the attribute must report the session catalog when the \
         application has set none"
    );
}

#[test]
fn a_catalog_that_does_not_fit_is_cut_and_reported() {
    let mut backend = mock();
    backend.session_catalog = Some("alt_catalog");
    let mut conn = backend.connected();
    assert_eq!(
        catalog(&mut conn, 8),
        (SqlReturn::SUCCESS_WITH_INFO, "alt".to_string())
    );
    assert_eq!(first_sqlstate(&conn), "01004");
}

#[test]
fn a_null_value_ptr_for_current_catalog_is_hy009() {
    let mut conn = ConnectionHandle::new();
    let step = sql_set_connect_attr_w(Some(&mut conn), &[], CURRENT_CATALOG, 0, None, SQL_NTS);
    assert!(matches!(step, Step::Done(SqlReturn::ERROR)));
    assert_eq!(
        conn.diagnostics
            .get(0)
            .expect("a diagnostic record")
            .sqlstate
            .as_str(),
        "HY009",
    );
}

#[test]
fn a_buffer_larger_than_i16_max_still_returns_the_catalog() {
    let mut backend = mock();
    backend.session_catalog = Some("alt_catalog");
    let mut conn = backend.connected();
    let (ret, text) = catalog(&mut conn, 32_768 * 2);
    assert_eq!(
        ret,
        SqlReturn::SUCCESS,
        "a large buffer is not a failure",
    );
    assert_eq!(text, "alt_catalog");
}

#[test]
fn the_two_sqlulen_connection_attributes_are_written_at_full_width() {
    for (attribute, name, expected) in [
        (ODBC_CURSORS, "SQL_ATTR_ODBC_CURSORS", SQL_CUR_USE_DRIVER),
        (ASYNC_ENABLE, "SQL_ATTR_ASYNC_ENABLE", SQL_ASYNC_ENABLE_OFF),
    ] {
        let mut conn = ConnectionHandle::new();
        let answer = get(&mut conn, attribute);
        assert_eq!(answer.code, SqlReturn::SUCCESS);
        match answer.value {
            Some(AttrValue::Long(value)) => assert_eq!(value, expected, "{name}"),
            _ => panic!("{name}: the high half of the SQLULEN buffer kept its poison"),
        }
    }
}

#[test]
fn every_stored_connection_attribute_is_readable() {
    let cases: &[(i32, &str, usize)] = &[
        (ACCESS_MODE, "SQL_ATTR_ACCESS_MODE", 1),
        (AUTOCOMMIT, "SQL_ATTR_AUTOCOMMIT", 1),
        (LOGIN_TIMEOUT, "SQL_ATTR_LOGIN_TIMEOUT", 30),
        (CONNECTION_TIMEOUT, "SQL_ATTR_CONNECTION_TIMEOUT", 30),
        (TRACE, "SQL_ATTR_TRACE", 0),
        (ODBC_CURSORS, "SQL_ATTR_ODBC_CURSORS", 2),
        (PACKET_SIZE, "SQL_ATTR_PACKET_SIZE", 8192),
        (METADATA_ID, "SQL_ATTR_METADATA_ID", 1),
        (ASYNC_ENABLE, "SQL_ATTR_ASYNC_ENABLE", 0),
        (TRANSLATE_OPTION, "SQL_ATTR_TRANSLATE_OPTION", 7),
    ];
    for (attribute, name, value) in cases {
        let mut conn = ConnectionHandle::new();
        assert_eq!(
            mock().set(&mut conn, *attribute, *value),
            SqlReturn::SUCCESS,
            "{name} was not accepted"
        );
        let out = number(&mut conn, *attribute);
        assert_eq!(out, *value, "{name} read back a different value");
    }
}

#[test]
fn set_autocommit_off_is_rejected_when_backend_cannot_honour_it() {
    let mut backend = mock();
    let mut conn = backend.connected();
    let ret = backend.set(&mut conn, AUTOCOMMIT, SQL_AUTOCOMMIT_OFF);
    assert_eq!(ret, SqlReturn::ERROR, "manual-commit was accepted silently");
    assert!(
        !conn.diagnostics.is_empty(),
        "no HYC00 diagnostic was recorded"
    );
}

#[test]
fn set_autocommit_on_is_accepted() {
    let mut backend = mock();
    let mut conn = backend.connected();
    let ret = backend.set(&mut conn, AUTOCOMMIT, SQL_AUTOCOMMIT_ON);
    assert_eq!(ret, SqlReturn::SUCCESS);
}

#[test]
fn autocommit_off_set_before_connect_is_deferred_then_applied() {
    let mut backend = mock();
    let mut conn = ConnectionHandle::new();
    assert_eq!(
        backend.set(&mut conn, AUTOCOMMIT, SQL_AUTOCOMMIT_OFF),
        SqlReturn::SUCCESS,
        "pre-connect set must be accepted and deferred"
    );
    let ret = backend.connect(&mut conn);
    assert_eq!(
        ret,
        SqlReturn::ERROR,
        "deferred manual-commit was silently dropped at connect"
    );
    assert!(conn.connection.is_none());
}

#[test]
fn set_autocommit_invalid_value_returns_hy024() {
    let mut conn = ConnectionHandle::new();
    let ret = mock().set(&mut conn, AUTOCOMMIT, 99usize);
    assert_eq!(ret, SqlReturn::ERROR);
    assert_eq!(
        first_sqlstate(&conn),
        sql_state::INVALID_ATTRIBUTE_VALUE,
        "the state this test's name claims"
    );
}

#[test]
fn set_access_mode_invalid_value_returns_hy024() {
    let mut conn = ConnectionHandle::new();
    let ret = mock().set(&mut conn, ACCESS_MODE, 5usize);
    assert_eq!(ret, SqlReturn::ERROR);
    assert_eq!(
        first_sqlstate(&conn),
        sql_state::INVALID_ATTRIBUTE_VALUE,
        "the state this test's name claims"
    );
}

#[test]
fn set_trace_invalid_value_returns_hy024() {
    let mut conn = ConnectionHandle::new();
    let ret = mock().set(&mut conn, TRACE, 2usize);
    assert_eq!(ret, SqlReturn::ERROR);
    assert_eq!(
        first_sqlstate(&conn),
        sql_state::INVALID_ATTRIBUTE_VALUE,
        "the state this test's name claims"
    );
}

#[test]
fn set_odbc_cursors_invalid_value_returns_hy024() {
    let mut conn = ConnectionHandle::new();
    let ret = mock().set(&mut conn, ODBC_CURSORS, 99usize);
    assert_eq!(ret, SqlReturn::ERROR);
    assert_eq!(
        first_sqlstate(&conn),
        sql_state::INVALID_ATTRIBUTE_VALUE,
        "the state this test's name claims"
    );
}

#[test]
fn set_discrete_attrs_valid_values_succeed() {
    let mut backend = mock();
    let mut conn = ConnectionHandle::new();
    let ret = backend.set(&mut conn, ACCESS_MODE, 0);
    assert_eq!(ret, SqlReturn::SUCCESS);
    let ret = backend.set(&mut conn, ACCESS_MODE, 1);
    assert_eq!(ret, SqlReturn::SUCCESS);
    let ret = backend.set(&mut conn, AUTOCOMMIT, 0);
    assert_eq!(ret, SqlReturn::SUCCESS);
    let ret = backend.set(&mut conn, TRACE, 1);
    assert_eq!(ret, SqlReturn::SUCCESS);
    let ret = backend.set(&mut conn, ODBC_CURSORS, 0);
    assert_eq!(ret, SqlReturn::SUCCESS, "ODBC_CURSORS=0 should succeed");
    let ret = backend.set(&mut conn, ODBC_CURSORS, 1);
    assert_eq!(ret, SqlReturn::SUCCESS, "ODBC_CURSORS=1 should succeed");
    let ret = backend.set(&mut conn, ODBC_CURSORS, 2usize);
    assert_eq!(ret, SqlReturn::SUCCESS, "ODBC_CURSORS=2 should succeed");
}

#[test]
fn null_handle_returns_invalid() {
    let step = sql_set_connect_attr_w(None, &[], AUTOCOMMIT, 1, None, 0);
    assert!(matches!(step, Step::Done(SqlReturn::INVALID_HANDLE)));
    let answer = sql_get_connect_attr_w(None, AUTOCOMMIT, true, 0);
    assert_eq!(answer.code, SqlReturn::INVALID_HANDLE);
}

#[test]
fn get_unknown_attribute_returns_hy092() {
    let mut conn = ConnectionHandle::new();
    let answer = get(&mut conn, 99999);
    assert_eq!(answer.code, SqlReturn::ERROR);
    assert_eq!(
        first_sqlstate(&conn),
        sql_state::INVALID_ATTRIBUTE_OPTION_IDENTIFIER,
        "the state this test's name claims"
    );
}

#[test]
fn a_valid_but_unsupported_connection_attribute_is_hyc00() {
    let mut conn = ConnectionHandle::new();
    for (attribute, name) in [
        (QUIET_MODE, "SQL_ATTR_QUIET_MODE"),
        (TRACEFILE, "SQL_ATTR_TRACEFILE"),
        (TRANSLATE_LIB, "SQL_ATTR_TRANSLATE_LIB"),
        (ENLIST_IN_DTC, "SQL_ATTR_ENLIST_IN_DTC"),
        (
            ASYNC_DBC_FUNCTIONS_ENABLE,
            "SQL_ATTR_ASYNC_DBC_FUNCTIONS_ENABLE",
        ),
    ] {
        assert_eq!(get(&mut conn, attribute).code, SqlReturn::ERROR, "{name}");
        assert_eq!(
            first_sqlstate(&conn),
            "HYC00",
            "{name} must report the unsupported-feature state, not the \
             unknown-identifier one",
        );
    }
}

#[test]
fn an_identifier_that_is_not_a_connection_attribute_is_still_hy092() {
    const NOT_A_CONNECTION_ATTRIBUTE: i32 = 424_242;
    let mut conn = ConnectionHandle::new();
    assert_eq!(
        get(&mut conn, NOT_A_CONNECTION_ATTRIBUTE).code,
        SqlReturn::ERROR,
    );
    assert_eq!(first_sqlstate(&conn), "HY092");
}

#[test]
fn get_txn_isolation_default_comes_from_the_backend() {
    let mut backend = mock();
    let mut conn = backend.connected();
    let val = number(&mut conn, TXN_ISOLATION) as u32;
    assert_eq!(
        val, backend.default_isolation,
        "unset SQL_ATTR_TXN_ISOLATION ignored Backend::default_txn_isolation"
    );
    assert_ne!(
        val, SQL_TXN_READ_COMMITTED,
        "reported a constant rather than the backend's declared level"
    );
}

#[test]
fn set_txn_isolation_rejects_a_level_the_backend_does_not_support() {
    let mut backend = mock();
    let mut conn = backend.connected();
    let ret = backend.set(&mut conn, TXN_ISOLATION, SQL_TXN_READ_COMMITTED as usize);
    assert_eq!(ret, SqlReturn::ERROR);
    assert_eq!(first_sqlstate(&conn), "HY024");
}

#[test]
fn set_txn_isolation_rejects_a_multi_bit_value() {
    let mut conn = ConnectionHandle::new();
    let ret = mock().set(
        &mut conn,
        TXN_ISOLATION,
        (SQL_TXN_READ_COMMITTED | SQL_TXN_SERIALIZABLE) as usize,
    );
    assert_eq!(ret, SqlReturn::ERROR);
    assert_eq!(first_sqlstate(&conn), "HY024");
}

#[test]
fn one_level_is_validated_against_what_is_supported() {
    assert!(validate_txn_isolation(None, 4).is_ok());
    assert!(validate_txn_isolation(Some(6), 4).is_ok());
    for (supported, level) in [(None, 0), (None, 6), (Some(2), 4), (Some(8), 0)] {
        let e = validate_txn_isolation(supported, level).unwrap_err();
        assert_eq!(e.sqlstate().as_str(), "HY024", "{supported:?} {level}");
    }
}

#[test]
fn set_txn_isolation_accepts_a_supported_level() {
    let mut conn = ConnectionHandle::new();
    let ret = mock().set(&mut conn, TXN_ISOLATION, SQL_TXN_SERIALIZABLE as usize);
    assert_eq!(ret, SqlReturn::SUCCESS);
    assert_eq!(
        number(&mut conn, TXN_ISOLATION) as u32,
        SQL_TXN_SERIALIZABLE
    );
}

/// A data source that can run at every level.
fn switching() -> Backend {
    let mut backend = mock();
    backend.isolation_options = 15;
    backend.default_isolation = SQL_TXN_READ_COMMITTED;
    backend
}

#[test]
fn set_txn_isolation_reaches_the_backend() {
    let mut backend = switching();
    let mut conn = backend.connected();
    let ret = backend.set(&mut conn, TXN_ISOLATION, SQL_TXN_REPEATABLE_READ as usize);
    assert_eq!(ret, SqlReturn::SUCCESS);
    assert_eq!(
        backend.applied_isolation,
        Some(SQL_TXN_REPEATABLE_READ),
        "the level never reached the backend"
    );
}

#[test]
fn txn_isolation_set_before_connect_is_applied_on_connect() {
    let mut backend = switching();
    let mut conn = ConnectionHandle::new();
    assert_eq!(
        backend.set(&mut conn, TXN_ISOLATION, SQL_TXN_REPEATABLE_READ as usize),
        SqlReturn::SUCCESS,
        "pre-connect set must be accepted and deferred"
    );
    assert_eq!(backend.connect(&mut conn), SqlReturn::SUCCESS);
    assert_eq!(
        backend.applied_isolation,
        Some(SQL_TXN_REPEATABLE_READ),
        "deferred isolation level was silently dropped at connect"
    );
}

#[test]
fn multi_level_backend_without_the_hook_cannot_switch_levels() {
    let mut backend = switching();
    backend.switches_isolation = false;
    let mut conn = backend.connected();
    let ret = backend.set(&mut conn, TXN_ISOLATION, SQL_TXN_SERIALIZABLE as usize);
    assert_eq!(
        ret,
        SqlReturn::ERROR,
        "accepted a level the backend has no way to apply"
    );
}

#[test]
fn set_current_catalog_refuses_an_nts_value_that_runs_to_the_scan_cap() {
    let mut conn = ConnectionHandle::new();
    let wide = vec![u16::from(b'a'); MAX_NTS_SCAN];
    let step = sql_set_connect_attr_w(
        Some(&mut conn),
        &[],
        CURRENT_CATALOG,
        4096,
        Some(&wide),
        SQL_NTS,
    );
    assert!(matches!(step, Step::Done(SqlReturn::ERROR)));
    assert_eq!(
        first_sqlstate(&conn),
        sql_state::INVALID_STRING_OR_BUFFER_LENGTH
    );
    assert!(
        conn.catalog.is_none(),
        "a refused value must not be stored",
    );
}

/// A data source with one catalog.
fn one_catalog() -> Backend {
    let mut backend = mock();
    backend.good_catalog = Some("good");
    backend
}

#[test]
fn set_current_catalog_propagates_the_backends_3d000() {
    let mut backend = one_catalog();
    let mut conn = ConnectionHandle::new();
    assert_eq!(
        backend.connect(&mut conn),
        SqlReturn::SUCCESS,
        "precondition: connected, so the hook is reached",
    );

    let (ret, state) = backend.set_catalog(&mut conn, &[], "nope");
    assert_eq!(ret, SqlReturn::ERROR);
    assert_eq!(
        state.as_deref(),
        Some("3D000"),
        "the data source's verdict on the catalog name, not one made up on the way",
    );
}

#[test]
fn set_current_catalog_stores_a_catalog_the_backend_accepted() {
    let mut backend = one_catalog();
    let mut conn = ConnectionHandle::new();
    assert_eq!(
        backend.connect(&mut conn),
        SqlReturn::SUCCESS,
        "precondition: connected, so the hook is reached",
    );

    let (ret, _) = backend.set_catalog(&mut conn, &[], "good");
    assert_eq!(ret, SqlReturn::SUCCESS);
    assert_eq!(
        conn.catalog.as_deref(),
        Some("good"),
        "core stores the value only once the data source agreed to it",
    );
}

#[test]
fn a_pre_connect_catalog_the_backend_rejects_fails_the_connect_with_3d000() {
    let mut backend = one_catalog();
    let mut conn = ConnectionHandle::new();

    let (ret, _) = backend.set_catalog(&mut conn, &[], "nope");
    assert_eq!(
        ret,
        SqlReturn::SUCCESS,
        "precondition: with no connection yet the value is only stored",
    );

    assert_eq!(
        backend.connect(&mut conn),
        SqlReturn::ERROR,
        "a catalog the data source rejects must not be reported as applied",
    );
    assert_eq!(first_sqlstate(&conn), "3D000");
}

#[test]
fn switching_autocommit_on_ends_the_open_transaction() {
    let mut backend = mock();
    backend.manual_commit = true;
    let mut conn = backend.connected();
    assert_eq!(
        backend.set(&mut conn, AUTOCOMMIT, SQL_AUTOCOMMIT_OFF),
        SqlReturn::SUCCESS
    );
    conn.txn_dirty = true;
    assert_eq!(
        backend.set(&mut conn, AUTOCOMMIT, SQL_AUTOCOMMIT_ON),
        SqlReturn::SUCCESS
    );
    assert!(!conn.txn_dirty);
    assert_eq!(
        backend.set(&mut conn, TXN_ISOLATION, SQL_TXN_SERIALIZABLE as usize),
        SqlReturn::SUCCESS
    );
}
