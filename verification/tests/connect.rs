//! Opening and closing connections, browsing, and native SQL.

use stackable_odbc_core::connect::{
    ConnectStep, OpenStep, ask_for_one, browse_connect_answered, browse_pending_answered,
    connect_answered, disconnect_answered, merge_dsn_params, native_sql_answer, pending_answered, read_dsn_keys, sql_browse_connect_w, sql_connect_w,
    sql_disconnect, sql_driver_connect_w, sql_native_sql_w,
};
use stackable_odbc_core::diag::sql_get_diag_rec_w;
use stackable_odbc_core::errors::OdbcError;
use stackable_odbc_core::escape::EscapeDialect;
use stackable_odbc_core::handles::{BackendCall, ConnectionHandle, Session, Step};
use stackable_odbc_core::params::ConnectParams;
use stackable_odbc_core::types::{SqlReturn, SqlState};
use stackable_odbc_core::utf16::{SQL_NTS, TextWrite};

const INPUT: &str = "Host=localhost;Port=8080;Database=test;User=me";

fn wide(text: &str) -> Vec<u16> {
    text.encode_utf16().collect()
}

fn no_dsn(_: &str) -> Vec<(String, String)> {
    vec![]
}

fn session() -> Session {
    Session {
        txn_isolation_options: 8,
        default_txn_isolation: 8,
        connection_dead: false,
        current_catalog: None,
    }
}

/// Plays a backend that accepts everything.
fn accept(conn: &mut ConnectionHandle, step: ConnectStep) -> (SqlReturn, Option<TextWrite>) {
    match step {
        ConnectStep::Done { code, text } => (code, text),
        ConnectStep::Connect { params: _, output } => {
            let mut open = connect_answered(conn, Ok(session()));
            loop {
                open = match open {
                    OpenStep::Done(code) | OpenStep::Abandon(code) => return (code, Some(output)),
                    OpenStep::Ask(_, rest) => pending_answered(conn, rest, Ok(())),
                };
            }
        }
    }
}

fn driver_connect(
    conn: &mut ConnectionHandle,
    input: &str,
    wanted: bool,
    buffer_length: i16,
) -> (SqlReturn, Option<TextWrite>) {
    let units = wide(input);
    let step = sql_driver_connect_w(
        Some(conn),
        Some(&units),
        units.len() as i16,
        wanted,
        buffer_length,
        &no_dsn,
        &[],
    );
    accept(conn, step)
}

fn connect_handle(conn: &mut ConnectionHandle) -> SqlReturn {
    driver_connect(conn, INPUT, false, 0).0
}

fn connected() -> ConnectionHandle {
    let mut conn = ConnectionHandle::new();
    assert_eq!(connect_handle(&mut conn), SqlReturn::SUCCESS);
    conn
}

fn disconnect(conn: &mut ConnectionHandle) -> SqlReturn {
    match sql_disconnect(Some(conn)) {
        Step::Done(code) => code,
        Step::Ask(call) => {
            assert!(matches!(call, BackendCall::Disconnect));
            disconnect_answered(conn, Ok(()))
        }
    }
}

fn first_sqlstate(conn: &ConnectionHandle) -> String {
    conn.diagnostics
        .get(0)
        .expect("a diagnostic record")
        .sqlstate
        .as_str()
        .to_string()
}

fn refused(step: ConnectStep) -> SqlReturn {
    match step {
        ConnectStep::Done { code, text: None } => code,
        _ => panic!("the call was to be refused"),
    }
}

#[test]
fn merge_dsn_params_takes_dsn_value_when_the_connection_string_omits_it() {
    let params = merge_dsn_params(
        "DSN=prod",
        &|dsn: &str| {
            assert_eq!(dsn, "prod");
            vec![("Host".into(), "dsn-host.internal".into())]
        },
        &[],
    );

    assert_eq!(params.get("host"), Some("dsn-host.internal"));
}

#[test]
fn merge_dsn_params_explicit_value_wins_over_the_dsn_file() {
    let params = merge_dsn_params(
        "DSN=prod;Host=explicit.internal",
        &|_: &str| vec![("Host".into(), "dsn-host.internal".into())],
        &[],
    );

    assert_eq!(params.get("host"), Some("explicit.internal"));
}

#[test]
fn merge_dsn_params_explicit_credentials_win_over_the_dsn_file() {
    let params = merge_dsn_params(
        "DSN=prod;UID=alice;PWD=alicepw",
        &|_: &str| {
            vec![
                ("UID".into(), "admin".into()),
                ("PWD".into(), "hunter2".into()),
            ]
        },
        &[],
    );

    assert_eq!(params.get("uid"), Some("alice"));
    assert_eq!(params.get("pwd"), Some("alicepw"));
}

#[test]
fn merge_dsn_params_dsn_value_containing_a_semicolon_cannot_inject_keywords() {
    let params = merge_dsn_params(
        "DSN=prod;Host=explicit.internal",
        &|_: &str| {
            vec![(
                "Description".into(),
                "x;UID=admin;PWD=hunter2;Host=attacker.example.com".into(),
            )]
        },
        &[],
    );

    assert_eq!(
        params.get("description"),
        Some("x;UID=admin;PWD=hunter2;Host=attacker.example.com")
    );
    assert_eq!(params.get("host"), Some("explicit.internal"));
    assert_eq!(params.get("uid"), None);
    assert_eq!(params.get("pwd"), None);
}

#[test]
fn merge_dsn_params_dsn_value_containing_an_equals_sign_survives_the_round_trip() {
    let params = merge_dsn_params(
        "DSN=prod",
        &|_: &str| vec![("Token".into(), "abc=def==".into())],
        &[],
    );

    assert_eq!(params.get("token"), Some("abc=def=="));
}

#[test]
fn merge_dsn_params_seeds_the_backend_declared_sensitive_keywords() {
    let params = merge_dsn_params(
        "Host=explicit.internal;Wallet=abc123",
        &|_: &str| vec![],
        &["wallet"],
    );
    let debug_str = params.describe();
    assert!(
        !debug_str.contains("abc123"),
        "backend-declared keyword must be redacted, got: {debug_str}"
    );
    assert!(debug_str.contains("explicit.internal"));
}

#[test]
fn merge_dsn_params_leaves_a_backend_declaring_nothing_with_the_built_in_markers() {
    let params = merge_dsn_params(
        "Host=explicit.internal;Wallet=abc123;Pwd=s3cr3t",
        &|_: &str| vec![],
        &[],
    );
    let debug_str = params.describe();
    assert!(debug_str.contains("abc123"), "got: {debug_str}");
    assert!(!debug_str.contains("s3cr3t"), "got: {debug_str}");
}

#[test]
fn merge_dsn_params_without_a_dsn_key_never_consults_the_resolver() {
    let params = merge_dsn_params(
        "Host=explicit.internal",
        &|_: &str| panic!("resolver must not be called when the connection string has no DSN="),
        &[],
    );

    assert_eq!(params.get("host"), Some("explicit.internal"));
}

#[test]
fn driver_connect_and_disconnect() {
    let mut conn = ConnectionHandle::new();
    let (ret, output) = driver_connect(&mut conn, INPUT, true, 128);
    assert_eq!(ret, SqlReturn::SUCCESS);
    assert_eq!(output.unwrap().length as usize, wide(INPUT).len());

    let ret = disconnect(&mut conn);
    assert_eq!(ret, SqlReturn::SUCCESS);
    assert!(conn.connection.is_none());
}

#[test]
fn driver_connect_output_truncation() {
    let mut conn = ConnectionHandle::new();
    let (ret, output) = driver_connect(&mut conn, INPUT, true, 6);
    assert_eq!(ret, SqlReturn::SUCCESS);
    let output = output.unwrap();
    assert_eq!(output.length as usize, wide(INPUT).len());
    assert_eq!(String::from_utf16_lossy(&output.units.unwrap()), "Host=\0");
}

#[test]
fn disconnect_when_not_connected_returns_error() {
    let mut conn = ConnectionHandle::new();
    let ret = disconnect(&mut conn);
    assert_eq!(ret, SqlReturn::ERROR);
    assert_eq!(first_sqlstate(&conn), "08003");
}

#[test]
fn driver_connect_null_output_buffer() {
    let mut conn = ConnectionHandle::new();
    let (ret, output) = driver_connect(&mut conn, INPUT, false, 0);
    assert_eq!(ret, SqlReturn::SUCCESS);
    assert_eq!(output.unwrap().length as usize, wide(INPUT).len());
}

#[test]
fn connect_when_already_connected_returns_error() {
    let mut conn = ConnectionHandle::new();
    let ret = connect_handle(&mut conn);
    assert_eq!(ret, SqlReturn::SUCCESS);

    let ret = connect_handle(&mut conn);
    assert_eq!(ret, SqlReturn::ERROR);
    assert_eq!(first_sqlstate(&conn), "08002");
}

#[test]
fn connect_negative_string_length_returns_error() {
    let mut conn = ConnectionHandle::new();
    let units = wide("Database=test");
    let ret = refused(sql_driver_connect_w(
        Some(&mut conn),
        Some(&units),
        -5,
        false,
        0,
        &no_dsn,
        &[],
    ));
    assert_eq!(ret, SqlReturn::ERROR);
    assert_eq!(first_sqlstate(&conn), "HY090");
}

#[test]
fn connect_sql_nts_string_length_succeeds() {
    let mut conn = ConnectionHandle::new();
    let units = wide("Host=localhost;Port=8080;Database=test;User=me\0");
    let step = sql_driver_connect_w(
        Some(&mut conn),
        Some(&units),
        SQL_NTS as i16,
        false,
        0,
        &no_dsn,
        &[],
    );
    let (ret, _) = accept(&mut conn, step);
    assert_eq!(ret, SqlReturn::SUCCESS);
}

#[test]
fn driver_connect_null_connection_string_returns_hy009() {
    let mut conn = ConnectionHandle::new();
    let ret = refused(sql_driver_connect_w(
        Some(&mut conn),
        None,
        0,
        false,
        0,
        &no_dsn,
        &[],
    ));
    assert_eq!(ret, SqlReturn::ERROR);
    assert_eq!(first_sqlstate(&conn), "HY009");
}

#[test]
fn connect_negative_buffer_length_returns_error() {
    let mut conn = ConnectionHandle::new();
    let (ret, _) = driver_connect(&mut conn, "Database=test", true, -1);
    assert_eq!(ret, SqlReturn::ERROR);
    assert_eq!(first_sqlstate(&conn), "HY090");
}

#[test]
fn disconnect_then_free_succeeds() {
    let mut conn = ConnectionHandle::new();
    let ret = connect_handle(&mut conn);
    assert_eq!(ret, SqlReturn::SUCCESS);

    let ret = disconnect(&mut conn);
    assert_eq!(ret, SqlReturn::SUCCESS);

    assert!(conn.connection.is_none());
}

#[test]
fn a_failing_disconnect_keeps_the_connection() {
    let mut conn = connected();
    assert!(matches!(
        sql_disconnect(Some(&mut conn)),
        Step::Ask(BackendCall::Disconnect)
    ));
    let ret = disconnect_answered(
        &mut conn,
        Err(OdbcError::general(
            "gone",
            SqlState::communication_link_failure(),
        )),
    );
    assert_eq!(ret, SqlReturn::ERROR);
    assert!(conn.connection.is_some());
    assert_eq!(first_sqlstate(&conn), "08S01");
    assert!(matches!(
        sql_disconnect(None),
        Step::Done(SqlReturn::INVALID_HANDLE)
    ));
}

#[test]
fn a_failing_connect_leaves_no_connection() {
    let mut conn = ConnectionHandle::new();
    let step = connect_answered(
        &mut conn,
        Err(OdbcError::general("no", SqlState::general_error())),
    );
    assert!(matches!(step, OpenStep::Done(SqlReturn::ERROR)));
    assert!(conn.connection.is_none());
}

#[test]
fn connect_w_invalid_name_length_returns_hy090() {
    let mut conn = ConnectionHandle::new();
    let server_name = wide("testdsn");
    let ret = refused(sql_connect_w(
        Some(&mut conn),
        Some(&server_name),
        -1i16,
        None,
        0,
        None,
        0,
        &no_dsn,
        &[],
    ));
    assert_eq!(ret, SqlReturn::ERROR);
    assert_eq!(first_sqlstate(&conn), "HY090");
}

#[test]
fn connect_w_takes_the_data_source_and_the_given_credentials() {
    let mut conn = ConnectionHandle::new();
    let server = wide("prod");
    let user = wide("alice");
    let secret = wide("alicepw");
    let step = sql_connect_w(
        Some(&mut conn),
        Some(&server),
        4,
        Some(&user),
        5,
        Some(&secret),
        7,
        &|dsn: &str| {
            assert_eq!(dsn, "prod");
            vec![
                ("Host".into(), "h".into()),
                ("user".into(), "admin".into()),
            ]
        },
        &[],
    );
    match step {
        ConnectStep::Connect { params, output } => {
            assert_eq!(params.get("host"), Some("h"));
            assert_eq!(params.get("user"), Some("alice"));
            assert_eq!(params.get("password"), Some("alicepw"));
            assert!(output.units.is_none());
        }
        _ => panic!("the backend was to be asked"),
    }
    assert_eq!(
        refused(sql_connect_w(
            None, None, 0, None, 0, None, 0, &no_dsn, &[]
        )),
        SqlReturn::INVALID_HANDLE
    );
}

#[test]
fn native_sql_w_translates_escapes() {
    let mut conn = connected();
    let sql = "SELECT * FROM t WHERE d = {d '2020-01-01'}";
    let expected = "SELECT * FROM t WHERE d = DATE '2020-01-01'";
    let units = wide(sql);
    let answer = sql_native_sql_w(
        Some(&mut conn),
        Some(&units),
        units.len() as i32,
        true,
        128,
        &EscapeDialect::ansi_default(),
    );
    assert_eq!(answer.code, SqlReturn::SUCCESS);
    let out_len = answer.length.unwrap() as usize;
    assert_eq!(out_len, wide(expected).len());
    let result = String::from_utf16_lossy(&answer.units.unwrap()[..out_len]);
    assert_eq!(result, expected);
}

#[test]
fn native_sql_w_call_escape_fails_with_hy000() {
    let mut conn = connected();
    let units = wide("{call foo()}");
    let answer = sql_native_sql_w(
        Some(&mut conn),
        Some(&units),
        units.len() as i32,
        true,
        128,
        &EscapeDialect::ansi_default(),
    );
    assert_eq!(answer.code, SqlReturn::ERROR);

    let record = sql_get_diag_rec_w(Some(&conn.diagnostics), 1, true, 256);
    assert_eq!(record.code, SqlReturn::SUCCESS);
    let sqlstate = String::from_utf16_lossy(&record.sqlstate.unwrap()[..5]);
    assert_eq!(sqlstate, "HY000");
}

#[test]
fn native_sql_w_truncates_and_returns_success_with_info() {
    let mut conn = connected();
    let units = wide("SELECT 1");
    let answer = sql_native_sql_w(
        Some(&mut conn),
        Some(&units),
        units.len() as i32,
        true,
        4,
        &EscapeDialect::ansi_default(),
    );
    assert_eq!(answer.code, SqlReturn::SUCCESS_WITH_INFO);
    assert_eq!(answer.length.unwrap() as usize, units.len());
    assert_eq!(answer.units.unwrap()[3], 0);
    assert_eq!(first_sqlstate(&conn), "01004");
}

#[test]
fn native_sql_w_null_out_ptr_still_reports_length() {
    let mut conn = connected();
    let units = wide("SELECT 1");
    let answer = sql_native_sql_w(
        Some(&mut conn),
        Some(&units),
        units.len() as i32,
        false,
        0,
        &EscapeDialect::ansi_default(),
    );
    assert_eq!(answer.code, SqlReturn::SUCCESS);
    assert_eq!(answer.length.unwrap() as usize, units.len());
}

#[test]
fn native_sql_w_not_connected_returns_error() {
    let mut conn = ConnectionHandle::new();
    let units = wide("SELECT 1");
    let answer = sql_native_sql_w(
        Some(&mut conn),
        Some(&units),
        units.len() as i32,
        false,
        0,
        &EscapeDialect::ansi_default(),
    );
    assert_eq!(answer.code, SqlReturn::ERROR);
    assert_eq!(first_sqlstate(&conn), "08003");
}

#[test]
fn native_sql_w_null_in_sql_returns_error() {
    let mut conn = connected();
    let answer = sql_native_sql_w(
        Some(&mut conn),
        None,
        0,
        false,
        0,
        &EscapeDialect::ansi_default(),
    );
    assert_eq!(answer.code, SqlReturn::ERROR);
    assert_eq!(first_sqlstate(&conn), "HY009");
}

#[test]
fn native_sql_w_null_handle_returns_invalid() {
    let answer = sql_native_sql_w(None, None, 0, false, 0, &EscapeDialect::ansi_default());
    assert_eq!(answer.code, SqlReturn::INVALID_HANDLE);
}

#[test]
fn native_sql_reports_why_a_translation_failed() {
    let mut conn = ConnectionHandle::new();
    let answer = native_sql_answer(
        &mut conn,
        Err(OdbcError::general(
            "bad",
            SqlState::syntax_error_or_access_violation(),
        )),
        true,
        8,
    );
    assert_eq!(answer.code, SqlReturn::ERROR);
    assert_eq!(
        conn.diagnostics.get(0).unwrap().message,
        "failed to translate ODBC escapes: bad"
    );
}

#[test]
fn browse_connect_null_handle() {
    let ret = refused(sql_browse_connect_w(
        None, None, 0, false, 0, &[], &no_dsn, &[],
    ));
    assert_eq!(ret, SqlReturn::INVALID_HANDLE);
}

#[test]
fn browse_connect_already_connected() {
    let mut conn = connected();
    let units = wide("Host=localhost");
    let ret = refused(sql_browse_connect_w(
        Some(&mut conn),
        Some(&units),
        units.len() as i16,
        false,
        0,
        &[],
        &no_dsn,
        &[],
    ));
    assert_eq!(ret, SqlReturn::ERROR);
    assert_eq!(first_sqlstate(&conn), "08002");
}

#[test]
fn browse_connect_null_input_string() {
    let mut conn = ConnectionHandle::new();
    let ret = refused(sql_browse_connect_w(
        Some(&mut conn),
        None,
        0,
        false,
        0,
        &[],
        &no_dsn,
        &[],
    ));
    assert_eq!(ret, SqlReturn::ERROR);
    assert_eq!(first_sqlstate(&conn), "HY009");
}

#[test]
fn browse_connect_success_with_no_required_attrs() {
    let mut conn = ConnectionHandle::new();
    let units = wide("Host=localhost;Port=8080;User=me");
    let step = sql_browse_connect_w(
        Some(&mut conn),
        Some(&units),
        units.len() as i16,
        true,
        256,
        &[],
        &no_dsn,
        &[],
    );
    let (ret, output) = accept(&mut conn, step);
    assert_eq!(ret, SqlReturn::SUCCESS);
    assert!(output.unwrap().length > 0);
}

#[test]
fn browsing_asks_for_what_is_missing_and_remembers_what_was_given() {
    let mut conn = ConnectionHandle::new();
    let required = ["host", "user", "stra\u{df}e"];
    let mut round = |text: &str| {
        let units = wide(text);
        sql_browse_connect_w(
            Some(&mut conn),
            Some(&units),
            units.len() as i16,
            true,
            256,
            &required,
            &no_dsn,
            &[],
        )
    };
    let asked = |step: ConnectStep| match step {
        ConnectStep::Done {
            code: SqlReturn::NEED_DATA,
            text: Some(text),
        } => String::from_utf16_lossy(&text.units.unwrap()[..text.length as usize]),
        _ => panic!("attributes were to be asked for"),
    };
    assert_eq!(
        asked(round("Host=a")),
        "user:USER=?;stra\u{df}e:STRASSE=?"
    );
    assert_eq!(asked(round("USER=me;Host=b")), "stra\u{df}e:STRASSE=?");
    match round("stra\u{df}e=1") {
        ConnectStep::Connect { params, output: _ } => {
            assert_eq!(params.get("host"), Some("b"));
            assert_eq!(params.get("user"), Some("me"));
        }
        _ => panic!("the backend was to be asked"),
    }
    let kept = conn.browse_request.as_ref().unwrap();
    assert_eq!(kept.get("host"), Some("b"));
    assert_eq!(kept.get("stra\u{df}e"), Some("1"));
    assert_eq!(ask_for_one("pwd", "PWD"), "pwd:PWD=?");
}

/// One round of browsing for a host and a user.
fn browse(conn: &mut ConnectionHandle, text: &str) -> ConnectStep {
    let units = wide(text);
    sql_browse_connect_w(
        Some(conn),
        Some(&units),
        units.len() as i16,
        true,
        256,
        &["host", "user"],
        &no_dsn,
        &[],
    )
}

#[test]
fn what_browsing_gathered_is_kept_until_a_connect_succeeds() {
    let mut conn = ConnectionHandle::new();
    let refusal = || OdbcError::general("no", SqlState::general_error());
    assert!(matches!(
        browse(&mut conn, "Host=a"),
        ConnectStep::Done {
            code: SqlReturn::NEED_DATA,
            ..
        }
    ));

    // The backend refuses the connection.
    assert!(matches!(
        browse(&mut conn, "User=me"),
        ConnectStep::Connect { .. }
    ));
    let next = browse_connect_answered(&mut conn, Err(refusal()));
    assert!(matches!(next, OpenStep::Done(SqlReturn::ERROR)));
    assert_eq!(first_sqlstate(&conn), "HY000");
    let kept = conn.browse_request.as_ref().unwrap();
    assert_eq!(kept.get("host"), Some("a"));
    assert_eq!(kept.get("user"), Some("me"));

    // It refuses an attribute that was set before.
    conn.catalog = Some("c".to_string());
    match browse(&mut conn, "Host=b") {
        ConnectStep::Connect { params, output: _ } => {
            assert_eq!(params.get("host"), Some("b"));
            assert_eq!(params.get("user"), Some("me"));
        }
        _ => panic!("the backend was to be asked"),
    }
    let rest = match browse_connect_answered(&mut conn, Ok(session())) {
        OpenStep::Ask(BackendCall::SetCurrentCatalog(catalog), rest) => {
            assert_eq!(catalog, "c");
            rest
        }
        _ => panic!("the catalog was to be set"),
    };
    assert!(conn.browse_request.is_some());
    let next = browse_pending_answered(&mut conn, rest, Err(refusal()));
    assert!(matches!(next, OpenStep::Abandon(SqlReturn::ERROR)));
    assert!(conn.connection.is_none());
    assert_eq!(
        conn.browse_request.as_ref().unwrap().get("host"),
        Some("b")
    );

    // It takes both.
    assert!(matches!(
        browse(&mut conn, ""),
        ConnectStep::Connect { .. }
    ));
    let rest = match browse_connect_answered(&mut conn, Ok(session())) {
        OpenStep::Ask(_, rest) => rest,
        _ => panic!("the catalog was to be set"),
    };
    let next = browse_pending_answered(&mut conn, rest, Ok(()));
    assert!(matches!(next, OpenStep::Done(SqlReturn::SUCCESS)));
    assert!(conn.browse_request.is_none());
}

#[test]
fn a_length_that_is_none_is_refused_without_a_text_too() {
    let server = wide("dsn");
    for (length1, length2, length3) in [(-5, 0, 0), (3, -5, 0), (3, 0, -5)] {
        let mut conn = ConnectionHandle::new();
        let ret = refused(sql_connect_w(
            Some(&mut conn),
            Some(&server),
            length1,
            None,
            length2,
            None,
            length3,
            &no_dsn,
            &[],
        ));
        assert_eq!(ret, SqlReturn::ERROR);
        assert_eq!(first_sqlstate(&conn), "HY090");
        assert!(conn.connection.is_none());
    }
}

#[test]
fn native_sql_for_a_buffer_without_room_is_cut() {
    let mut conn = connected();
    let sql = wide("SELECT 1");
    let answer = sql_native_sql_w(
        Some(&mut conn),
        Some(&sql),
        sql.len() as i32,
        true,
        0,
        &EscapeDialect::ansi_default(),
    );
    assert_eq!(answer.code, SqlReturn::SUCCESS_WITH_INFO);
    assert_eq!(first_sqlstate(&conn), "01004");
    assert_eq!(answer.length, Some(8));
    assert!(answer.units.is_none());
}

#[test]
fn data_source_keys_are_read_one_by_one_and_lengths_are_clamped() {
    let keys = wide("Driver\0Host\0\0Port\0Empty\0\0");
    let profile = |entry: Option<&str>| -> (Vec<u16>, i32) {
        match entry {
            None => (keys.clone(), 9999),
            Some("Host") => (wide("example"), 3),
            Some("Port") => (wide("8080"), 100),
            Some("Empty") => (wide(""), 0),
            Some(other) => panic!("{other} was not to be read"),
        }
    };
    assert_eq!(
        read_dsn_keys(&profile),
        vec![
            ("Host".to_string(), "exa".to_string()),
            ("Port".to_string(), "8080".to_string()),
        ]
    );
    assert!(read_dsn_keys(&|_: Option<&str>| (wide("Host"), 0)).is_empty());
}

#[test]
fn connection_strings_parse_and_render() {
    let mut params = ConnectParams::parse("Host = h ;PWD={a;b};User=u;host=second");
    assert_eq!(params.get("HOST"), Some("h"));
    assert_eq!(params.get("pwd"), Some("a;b"));
    params.insert("Port", "1");
    assert_eq!(params.get("port"), Some("1"));
    assert!(!params.describe().contains("a;b"));
    let again = ConnectParams::parse(&params.to_connection_string());
    assert_eq!(again.get("user"), Some("u"));
    params.set_timeouts(Some(5), None);
    assert_eq!(params.login_timeout(), Some(5));
    assert_eq!(params.connection_timeout(), None);
    let mut other = ConnectParams::new();
    other.insert("USER", "kept");
    other.merge(&params);
    assert_eq!(other.get("user"), Some("kept"));
    assert_eq!(other.get("port"), Some("1"));
}

#[test]
fn what_is_shown_does_not_depend_on_the_credentials() {
    let shown = |secret: &str| {
        merge_dsn_params(
            &format!("Host=h;PWD={secret};MyToken={secret};Wallet={secret}"),
            &no_dsn,
            &["WALLET"],
        )
        .describe()
    };
    assert_eq!(shown("a"), "host=h;pwd=***;mytoken=***;wallet=***;");
    assert_eq!(shown("a"), shown("bb"));
}
