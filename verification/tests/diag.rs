//! Reading diagnostics.

use stackable_odbc_core::cursor::sql_row_count;
use stackable_odbc_core::diag::{
    CURSOR_ROW_COUNT_UNAVAILABLE, DiagAnswer, DiagSource, DiagWrite, ODBC_SPECIFIC_SUBCLASS_STATES,
    SQL_DIAG_CLASS_ORIGIN, SQL_DIAG_COLUMN_NUMBER, SQL_DIAG_CONNECTION_NAME,
    SQL_DIAG_CURSOR_ROW_COUNT, SQL_DIAG_DYNAMIC_FUNCTION, SQL_DIAG_DYNAMIC_FUNCTION_CODE,
    SQL_DIAG_MESSAGE_TEXT, SQL_DIAG_NATIVE, SQL_DIAG_NUMBER, SQL_DIAG_ORIGIN_ISO,
    SQL_DIAG_ORIGIN_ODBC, SQL_DIAG_RETURNCODE, SQL_DIAG_ROW_COUNT, SQL_DIAG_ROW_NUMBER,
    SQL_DIAG_SERVER_NAME, SQL_DIAG_SQLSTATE, SQL_DIAG_SUBCLASS_ORIGIN, SQL_DIAG_UNKNOWN_STATEMENT,
    SQL_NO_COLUMN_NUMBER, SQL_NO_ROW_NUMBER, class_origin, sql_get_diag_field_w,
    sql_get_diag_rec_w, statement_header_field, subclass_origin,
};
use stackable_odbc_core::diagnostics::DiagnosticQueue;
use stackable_odbc_core::errors::OdbcError;
use stackable_odbc_core::handles::{
    ConnectionHandle, EnvironmentHandle, StatementData, StatementHandle,
};
use stackable_odbc_core::types::{SqlReturn, SqlState, sql_state};

const DIAG_MSG_BUF_LEN: i16 = 256;

/// `SQL_IS_INTEGER` and `SQL_IS_SMALLINT`.
const IS_INTEGER: i16 = -6;
const IS_SMALLINT: i16 = -8;

fn not_connected() -> EnvironmentHandle {
    let mut env = EnvironmentHandle::new();
    env.diagnostics.push(&OdbcError::NotConnected);
    env
}

fn with_rows(rows: i64) -> StatementHandle {
    let mut stmt = StatementHandle::new();
    stmt.statement = Some(StatementData {
        column_count: 1,
        row_count: Some(rows),
    });
    stmt
}

fn state_text(units: &Option<Vec<u16>>) -> String {
    String::from_utf16_lossy(&units.as_ref().unwrap()[..5])
}

fn field(queue: &DiagnosticQueue, rec: i16, id: i16, buffer_length: i16) -> DiagAnswer {
    sql_get_diag_field_w(DiagSource::Other(queue), rec, id, true, buffer_length)
}

fn integer(answer: &DiagAnswer) -> i32 {
    match answer.value {
        Some(DiagWrite::Integer(n)) => n,
        _ => panic!("a SQLINTEGER was expected"),
    }
}

fn sqllen(answer: &DiagAnswer) -> isize {
    match answer.value {
        Some(DiagWrite::Length(n)) => n,
        _ => panic!("a SQLLEN was expected"),
    }
}

#[test]
fn diag_rec_returns_no_data_when_empty() {
    let env = EnvironmentHandle::new();
    let answer = sql_get_diag_rec_w(Some(&env.diagnostics), 1, true, DIAG_MSG_BUF_LEN);
    assert_eq!(answer.code, SqlReturn::NO_DATA);
}

#[test]
fn diag_rec_returns_record_after_error() {
    let env = not_connected();
    let answer = sql_get_diag_rec_w(Some(&env.diagnostics), 1, true, DIAG_MSG_BUF_LEN);
    assert_eq!(answer.code, SqlReturn::SUCCESS);

    let state_str = state_text(&answer.sqlstate);
    assert_eq!(state_str, sql_state::CONNECTION_NOT_OPEN);
    assert_eq!(answer.sqlstate.unwrap()[5], 0);

    let write = answer.message.unwrap();
    assert!(write.length > 0);
    let message = String::from_utf16_lossy(&write.units.unwrap()[..write.length as usize]);
    assert!(message.contains("Connection not established"));

    let answer = sql_get_diag_rec_w(Some(&env.diagnostics), 2, true, DIAG_MSG_BUF_LEN);
    assert_eq!(answer.code, SqlReturn::NO_DATA);
}

#[test]
fn diag_rec_invalid_handle() {
    let answer = sql_get_diag_rec_w(None, 1, false, 0);
    assert_eq!(answer.code, SqlReturn::INVALID_HANDLE);
}

#[test]
fn diag_rec_zero_rec_number_returns_error() {
    let env = EnvironmentHandle::new();
    let answer = sql_get_diag_rec_w(Some(&env.diagnostics), 0, false, 0);
    assert_eq!(answer.code, SqlReturn::ERROR);

    let answer = sql_get_diag_rec_w(Some(&env.diagnostics), -1, false, 0);
    assert_eq!(answer.code, SqlReturn::ERROR);
}

#[test]
fn diag_rec_negative_buffer_length_returns_error() {
    let env = not_connected();
    let answer = sql_get_diag_rec_w(Some(&env.diagnostics), 1, true, -1);
    assert_eq!(answer.code, SqlReturn::ERROR);
}

#[test]
fn diag_rec_truncated_message_returns_success_with_info() {
    let env = not_connected();
    let answer = sql_get_diag_rec_w(Some(&env.diagnostics), 1, true, 4);
    assert_eq!(answer.code, SqlReturn::SUCCESS_WITH_INFO);
    let write = answer.message.unwrap();
    assert!(write.length > 3);
    assert_eq!(String::from_utf16_lossy(&write.units.unwrap()), "Con\0");
    // Reading posts nothing of its own.
    assert_eq!(env.diagnostics.len(), 1);
}

#[test]
fn diag_rec_null_sql_state_pointer() {
    let env = not_connected();
    let answer = sql_get_diag_rec_w(Some(&env.diagnostics), 1, true, DIAG_MSG_BUF_LEN);
    assert_eq!(answer.code, SqlReturn::SUCCESS);
    assert!(answer.message.unwrap().length > 0);
}

#[test]
fn diag_rec_null_native_error_pointer() {
    let env = not_connected();
    let answer = sql_get_diag_rec_w(Some(&env.diagnostics), 1, true, DIAG_MSG_BUF_LEN);
    assert_eq!(answer.code, SqlReturn::SUCCESS);
    assert_eq!(state_text(&answer.sqlstate), sql_state::CONNECTION_NOT_OPEN);
}

#[test]
fn diag_rec_null_message_text_pointer() {
    let env = not_connected();
    let answer = sql_get_diag_rec_w(Some(&env.diagnostics), 1, false, 0);
    assert_eq!(answer.code, SqlReturn::SUCCESS);
    let write = answer.message.unwrap();
    assert!(write.length > 0);
    assert!(write.units.is_none());
}

#[test]
fn diag_rec_multiple_records_in_order() {
    let mut env = not_connected();
    env.diagnostics.push(&OdbcError::NoResultSet);
    env.diagnostics.push(&OdbcError::NotImplemented {
        feature: "test".into(),
    });

    let read = |rec: i16| sql_get_diag_rec_w(Some(&env.diagnostics), rec, true, DIAG_MSG_BUF_LEN);

    let answer = read(1);
    assert_eq!(answer.code, SqlReturn::SUCCESS);
    assert_eq!(state_text(&answer.sqlstate), sql_state::CONNECTION_NOT_OPEN);

    let answer = read(2);
    assert_eq!(answer.code, SqlReturn::SUCCESS);
    assert_eq!(
        state_text(&answer.sqlstate),
        sql_state::INVALID_CURSOR_STATE
    );

    let answer = read(3);
    assert_eq!(answer.code, SqlReturn::SUCCESS);
    assert_eq!(
        state_text(&answer.sqlstate),
        sql_state::OPTIONAL_FEATURE_NOT_IMPLEMENTED
    );

    let answer = read(4);
    assert_eq!(answer.code, SqlReturn::NO_DATA);
}

#[test]
fn diag_rec_on_connection_handle() {
    let mut conn = ConnectionHandle::new();
    conn.diagnostics.push(&OdbcError::NotConnected);
    let answer = sql_get_diag_rec_w(Some(&conn.diagnostics), 1, true, DIAG_MSG_BUF_LEN);
    assert_eq!(answer.code, SqlReturn::SUCCESS);
    assert_eq!(state_text(&answer.sqlstate), sql_state::CONNECTION_NOT_OPEN);
}

#[test]
fn diag_rec_on_statement_handle() {
    let mut stmt = StatementHandle::new();
    stmt.diagnostics.push(&OdbcError::NoResultSet);
    let answer = sql_get_diag_rec_w(
        DiagSource::Statement(&stmt).queue(),
        1,
        true,
        DIAG_MSG_BUF_LEN,
    );
    assert_eq!(answer.code, SqlReturn::SUCCESS);
    assert_eq!(
        state_text(&answer.sqlstate),
        sql_state::INVALID_CURSOR_STATE
    );
}

#[test]
fn diag_rec_reports_the_native_code_and_pads_a_short_state() {
    let mut env = EnvironmentHandle::new();
    env.diagnostics
        .push(&OdbcError::general("boom", SqlState::new("42")).with_native_error(1555));
    let answer = sql_get_diag_rec_w(Some(&env.diagnostics), 1, true, DIAG_MSG_BUF_LEN);
    assert_eq!(answer.native_error, Some(1555));
    assert_eq!(
        String::from_utf16_lossy(&answer.sqlstate.unwrap()),
        "42000\0"
    );
}

#[test]
fn diag_field_number_returns_zero_when_no_records() {
    let env = EnvironmentHandle::new();
    let answer = field(&env.diagnostics, 0, SQL_DIAG_NUMBER, 0);
    assert_eq!(answer.code, SqlReturn::SUCCESS);
    assert_eq!(integer(&answer), 0);
    assert_eq!(answer.length, Some(4));
}

#[test]
fn diag_field_zero_rec_number_for_record_field_returns_error() {
    let env = not_connected();
    let answer = field(&env.diagnostics, 0, SQL_DIAG_SQLSTATE, DIAG_MSG_BUF_LEN);
    assert_eq!(answer.code, SqlReturn::ERROR);

    let answer = field(&env.diagnostics, -1, SQL_DIAG_SQLSTATE, DIAG_MSG_BUF_LEN);
    assert_eq!(answer.code, SqlReturn::ERROR);
}

#[test]
fn diag_field_negative_buffer_length_returns_error() {
    let env = not_connected();
    let answer = field(&env.diagnostics, 1, SQL_DIAG_SQLSTATE, -1);
    assert_eq!(answer.code, SqlReturn::ERROR);
}

#[test]
fn diag_field_sqlstate_returns_correct_value() {
    let env = not_connected();
    let answer = field(&env.diagnostics, 1, SQL_DIAG_SQLSTATE, 12 * 2);
    assert_eq!(answer.code, SqlReturn::SUCCESS);
    assert_eq!(answer.length, Some(10));
    match answer.value {
        Some(DiagWrite::Units(units)) => {
            let state = String::from_utf16_lossy(&units[..5]);
            assert_eq!(state, sql_state::CONNECTION_NOT_OPEN);
        }
        _ => panic!("a text was expected"),
    }
}

#[test]
fn diag_identifiers_match_the_odbc_headers() {
    assert_eq!(SQL_DIAG_COLUMN_NUMBER, -1247);
    assert_eq!(SQL_DIAG_ROW_NUMBER, -1248);
    assert_eq!(SQL_DIAG_RETURNCODE, 1);
    assert_eq!(SQL_DIAG_NUMBER, 2);
    assert_eq!(SQL_DIAG_SQLSTATE, 4);
    assert_eq!(SQL_DIAG_NATIVE, 5);
    assert_eq!(SQL_DIAG_MESSAGE_TEXT, 6);
    assert_eq!(SQL_DIAG_CLASS_ORIGIN, 8);
    assert_eq!(SQL_DIAG_SERVER_NAME, 11);
    assert_eq!(SQL_DIAG_ROW_COUNT, 3);
    assert_eq!(SQL_DIAG_DYNAMIC_FUNCTION, 7);
    assert_eq!(SQL_DIAG_DYNAMIC_FUNCTION_CODE, 12);
    assert_eq!(SQL_DIAG_CURSOR_ROW_COUNT, -1249);
    assert_eq!(SQL_DIAG_UNKNOWN_STATEMENT, 0);
}

#[test]
fn diag_rec_zero_length_message_buffer_reports_truncation() {
    let env = not_connected();
    let answer = sql_get_diag_rec_w(Some(&env.diagnostics), 1, true, 0);
    assert_eq!(answer.code, SqlReturn::SUCCESS_WITH_INFO);
    assert!(
        answer.message.unwrap().length > 0,
        "the required length is still reported"
    );
}

#[test]
fn class_and_subclass_origin_are_independent_readings_of_the_sqlstate() {
    assert_eq!(
        class_origin(sql_state::CONNECTION_NOT_OPEN),
        SQL_DIAG_ORIGIN_ISO
    );
    assert_eq!(
        subclass_origin(sql_state::CONNECTION_NOT_OPEN),
        SQL_DIAG_ORIGIN_ISO
    );

    assert_eq!(
        class_origin(sql_state::COMMUNICATION_LINK_FAILURE),
        SQL_DIAG_ORIGIN_ISO
    );
    assert_eq!(
        subclass_origin(sql_state::COMMUNICATION_LINK_FAILURE),
        SQL_DIAG_ORIGIN_ODBC
    );

    assert_eq!(class_origin("IM001"), SQL_DIAG_ORIGIN_ODBC);
    assert_eq!(subclass_origin("IM001"), SQL_DIAG_ORIGIN_ODBC);

    assert_eq!(class_origin("IM009"), SQL_DIAG_ORIGIN_ODBC);
    assert_eq!(subclass_origin("IM009"), SQL_DIAG_ORIGIN_ISO);
}

#[test]
fn origins_ignore_case_and_cope_with_short_states() {
    assert_eq!(class_origin("im002"), SQL_DIAG_ORIGIN_ODBC);
    assert_eq!(subclass_origin("hyt00"), SQL_DIAG_ORIGIN_ODBC);
    assert_eq!(class_origin(""), SQL_DIAG_ORIGIN_ISO);
    assert_eq!(class_origin("I"), SQL_DIAG_ORIGIN_ISO);
    assert_eq!(class_origin("\u{e9}M"), SQL_DIAG_ORIGIN_ISO);
    assert_eq!(subclass_origin("01S0"), SQL_DIAG_ORIGIN_ISO);
}

#[test]
fn the_odbc_specific_subclass_list_matches_the_spec() {
    assert_eq!(
        ODBC_SPECIFIC_SUBCLASS_STATES.len(),
        42,
        "forty-two ODBC-specific SQLSTATEs are listed for this field"
    );
    assert_eq!(ODBC_SPECIFIC_SUBCLASS_STATES.first(), Some(&"01S00"));
    assert_eq!(ODBC_SPECIFIC_SUBCLASS_STATES.last(), Some(&"IM012"));

    let mut sorted = ODBC_SPECIFIC_SUBCLASS_STATES.to_vec();
    sorted.sort_unstable();
    sorted.dedup();
    assert_eq!(
        sorted.len(),
        ODBC_SPECIFIC_SUBCLASS_STATES.len(),
        "a duplicated entry means one of the states was pasted over"
    );
}

#[test]
fn diag_field_origin_fields_answer_from_the_record() {
    let mut env = EnvironmentHandle::new();
    env.diagnostics.push(&OdbcError::general(
        "a driver-specific condition",
        SqlState::new("IM001"),
    ));

    let read = |id: i16| -> String {
        let answer = field(&env.diagnostics, 1, id, 32);
        assert_eq!(answer.code, SqlReturn::SUCCESS);
        let units = (answer.length.unwrap() / 2) as usize;
        match answer.value {
            Some(DiagWrite::Units(text)) => String::from_utf16_lossy(&text[..units]),
            _ => panic!("a text was expected"),
        }
    };

    assert_eq!(read(SQL_DIAG_CLASS_ORIGIN), SQL_DIAG_ORIGIN_ODBC);
    assert_eq!(read(SQL_DIAG_SUBCLASS_ORIGIN), SQL_DIAG_ORIGIN_ODBC);
    assert_eq!(read(SQL_DIAG_CONNECTION_NAME), "");
    assert_eq!(read(SQL_DIAG_SERVER_NAME), "");
}

#[test]
fn diag_field_integer_fields_ignore_a_negative_buffer_length() {
    let env = not_connected();
    assert_eq!(
        field(&env.diagnostics, 1, SQL_DIAG_NATIVE, IS_INTEGER).code,
        SqlReturn::SUCCESS,
        "SQL_DIAG_NATIVE is SQLINTEGER, so BufferLength is ignored"
    );

    let answer = field(&env.diagnostics, 1, SQL_DIAG_COLUMN_NUMBER, IS_INTEGER);
    assert_eq!(answer.code, SqlReturn::SUCCESS);
    assert_eq!(integer(&answer), SQL_NO_COLUMN_NUMBER);

    let answer = field(&env.diagnostics, 1, SQL_DIAG_ROW_NUMBER, IS_SMALLINT);
    assert_eq!(answer.code, SqlReturn::SUCCESS);
    assert_eq!(sqllen(&answer), SQL_NO_ROW_NUMBER);
}

#[test]
fn diag_field_character_fields_still_reject_a_negative_buffer_length() {
    let mut stmt = with_rows(0);
    stmt.diagnostics.push(&OdbcError::NoResultSet);

    for (id, rec_number) in [
        (SQL_DIAG_MESSAGE_TEXT, 1i16),
        (SQL_DIAG_CLASS_ORIGIN, 1),
        (SQL_DIAG_SERVER_NAME, 1),
        (SQL_DIAG_DYNAMIC_FUNCTION, 0),
    ] {
        assert_eq!(
            sql_get_diag_field_w(DiagSource::Statement(&stmt), rec_number, id, true, -1).code,
            SqlReturn::ERROR,
            "character field {id} must reject a negative BufferLength"
        );
    }
}

#[test]
fn diag_field_row_count_is_the_number_sql_row_count_reports() {
    let mut stmt = with_rows(3);

    let answer = sql_get_diag_field_w(
        DiagSource::Statement(&stmt),
        0,
        SQL_DIAG_ROW_COUNT,
        true,
        0,
    );
    assert_eq!(answer.code, SqlReturn::SUCCESS);
    let diag_count = sqllen(&answer);

    let mut row_count: isize = -999;
    assert_eq!(
        sql_row_count(Some(&mut stmt), Some(&mut row_count)),
        SqlReturn::SUCCESS
    );

    assert_eq!(diag_count, 3);
    assert_eq!(
        diag_count, row_count,
        "SQL_DIAG_ROW_COUNT and SQLRowCount must be one number"
    );
    assert_eq!(answer.length, Some(size_of::<isize>() as i16));
}

#[test]
fn diag_field_row_count_ignores_rec_number() {
    let stmt = with_rows(1);
    for rec_number in [0i16, 1, 7, -1] {
        let answer = sql_get_diag_field_w(
            DiagSource::Statement(&stmt),
            rec_number,
            SQL_DIAG_ROW_COUNT,
            true,
            0,
        );
        assert_eq!(
            answer.code,
            SqlReturn::SUCCESS,
            "rec_number {rec_number} must be ignored for a header field"
        );
        assert_eq!(sqllen(&answer), 1);
    }
}

#[test]
fn diag_field_statement_only_headers_reject_a_non_statement_handle() {
    let env = EnvironmentHandle::new();
    let conn = ConnectionHandle::new();
    for id in [
        SQL_DIAG_ROW_COUNT,
        SQL_DIAG_CURSOR_ROW_COUNT,
        SQL_DIAG_DYNAMIC_FUNCTION,
        SQL_DIAG_DYNAMIC_FUNCTION_CODE,
    ] {
        for queue in [&env.diagnostics, &conn.diagnostics] {
            assert_eq!(
                field(queue, 0, id, DIAG_MSG_BUF_LEN * 2).code,
                SqlReturn::ERROR,
                "field {id} must be SQL_ERROR on a non-statement handle"
            );
        }
        assert!(statement_header_field(id).is_some());
    }
    assert!(statement_header_field(SQL_DIAG_NUMBER).is_none());
}

#[test]
fn diag_field_cursor_row_count_is_zero() {
    let stmt = with_rows(1);
    let answer = sql_get_diag_field_w(
        DiagSource::Statement(&stmt),
        0,
        SQL_DIAG_CURSOR_ROW_COUNT,
        true,
        0,
    );
    assert_eq!(answer.code, SqlReturn::SUCCESS);
    assert_eq!(
        sqllen(&answer),
        CURSOR_ROW_COUNT_UNAVAILABLE,
        "a four-byte write would leave the high half of this SQLLEN standing"
    );
}

#[test]
fn diag_field_dynamic_function_is_the_spec_unknown_statement_pair() {
    let stmt = with_rows(0);
    let answer = sql_get_diag_field_w(
        DiagSource::Statement(&stmt),
        0,
        SQL_DIAG_DYNAMIC_FUNCTION,
        true,
        8 * 2,
    );
    assert_eq!(answer.code, SqlReturn::SUCCESS);
    assert_eq!(answer.length, Some(0), "the empty string is zero bytes");
    match answer.value {
        Some(DiagWrite::Units(name)) => {
            assert_eq!(name[0], 0, "the buffer must be null-terminated")
        }
        _ => panic!("a text was expected"),
    }

    let answer = sql_get_diag_field_w(
        DiagSource::Statement(&stmt),
        0,
        SQL_DIAG_DYNAMIC_FUNCTION_CODE,
        true,
        0,
    );
    assert_eq!(answer.code, SqlReturn::SUCCESS);
    assert_eq!(integer(&answer), SQL_DIAG_UNKNOWN_STATEMENT);
}

#[test]
fn diag_field_row_number_writes_a_full_sqllen() {
    let env = not_connected();
    let answer = field(&env.diagnostics, 1, SQL_DIAG_ROW_NUMBER, 0);
    assert_eq!(answer.code, SqlReturn::SUCCESS);
    assert_eq!(
        sqllen(&answer),
        SQL_NO_ROW_NUMBER,
        "SQL_DIAG_ROW_NUMBER did not write a whole SQLLEN"
    );

    let answer = field(&env.diagnostics, 1, SQL_DIAG_COLUMN_NUMBER, 0);
    assert_eq!(answer.code, SqlReturn::SUCCESS);
    assert_eq!(integer(&answer), SQL_NO_COLUMN_NUMBER);
    assert!(answer.length.is_none());
}

#[test]
fn diag_field_dynamic_function_code_is_not_answered_as_a_row_number() {
    let env = not_connected();
    let answer = field(&env.diagnostics, 1, SQL_DIAG_DYNAMIC_FUNCTION_CODE, 0);
    assert_eq!(answer.code, SqlReturn::ERROR);
    assert!(
        answer.value.is_none(),
        "a statement-only field wrote through a non-statement handle"
    );
}

#[test]
fn diag_field_no_data_when_rec_number_exceeds_records() {
    let env = not_connected();
    let answer = field(
        &env.diagnostics,
        2,
        SQL_DIAG_SQLSTATE,
        DIAG_MSG_BUF_LEN * 2,
    );
    assert_eq!(answer.code, SqlReturn::NO_DATA);
    let answer = field(&env.diagnostics, 1, 31, DIAG_MSG_BUF_LEN);
    assert_eq!(answer.code, SqlReturn::NO_DATA);
}

#[test]
fn diag_field_on_an_invalid_handle() {
    let read = |rec: i16, id: i16| sql_get_diag_field_w(DiagSource::Invalid, rec, id, true, 64);
    assert_eq!(integer(&read(0, SQL_DIAG_NUMBER)), 0);
    let answer = read(0, SQL_DIAG_RETURNCODE);
    assert_eq!(answer.code, SqlReturn::SUCCESS);
    assert!(matches!(answer.value, Some(DiagWrite::Small(0))));
    assert_eq!(answer.length, Some(2));
    assert_eq!(
        read(1, SQL_DIAG_SQLSTATE).code,
        SqlReturn::INVALID_HANDLE
    );
    assert_eq!(read(0, SQL_DIAG_SQLSTATE).code, SqlReturn::ERROR);
    assert_eq!(read(0, SQL_DIAG_ROW_COUNT).code, SqlReturn::ERROR);
}

#[test]
fn diag_field_texts_are_cut_to_the_buffer() {
    let env = not_connected();
    let answer = field(&env.diagnostics, 1, SQL_DIAG_MESSAGE_TEXT, 9);
    assert_eq!(answer.code, SqlReturn::SUCCESS_WITH_INFO);
    assert_eq!(answer.length, Some(52));
    match answer.value {
        Some(DiagWrite::Units(units)) => assert_eq!(String::from_utf16_lossy(&units), "Con\0"),
        _ => panic!("a text was expected"),
    }
    let answer = sql_get_diag_field_w(
        DiagSource::Other(&env.diagnostics),
        1,
        SQL_DIAG_MESSAGE_TEXT,
        false,
        9,
    );
    assert_eq!(answer.code, SqlReturn::SUCCESS);
    assert!(answer.value.is_none());
}
