//! Cursors, result sets, cancellation and cursor names.

use stackable_odbc_core::cursor::{
    SQL_ADD, SQL_LOCK_NO_CHANGE, SQL_MAX_CURSOR_NAME_LEN, SQL_POSITION, cancel_answered,
    check_cursor_name, close_cursor_answered, more_results_answered, signal_cancel,
    sql_bulk_operations, sql_cancel, sql_close_cursor, sql_get_cursor_name_w, sql_more_results,
    sql_num_result_cols, sql_row_count, sql_set_cursor_name_w, sql_set_pos, statement_row_count,
};
use stackable_odbc_core::diag::sql_get_diag_rec_w;
use stackable_odbc_core::errors::OdbcError;
use stackable_odbc_core::handles::{BackendCall, StatementData, StatementHandle, Step};
use stackable_odbc_core::types::{SqlReturn, SqlState};

fn data(column_count: i16, row_count: Option<i64>) -> StatementData {
    StatementData {
        column_count,
        row_count,
    }
}

/// A statement with an open cursor.
fn cursor_open(rows: i64) -> StatementHandle {
    let mut stmt = StatementHandle::new();
    stmt.statement = Some(data(1, Some(rows)));
    stmt.cursor_open = true;
    stmt.executed = true;
    stmt
}

fn link_failure() -> Result<(), OdbcError> {
    Err(OdbcError::general(
        "close failed",
        SqlState::communication_link_failure(),
    ))
}

fn closes() -> Result<(), OdbcError> {
    Ok(())
}

fn close_cursor(stmt: &mut StatementHandle, backend: fn() -> Result<(), OdbcError>) -> SqlReturn {
    match sql_close_cursor(Some(stmt)) {
        Step::Done(code) => code,
        Step::Ask(call) => {
            assert!(matches!(call, BackendCall::CloseCursor));
            close_cursor_answered(stmt, backend())
        }
    }
}

fn more_results(stmt: &mut StatementHandle, backend: fn() -> Result<(), OdbcError>) -> SqlReturn {
    match sql_more_results(Some(stmt)) {
        Step::Done(code) => code,
        Step::Ask(call) => {
            assert!(matches!(call, BackendCall::CloseCursor));
            more_results_answered(stmt, backend())
        }
    }
}

fn invalid(step: Step) -> bool {
    matches!(step, Step::Done(SqlReturn::INVALID_HANDLE))
}

fn first_sqlstate(stmt: &StatementHandle) -> String {
    let answer = sql_get_diag_rec_w(Some(&stmt.diagnostics), 1, true, 256);
    assert_eq!(
        answer.code,
        SqlReturn::SUCCESS,
        "no diagnostic record was posted"
    );
    String::from_utf16_lossy(&answer.sqlstate.unwrap()[..5])
}

/// Names the statement's cursor, with `taken` the names of its siblings.
fn set_cursor_name(stmt: &mut StatementHandle, name: &str, taken: &[&str]) -> SqlReturn {
    let utf16: Vec<u16> = name.encode_utf16().collect();
    sql_set_cursor_name_w(Some(stmt), Some(&utf16), utf16.len() as i16, taken)
}

#[test]
fn num_result_cols_without_execute_returns_error() {
    let mut stmt = StatementHandle::new();
    let mut count: i16 = 0;
    let ret = sql_num_result_cols(Some(&mut stmt), Some(&mut count));
    assert_eq!(ret, SqlReturn::ERROR);
    assert_eq!(first_sqlstate(&stmt), "HY010");
}

#[test]
fn num_result_cols_null_output_ptr_returns_error_when_no_result_set() {
    let mut stmt = StatementHandle::new();
    let ret = sql_num_result_cols(Some(&mut stmt), None);
    assert_eq!(ret, SqlReturn::ERROR);
}

#[test]
fn num_result_cols_with_synthetic_statement() {
    let mut stmt = StatementHandle::new();
    stmt.statement = Some(data(2, Some(0)));

    let mut count: i16 = 0;
    let ret = sql_num_result_cols(Some(&mut stmt), Some(&mut count));
    assert_eq!(ret, SqlReturn::SUCCESS);
    assert_eq!(count, 2);
}

#[test]
fn row_count_without_statement_returns_zero() {
    let mut stmt = StatementHandle::new();
    let mut count: isize = -999;
    let ret = sql_row_count(Some(&mut stmt), Some(&mut count));
    assert_eq!(ret, SqlReturn::SUCCESS);
    assert_eq!(count, 0);
}

#[test]
fn more_results_always_returns_no_data() {
    let mut stmt = StatementHandle::new();
    let ret = more_results(&mut stmt, closes);
    assert_eq!(ret, SqlReturn::NO_DATA);
    let mut open = cursor_open(0);
    assert_eq!(more_results(&mut open, closes), SqlReturn::NO_DATA);
}

#[test]
fn more_results_discards_the_result_set_it_reports_away() {
    let mut stmt = cursor_open(1);
    assert!(stmt.cursor_open, "precondition: a cursor is open");

    assert_eq!(
        more_results(&mut stmt, link_failure),
        SqlReturn::ERROR,
        "a failing close_cursor is reported, not swallowed",
    );

    assert!(!stmt.cursor_open, "the cursor must be closed");
    assert!(
        stmt.statement.is_none(),
        "the result set must be discarded",
    );
}

#[test]
fn more_results_leaves_a_prepared_statement_untouched() {
    let mut stmt = StatementHandle::new();
    stmt.statement = Some(data(0, None));
    stmt.prepared_sql = Some("SELECT 1".to_string());

    assert_eq!(more_results(&mut stmt, closes), SqlReturn::NO_DATA);

    assert!(
        stmt.statement.is_some(),
        "a prepared statement must survive SQLMoreResults",
    );
    assert_eq!(stmt.prepared_sql.as_deref(), Some("SELECT 1"));
}

#[test]
fn close_cursor_without_statement_returns_error() {
    let mut stmt = StatementHandle::new();
    let ret = close_cursor(&mut stmt, closes);
    assert_eq!(ret, SqlReturn::ERROR);
}

#[test]
fn close_cursor_with_open_cursor_succeeds() {
    let mut stmt = cursor_open(0);
    let ret = close_cursor(&mut stmt, closes);
    assert_eq!(ret, SqlReturn::SUCCESS);
}

#[test]
fn row_count_with_synthetic_statement_returns_count() {
    let mut stmt = StatementHandle::new();
    stmt.statement = Some(data(1, Some(3)));

    let mut count: isize = -999;
    let ret = sql_row_count(Some(&mut stmt), Some(&mut count));
    assert_eq!(ret, SqlReturn::SUCCESS);
    assert_eq!(count, 3);
}

#[test]
fn row_count_with_mock_statement_returns_unknown() {
    let mut stmt = StatementHandle::new();
    stmt.statement = Some(data(0, None));

    let mut count: isize = 0;
    let ret = sql_row_count(Some(&mut stmt), Some(&mut count));
    assert_eq!(ret, SqlReturn::SUCCESS);
    assert_eq!(count, -1);
}

#[test]
fn num_result_cols_with_null_count_pointer() {
    let mut stmt = StatementHandle::new();
    stmt.statement = Some(data(0, Some(0)));
    let ret = sql_num_result_cols(Some(&mut stmt), None);
    assert_eq!(ret, SqlReturn::SUCCESS);
}

#[test]
fn row_count_with_null_count_pointer() {
    let mut stmt = StatementHandle::new();
    let ret = sql_row_count(Some(&mut stmt), None);
    assert_eq!(ret, SqlReturn::SUCCESS);
}

#[test]
fn close_cursor_resets_fetch_position() {
    let mut stmt = cursor_open(1);

    let ret = close_cursor(&mut stmt, closes);
    assert_eq!(ret, SqlReturn::SUCCESS);

    assert!(stmt.statement.is_none());

    let ret2 = close_cursor(&mut stmt, closes);
    assert_eq!(ret2, SqlReturn::ERROR);
    assert_eq!(first_sqlstate(&stmt), "24000");
}

#[test]
fn num_result_cols_null_handle_returns_invalid() {
    let mut count: i16 = 0;
    let ret = sql_num_result_cols(None, Some(&mut count));
    assert_eq!(ret, SqlReturn::INVALID_HANDLE);
}

#[test]
fn row_count_null_handle_returns_invalid() {
    let mut count: isize = 0;
    let ret = sql_row_count(None, Some(&mut count));
    assert_eq!(ret, SqlReturn::INVALID_HANDLE);
}

#[test]
fn more_results_null_handle_returns_invalid() {
    assert!(invalid(sql_more_results(None)));
}

#[test]
fn close_cursor_null_handle_returns_invalid() {
    assert!(invalid(sql_close_cursor(None)));
}

#[test]
fn cancel_valid_handle_returns_success() {
    let mut stmt = StatementHandle::new();
    let step = sql_cancel(true, Some(&mut stmt), false);
    assert!(matches!(step, Step::Done(SqlReturn::SUCCESS)));
}

#[test]
fn cancel_with_open_cursor_returns_success() {
    let mut stmt = cursor_open(0);
    let step = sql_cancel(true, Some(&mut stmt), false);
    assert!(matches!(step, Step::Done(SqlReturn::SUCCESS)));
    assert!(stmt.statement.is_some());
    assert!(stmt.cursor_open);
}

#[test]
fn cancel_calls_backend_cancel_when_a_token_exists() {
    let mut stmt = StatementHandle::new();
    let step = sql_cancel(true, Some(&mut stmt), true);
    assert!(
        matches!(step, Step::Ask(BackendCall::Cancel)),
        "the backend must be asked to cancel"
    );
    let ret = cancel_answered(Some(&mut stmt), Ok(()));
    assert_eq!(ret, SqlReturn::SUCCESS);
}

#[test]
fn cancel_propagates_a_backend_cancel_error() {
    let mut stmt = StatementHandle::new();
    let step = sql_cancel(true, Some(&mut stmt), true);
    assert!(matches!(step, Step::Ask(BackendCall::Cancel)));
    let ret = cancel_answered(
        Some(&mut stmt),
        Err(OdbcError::general("no", SqlState::general_error())),
    );
    assert_eq!(ret, SqlReturn::ERROR);
    assert_eq!(first_sqlstate(&stmt), "HY000");
}

#[test]
fn cancel_null_handle_returns_invalid() {
    assert!(invalid(sql_cancel(false, None, false)));
}

#[test]
fn cancel_no_active_statement_returns_success() {
    let mut stmt = StatementHandle::new();
    let step = sql_cancel(true, Some(&mut stmt), false);
    assert!(matches!(step, Step::Done(SqlReturn::SUCCESS)));
}

#[test]
fn cancel_clears_diagnostics() {
    let mut stmt = StatementHandle::new();
    stmt.diagnostics.push(&OdbcError::NotConnected);
    assert_eq!(stmt.diagnostics.len(), 1);

    let step = sql_cancel(true, Some(&mut stmt), false);
    assert!(matches!(step, Step::Done(SqlReturn::SUCCESS)));

    assert_eq!(stmt.diagnostics.len(), 0);
}

#[test]
fn cancel_signals_the_backend_while_another_thread_holds_the_group() {
    let step = sql_cancel(true, None, true);
    assert!(
        matches!(step, Step::Ask(BackendCall::Cancel)),
        "the backend must be signalled even with the group held"
    );
    assert_eq!(cancel_answered(None, Ok(())), SqlReturn::SUCCESS);
}

#[test]
fn cancel_leaves_diagnostics_untouched_while_another_thread_holds_the_group() {
    let mut stmt = StatementHandle::new();
    stmt.diagnostics.push(&OdbcError::NotConnected);

    let step = sql_cancel(true, None, false);
    assert!(matches!(step, Step::Done(SqlReturn::SUCCESS)));

    assert_eq!(
        stmt.diagnostics.len(),
        1,
        "the cross-thread branch must neither clear the existing \
         record nor post one of its own"
    );
    assert_eq!(cancel_answered(None, link_failure()), SqlReturn::ERROR);
}

#[test]
fn cancel_drops_the_data_a_statement_waits_for() {
    let mut stmt = StatementHandle::new();
    stmt.data_at_exec = true;
    let _ = sql_cancel(true, Some(&mut stmt), false);
    assert!(!stmt.data_at_exec);
}

#[test]
fn a_backend_that_cannot_cancel_had_nothing_to_cancel() {
    let mut stmt = StatementHandle::new();
    let unable = || Err(OdbcError::not_implemented("cancel"));
    assert!(signal_cancel(unable()).is_ok());
    assert_eq!(
        cancel_answered(Some(&mut stmt), unable()),
        SqlReturn::SUCCESS
    );
    assert_eq!(stmt.diagnostics.len(), 0);
}

#[test]
fn get_cursor_name_auto_generates_name() {
    let mut stmt = StatementHandle::new();
    let mut counter: u32 = 1;
    let (ret, write) = sql_get_cursor_name_w(Some(&mut stmt), &mut counter, true, 64);
    assert_eq!(ret, SqlReturn::SUCCESS);
    let write = write.expect("a name");
    assert!(write.length > 0);
    let name = String::from_utf16_lossy(&write.units.unwrap()[..write.length as usize]);
    assert!(
        name.starts_with("SQL_CURSR"),
        "expected auto-generated name starting with SQL_CURSR, got {name:?}"
    );
    assert_eq!(name, "SQL_CURSR0001");
    assert_eq!(counter, 2);

    // The name stays, and no second number is taken.
    let (_, again) = sql_get_cursor_name_w(Some(&mut stmt), &mut counter, true, 64);
    assert_eq!(
        String::from_utf16_lossy(&again.unwrap().units.unwrap()[..13]),
        "SQL_CURSR0001"
    );
    assert_eq!(counter, 2);
}

#[test]
fn generated_names_have_at_least_four_digits_and_differ() {
    let mut seen: Vec<String> = Vec::new();
    for (start, expected) in [
        (0u32, "SQL_CURSR0000"),
        (42, "SQL_CURSR0042"),
        (999, "SQL_CURSR0999"),
        (12345, "SQL_CURSR12345"),
        (u32::MAX, "SQL_CURSR4294967295"),
    ] {
        let mut stmt = StatementHandle::new();
        let mut counter = start;
        let _ = sql_get_cursor_name_w(Some(&mut stmt), &mut counter, false, 0);
        let name = stmt.cursor_name.clone().unwrap();
        assert_eq!(name, expected);
        assert_eq!(counter, start.wrapping_add(1));
        assert!(!seen.contains(&name));
        // An application can never take such a name.
        let mut other = StatementHandle::new();
        assert_eq!(set_cursor_name(&mut other, &name, &[]), SqlReturn::ERROR);
        assert_eq!(first_sqlstate(&other), "34000");
        seen.push(name);
    }
}

#[test]
fn get_cursor_name_null_handle_returns_invalid() {
    let mut counter: u32 = 7;
    let (ret, write) = sql_get_cursor_name_w(None, &mut counter, true, 64);
    assert_eq!(ret, SqlReturn::INVALID_HANDLE);
    assert!(write.is_none());
    assert_eq!(counter, 7);
}

#[test]
fn set_then_get_cursor_name_round_trips() {
    let mut stmt = StatementHandle::new();

    let name_utf16: Vec<u16> = "MyCursor".encode_utf16().collect();
    let ret = sql_set_cursor_name_w(
        Some(&mut stmt),
        Some(&name_utf16),
        name_utf16.len() as i16,
        &[],
    );
    assert_eq!(ret, SqlReturn::SUCCESS);

    let mut counter: u32 = 1;
    let (ret, write) = sql_get_cursor_name_w(Some(&mut stmt), &mut counter, true, 64);
    assert_eq!(ret, SqlReturn::SUCCESS);
    let write = write.unwrap();
    let name = String::from_utf16_lossy(&write.units.unwrap()[..write.length as usize]);
    assert_eq!(name, "MyCursor");
}

#[test]
fn set_cursor_name_rejects_the_driver_reserved_prefixes() {
    let mut stmt = StatementHandle::new();
    for name in ["SQLCUR_mine", "SQL_CURSOR1", "sqlcur_lowercase"] {
        assert_eq!(
            set_cursor_name(&mut stmt, name, &[]),
            SqlReturn::ERROR,
            "{name} must be refused"
        );
        assert_eq!(first_sqlstate(&stmt), "34000", "{name}");
    }
    assert_eq!(
        stmt.diagnostics.get(0).unwrap().message,
        "Cursor name \"sqlcur_lowercase\" uses a prefix reserved for driver-generated names \
         (SQLCUR, SQL_CUR)"
    );
}

#[test]
fn set_cursor_name_rejects_an_empty_name_with_34000_not_hy090() {
    let mut stmt = StatementHandle::new();
    assert_eq!(set_cursor_name(&mut stmt, "", &[]), SqlReturn::ERROR);
    assert_eq!(first_sqlstate(&stmt), "34000");
}

#[test]
fn set_cursor_name_rejects_a_name_longer_than_the_advertised_maximum() {
    let mut stmt = StatementHandle::new();
    let max = usize::from(SQL_MAX_CURSOR_NAME_LEN);
    assert_eq!(
        set_cursor_name(&mut stmt, &"c".repeat(max), &[]),
        SqlReturn::SUCCESS,
        "exactly the advertised maximum must be accepted"
    );
    assert_eq!(
        set_cursor_name(&mut stmt, &"c".repeat(max + 1), &[]),
        SqlReturn::ERROR
    );
    assert_eq!(first_sqlstate(&stmt), "34000");
    assert_eq!(
        stmt.diagnostics.get(0).unwrap().message,
        format!(
            "Cursor name is {} characters; this driver reports a maximum of {} for \
             SQL_MAX_CURSOR_NAME_LEN",
            max + 1,
            max
        )
    );
}

#[test]
fn set_cursor_name_rejects_a_duplicate_on_the_same_connection() {
    let mut stmt_a = StatementHandle::new();
    let mut stmt_b = StatementHandle::new();

    assert_eq!(
        set_cursor_name(&mut stmt_a, "shared", &[]),
        SqlReturn::SUCCESS
    );
    let taken = stmt_a.cursor_name.clone().unwrap();
    assert_eq!(
        set_cursor_name(&mut stmt_b, "shared", &[taken.as_str()]),
        SqlReturn::ERROR,
        "a sibling statement must not reuse the name"
    );
    assert_eq!(first_sqlstate(&stmt_b), "3C000");
    assert_eq!(
        stmt_b.diagnostics.get(0).unwrap().message,
        "Cursor name \"shared\" is already in use on this connection"
    );
    assert!(stmt_b.cursor_name.is_none());

    assert_eq!(
        set_cursor_name(&mut stmt_a, "shared", &[]),
        SqlReturn::SUCCESS
    );
}

#[test]
fn cursor_names_differing_only_in_case_are_distinct() {
    let mut stmt_a = StatementHandle::new();
    let mut stmt_b = StatementHandle::new();
    assert_eq!(set_cursor_name(&mut stmt_a, "C1", &[]), SqlReturn::SUCCESS);
    assert_eq!(
        set_cursor_name(&mut stmt_b, "c1", &["C1"]),
        SqlReturn::SUCCESS,
        "the comparison is byte-exact",
    );
}

#[test]
fn set_cursor_name_allows_the_same_name_on_another_connection() {
    let mut stmt_a = StatementHandle::new();
    let mut stmt_b = StatementHandle::new();
    assert_eq!(
        set_cursor_name(&mut stmt_a, "shared", &[]),
        SqlReturn::SUCCESS
    );
    assert_eq!(
        set_cursor_name(&mut stmt_b, "shared", &[]),
        SqlReturn::SUCCESS,
        "uniqueness is scoped to the connection"
    );
}

#[test]
fn get_cursor_name_truncates_with_success_with_info() {
    let mut stmt = StatementHandle::new();

    let long_name = "VeryLongCursorName";
    assert_eq!(
        set_cursor_name(&mut stmt, long_name, &[]),
        SqlReturn::SUCCESS
    );

    let mut counter: u32 = 1;
    let (ret, write) = sql_get_cursor_name_w(Some(&mut stmt), &mut counter, true, 5);
    assert_eq!(ret, SqlReturn::SUCCESS_WITH_INFO);
    let write = write.unwrap();
    assert_eq!(write.length, 18);
    assert_eq!(
        write.units.unwrap(),
        "Very\0".encode_utf16().collect::<Vec<u16>>()
    );
    assert_eq!(first_sqlstate(&stmt), "01004");
}

#[test]
fn set_cursor_name_null_pointer_returns_error() {
    let mut stmt = StatementHandle::new();
    let ret = sql_set_cursor_name_w(Some(&mut stmt), None, 0, &[]);
    assert_eq!(ret, SqlReturn::ERROR);
    assert_eq!(first_sqlstate(&stmt), "HY009");
    assert_eq!(
        sql_set_cursor_name_w(None, None, 0, &[]),
        SqlReturn::INVALID_HANDLE
    );
}

#[test]
fn a_cursor_name_is_checked_by_its_upper_case() {
    assert!(check_cursor_name("name", "NAME", "'name'", false, &[]).is_ok());
    let e = check_cursor_name("name", "SQL_CURNAME", "'name'", false, &[]).unwrap_err();
    assert_eq!(
        e.to_string(),
        "Cursor name 'name' uses a prefix reserved for driver-generated names (SQLCUR, SQL_CUR)"
    );
    let e = check_cursor_name("name", "NAME", "'name'", true, &[]).unwrap_err();
    assert_eq!(e.sqlstate().as_str(), "24000");
    let e = check_cursor_name("name", "NAME", "<name>", false, &["other", "name"]).unwrap_err();
    assert_eq!(
        e.to_string(),
        "Cursor name <name> is already in use on this connection"
    );
}

#[test]
fn bulk_operations_null_handle_returns_invalid() {
    let ret = sql_bulk_operations(None, SQL_ADD);
    assert_eq!(ret, SqlReturn::INVALID_HANDLE);
}

#[test]
fn bulk_operations_returns_hyc00() {
    let mut stmt = StatementHandle::new();
    let ret = sql_bulk_operations(Some(&mut stmt), SQL_ADD);
    assert_eq!(ret, SqlReturn::ERROR);
    let rec = stmt.diagnostics.get(0).expect("diagnostic record");
    assert_eq!(
        rec.sqlstate.as_str(),
        "HYC00",
        "expected HYC00, got {}",
        rec.sqlstate.as_str()
    );
}

#[test]
fn bulk_operations_invalid_operation_returns_hy092() {
    let mut stmt = StatementHandle::new();
    let ret = sql_bulk_operations(Some(&mut stmt), 99);
    assert_eq!(ret, SqlReturn::ERROR);
    let rec = stmt.diagnostics.get(0).expect("diagnostic record");
    assert_eq!(
        rec.sqlstate.as_str(),
        "HY092",
        "expected HY092, got {}",
        rec.sqlstate.as_str()
    );
    assert_eq!(rec.message, "Unknown bulk operation: 99");
}

#[test]
fn set_pos_null_handle_returns_invalid() {
    let ret = sql_set_pos(None, 1, SQL_POSITION, SQL_LOCK_NO_CHANGE);
    assert_eq!(ret, SqlReturn::INVALID_HANDLE);
}

#[test]
fn set_pos_returns_hyc00() {
    let mut stmt = StatementHandle::new();
    let ret = sql_set_pos(Some(&mut stmt), 1, SQL_POSITION, SQL_LOCK_NO_CHANGE);
    assert_eq!(ret, SqlReturn::ERROR);
    let rec = stmt.diagnostics.get(0).expect("diagnostic record");
    assert_eq!(
        rec.sqlstate.as_str(),
        "HYC00",
        "expected HYC00, got {}",
        rec.sqlstate.as_str()
    );
}

#[test]
fn set_pos_invalid_operation_returns_hy092() {
    let mut stmt = StatementHandle::new();
    let ret = sql_set_pos(Some(&mut stmt), 1, 99, SQL_LOCK_NO_CHANGE);
    assert_eq!(ret, SqlReturn::ERROR);
    let rec = stmt.diagnostics.get(0).expect("diagnostic record");
    assert_eq!(
        rec.sqlstate.as_str(),
        "HY092",
        "expected HY092, got {}",
        rec.sqlstate.as_str()
    );
    assert_eq!(rec.message, "Unknown SQLSetPos operation: 99");
}

#[test]
fn set_pos_invalid_lock_type_returns_hy092() {
    let mut stmt = StatementHandle::new();
    let ret = sql_set_pos(Some(&mut stmt), 1, SQL_POSITION, 99);
    assert_eq!(ret, SqlReturn::ERROR);
    let rec = stmt.diagnostics.get(0).expect("diagnostic record");
    assert_eq!(
        rec.sqlstate.as_str(),
        "HY092",
        "expected HY092, got {}",
        rec.sqlstate.as_str()
    );
    assert_eq!(rec.message, "Unknown SQLSetPos lock type: 99");
}

#[test]
fn set_cursor_name_is_refused_once_the_statement_has_executed() {
    let mut stmt = cursor_open(1);
    assert_eq!(
        set_cursor_name(&mut stmt, "TooLate", &[]),
        SqlReturn::ERROR,
        "a cursor name set after execution must be refused"
    );
    assert_eq!(first_sqlstate(&stmt), "24000");
}

#[test]
fn set_cursor_name_is_allowed_in_the_prepared_state() {
    let mut stmt = StatementHandle::new();
    stmt.statement = Some(data(1, None));
    stmt.prepared_sql = Some("SELECT * FROM t WHERE id = 1".to_string());

    assert_eq!(
        set_cursor_name(&mut stmt, "PreparedCursor", &[]),
        SqlReturn::SUCCESS,
        "a prepared statement's cursor may still be named",
    );
}

#[test]
fn set_cursor_name_is_refused_in_the_executed_state_with_no_result_set() {
    let mut stmt = StatementHandle::new();
    stmt.statement = Some(data(0, None));
    stmt.prepared_sql = Some("UPDATE t SET a = 1".to_string());
    stmt.executed = true;
    assert!(
        !stmt.cursor_open,
        "precondition: state S4, executed with no result set",
    );

    assert_eq!(
        set_cursor_name(&mut stmt, "TooLate", &[]),
        SqlReturn::ERROR,
        "state S4 is 24000 in Appendix B, cursor or no cursor",
    );
    assert_eq!(first_sqlstate(&stmt), "24000");
}

#[test]
fn close_cursor_calls_the_backend_and_reports_its_failure() {
    let mut stmt = cursor_open(1);
    assert_eq!(
        close_cursor(&mut stmt, link_failure),
        SqlReturn::ERROR,
        "a cursor whose teardown failed must not be reported as closed cleanly",
    );
    let state = stmt
        .diagnostics
        .get(0)
        .expect("a diagnostic record")
        .sqlstate
        .as_str()
        .to_owned();
    assert_eq!(
        state, "08S01",
        "the backend's own SQLSTATE, not one made up on the way",
    );
}

#[test]
fn close_cursor_discards_the_result_set_even_when_the_backend_fails() {
    let mut stmt = cursor_open(1);
    assert_eq!(
        close_cursor(&mut stmt, link_failure),
        SqlReturn::ERROR,
        "precondition: the backend's close_cursor failed",
    );
    assert_eq!(
        close_cursor(&mut stmt, link_failure),
        SqlReturn::ERROR,
        "a second close still errors, but for a different reason",
    );
    let state = stmt
        .diagnostics
        .get(0)
        .expect("a diagnostic record")
        .sqlstate
        .as_str()
        .to_owned();
    assert_eq!(
        state, "24000",
        "no cursor is left open, so the failed close did discard the result set",
    );
}

#[test]
fn row_counts_are_passed_on_as_they_are() {
    let mut stmt = StatementHandle::new();
    assert_eq!(statement_row_count(&stmt), 0);
    stmt.statement = Some(data(0, Some(-4)));
    assert_eq!(statement_row_count(&stmt), -4);
    stmt.statement = Some(data(0, Some(0)));
    assert_eq!(statement_row_count(&stmt), 0);
    stmt.statement = Some(data(0, None));
    assert_eq!(statement_row_count(&stmt), -1);
}

#[test]
fn an_executed_statement_without_a_cursor_is_left_without_asking_the_backend() {
    let mut stmt = StatementHandle::new();
    stmt.statement = Some(data(0, Some(5)));
    stmt.executed = true;
    assert!(matches!(
        sql_more_results(Some(&mut stmt)),
        Step::Done(SqlReturn::NO_DATA)
    ));
    assert!(stmt.statement.is_none() && !stmt.executed);
}
