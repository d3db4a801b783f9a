//! Column bindings.

use stackable_odbc_core::bind::{c_data_type, sql_bind_col};
use stackable_odbc_core::descriptor::{SQL_CODE_DATE, SQL_DATETIME};
use stackable_odbc_core::handles::StatementHandle;
use stackable_odbc_core::types::SqlReturn;

/// `SQL_C_SBIGINT` and `SQL_C_TYPE_DATE`.
const SBIGINT: i16 = -25;
const TYPE_DATE: i16 = 91;

const BUFFER: usize = 0x1000;
const INDICATOR: usize = 0x2000;

#[test]
fn bind_col_zero_returns_hyc00() {
    let mut stmt = StatementHandle::new();
    let ret = sql_bind_col(Some(&mut stmt), 0, SBIGINT, BUFFER, 8, 0);
    assert_eq!(ret, SqlReturn::ERROR);
    let record = stmt.diagnostics.get(0).unwrap();
    assert_eq!(record.sqlstate.as_str(), "HYC00");
    assert_eq!(
        record.message,
        "SQLBindCol: bookmark column (column_number=0) is not implemented"
    );
}

#[test]
fn bind_col_keeps_an_indicator_only_binding() {
    let mut stmt = StatementHandle::new();
    assert_eq!(
        sql_bind_col(Some(&mut stmt), 1, SBIGINT, BUFFER, 8, INDICATOR),
        SqlReturn::SUCCESS,
    );

    assert_eq!(
        sql_bind_col(Some(&mut stmt), 1, SBIGINT, 0, 0, INDICATOR),
        SqlReturn::SUCCESS,
    );

    let record = stmt
        .app_row_desc
        .records
        .get(&1)
        .expect("the length/indicator buffer is still bound");
    assert!(
        record.data_ptr == 0,
        "the data buffer was supposed to be unbound",
    );
    assert_eq!(record.indicator_ptr, INDICATOR);
    assert!(
        !record.is_bound(),
        "SQL_DESC_DATA_PTR is null, so this is not a data binding",
    );
}

#[test]
fn bind_col_removes_the_record_when_both_pointers_are_null() {
    let mut stmt = StatementHandle::new();
    assert_eq!(
        sql_bind_col(Some(&mut stmt), 1, SBIGINT, BUFFER, 8, INDICATOR),
        SqlReturn::SUCCESS,
    );
    assert_eq!(
        sql_bind_col(Some(&mut stmt), 1, SBIGINT, 0, 0, 0),
        SqlReturn::SUCCESS,
    );
    assert!(
        !stmt.app_row_desc.records.contains_key(&1),
        "both pointers null unbinds"
    );
}

#[test]
fn bind_and_unbind_column() {
    let mut stmt = StatementHandle::new();
    let ret = sql_bind_col(Some(&mut stmt), 1, SBIGINT, BUFFER, 8, INDICATOR);
    assert_eq!(ret, SqlReturn::SUCCESS);
    assert!(stmt.app_row_desc.records.contains_key(&1));

    let ret = sql_bind_col(Some(&mut stmt), 1, SBIGINT, 0, 0, 0);
    assert_eq!(ret, SqlReturn::SUCCESS);
    assert!(!stmt.app_row_desc.records.contains_key(&1));
}

#[test]
fn a_bound_column_is_a_record_in_the_ard() {
    let mut stmt = StatementHandle::new();
    let ret = sql_bind_col(Some(&mut stmt), 1, SBIGINT, BUFFER, 8, INDICATOR);
    assert_eq!(ret, SqlReturn::SUCCESS);

    let record = stmt
        .app_row_desc
        .records
        .get(&1)
        .expect("SQLBindCol did not write a record into the ARD");
    assert!(
        c_data_type(record.concise_type),
        "SQLBindCol stored a valid C type"
    );
    assert_eq!(record.concise_type, SBIGINT);
    assert_eq!(record.data_ptr, BUFFER);
    assert_eq!(record.octet_length, 8);
    assert_eq!(record.indicator_ptr, INDICATOR);
}

#[test]
fn bind_col_accepts_a_date_column_and_records_its_subcode() {
    let mut stmt = StatementHandle::new();
    let ret = sql_bind_col(Some(&mut stmt), 1, TYPE_DATE, BUFFER, 6, 0);
    assert_eq!(
        ret,
        SqlReturn::SUCCESS,
        "the consistency check rejected a plain SQL_C_TYPE_DATE binding"
    );

    let record = stmt
        .app_row_desc
        .records
        .get(&1)
        .expect("SQLBindCol did not write a record into the ARD");
    assert_eq!(record.concise_type, TYPE_DATE);
    assert_eq!(record.verbose_type, SQL_DATETIME);
    assert_eq!(record.datetime_interval_code, SQL_CODE_DATE);
}

#[test]
fn bind_col_invalid_c_type_returns_error() {
    let mut stmt = StatementHandle::new();
    let ret = sql_bind_col(Some(&mut stmt), 1, 9999, BUFFER, 8, 0);
    assert_eq!(ret, SqlReturn::ERROR);
    let record = stmt.diagnostics.get(0).unwrap();
    assert_eq!(record.sqlstate.as_str(), "HY003");
    assert_eq!(record.message, "Unknown C data type: 9999");
}

#[test]
fn bind_col_null_handle_returns_invalid_handle() {
    let ret = sql_bind_col(None, 1, SBIGINT, BUFFER, 8, 0);
    assert_eq!(ret, SqlReturn::INVALID_HANDLE);
}

#[test]
fn every_c_type_can_be_bound_and_a_refused_binding_leaves_the_old_one() {
    let mut stmt = StatementHandle::new();
    let mut known = 0;
    for t in -200..=20000i16 {
        let ret = sql_bind_col(Some(&mut stmt), 1, t, BUFFER, 8, 0);
        if c_data_type(t) {
            known += 1;
            assert_eq!(ret, SqlReturn::SUCCESS, "{t}");
            assert_eq!(stmt.app_row_desc.records[&1].concise_type, t);
        } else {
            assert_eq!(ret, SqlReturn::ERROR, "{t}");
            assert!(
                stmt.app_row_desc
                    .records
                    .get(&1)
                    .is_none_or(|record| record.concise_type != t)
            );
        }
    }
    assert_eq!(known, 40);
}

#[test]
fn bindings_of_other_columns_stay() {
    let mut stmt = StatementHandle::new();
    for column in [1, 2, 3] {
        let _ = sql_bind_col(
            Some(&mut stmt),
            column,
            SBIGINT,
            BUFFER + usize::from(column),
            8,
            0,
        );
    }
    let _ = sql_bind_col(Some(&mut stmt), 2, SBIGINT, 0, 0, 0);
    assert_eq!(
        stmt.app_row_desc.records.keys().copied().collect::<Vec<u16>>(),
        vec![1, 3]
    );
    assert_eq!(stmt.app_row_desc.records[&3].data_ptr, BUFFER + 3);
    assert!(stmt.app_param_desc.records.is_empty());
}
