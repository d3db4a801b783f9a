//! The accessors of descriptors.

use stackable_odbc_core::bind::sql_bind_col;
use stackable_odbc_core::desc::{
    FieldAnswer, FieldWrite, field_from_raw, sql_get_desc_field_w, sql_get_desc_rec_w,
    sql_set_desc_field_w, sql_set_desc_rec,
};
use stackable_odbc_core::descriptor::{DescFieldValue, DescriptorRecord};
use stackable_odbc_core::diag::sql_get_diag_rec_w;
use stackable_odbc_core::errors::OdbcError;
use stackable_odbc_core::handles::{StatementData, StatementHandle};
use stackable_odbc_core::types::descriptor_field::{Desc, DescriptorRole, ROW_ARRAY_SIZE};
use stackable_odbc_core::types::{SqlReturn, SqlState, sql_state};

/// `SQL_C_SBIGINT` and `SQL_C_SLONG`.
const SBIGINT: i16 = -25;
const SLONG: i16 = -16;
/// `SQL_DECIMAL`.
const DECIMAL: i16 = 3;

fn no_columns(_: u16, _: Desc) -> Result<DescFieldValue, OdbcError> {
    Err(OdbcError::not_implemented("describe_col"))
}

/// A column named `TYPE_NAME`: a text of 128 characters that is not null.
fn column_attribute(column: u16, field: Desc) -> Result<DescFieldValue, OdbcError> {
    if column != 1 {
        return Err(OdbcError::general(
            "no such column",
            SqlState::invalid_descriptor_index(),
        ));
    }
    Ok(match field {
        Desc::Type | Desc::ConciseType => DescFieldValue::Numeric(12),
        Desc::Nullable => DescFieldValue::Numeric(0),
        Desc::Length => DescFieldValue::Numeric(128),
        Desc::Name => DescFieldValue::Text("TYPE_NAME".to_string()),
        _ => DescFieldValue::Numeric(0),
    })
}

fn get(stmt: &mut StatementHandle, role: DescriptorRole, record: i16, field: i16) -> FieldAnswer {
    sql_get_desc_field_w(Some(stmt), role, record, field, true, 64, &no_columns)
}

fn number(answer: FieldAnswer) -> isize {
    assert_eq!(answer.code, SqlReturn::SUCCESS);
    match answer.value {
        Some(FieldWrite::Number(n)) => n,
        _ => panic!("a number was expected"),
    }
}

fn set(
    stmt: &mut StatementHandle,
    role: DescriptorRole,
    record: i16,
    field: Desc,
    value: usize,
) -> SqlReturn {
    sql_set_desc_field_w(Some(stmt), role, record, field.number(), value, None, 0)
}

fn first_sqlstate(stmt: &StatementHandle, role: DescriptorRole) -> String {
    let answer = sql_get_diag_rec_w(Some(&stmt.descriptor(role).diagnostics), 1, true, 256);
    assert_eq!(
        answer.code,
        SqlReturn::SUCCESS,
        "no diagnostic record was posted"
    );
    String::from_utf16_lossy(&answer.sqlstate.unwrap()[..5])
}

fn seed_ard_records(stmt: &mut StatementHandle, count: u16, concise_type: i16) {
    for column in 1..=count {
        let mut record = DescriptorRecord::new();
        record.set_concise_type(concise_type);
        stmt.app_row_desc.records.insert(column, record);
    }
}

/// A `DECIMAL(9,2)` parameter, as binding one leaves it.
fn decimal_parameter() -> StatementHandle {
    let mut stmt = StatementHandle::new();
    let ret = sql_set_desc_rec(
        Some(&mut stmt),
        DescriptorRole::Ipd,
        1,
        DECIMAL,
        0,
        0,
        9,
        2,
        0,
        0,
        0,
    );
    assert_eq!(ret, SqlReturn::SUCCESS);
    stmt
}

#[test]
fn get_desc_field_reads_back_a_record_field() {
    let mut stmt = StatementHandle::new();
    seed_ard_records(&mut stmt, 1, SBIGINT);

    let answer = get(
        &mut stmt,
        DescriptorRole::Ard,
        1,
        Desc::ConciseType.number(),
    );
    assert_eq!(answer.code, SqlReturn::SUCCESS);
    assert_eq!(number(answer), SBIGINT as isize);
}

#[test]
fn reading_the_ird_before_execution_reports_hy007() {
    let mut stmt = StatementHandle::new();
    let answer = get(
        &mut stmt,
        DescriptorRole::Ird,
        1,
        Desc::ConciseType.number(),
    );
    assert_eq!(answer.code, SqlReturn::ERROR);
    assert_eq!(
        first_sqlstate(&stmt, DescriptorRole::Ird),
        sql_state::ASSOCIATED_STATEMENT_NOT_PREPARED
    );
}

#[test]
fn reading_the_ird_of_a_statement_with_no_result_set_reports_hy007() {
    let mut stmt = StatementHandle::new();
    stmt.statement = Some(StatementData {
        column_count: 0,
        row_count: Some(1),
    });
    stmt.executed = true;

    let answer = get(
        &mut stmt,
        DescriptorRole::Ird,
        1,
        Desc::ConciseType.number(),
    );
    assert_eq!(answer.code, SqlReturn::ERROR);
    assert_eq!(
        first_sqlstate(&stmt, DescriptorRole::Ird),
        sql_state::ASSOCIATED_STATEMENT_NOT_PREPARED,
        "a result set with no columns is not a populated IRD"
    );
}

#[test]
fn the_ird_agrees_with_sqlcolattribute() {
    let mut stmt = StatementHandle::new();
    stmt.statement = Some(StatementData {
        column_count: 1,
        row_count: None,
    });
    for field in [Desc::ConciseType, Desc::Nullable, Desc::Length] {
        let answer = sql_get_desc_field_w(
            Some(&mut stmt),
            DescriptorRole::Ird,
            1,
            field.number(),
            true,
            0,
            &column_attribute,
        );
        assert_eq!(
            answer.code,
            SqlReturn::SUCCESS,
            "{field:?} through the IRD"
        );
        let via_desc = number(answer);
        let via_col_attr = match column_attribute(1, field) {
            Ok(DescFieldValue::Numeric(n)) => n,
            _ => panic!("{field:?} through SQLColAttributeW"),
        };
        assert_eq!(
            via_desc, via_col_attr,
            "the IRD and SQLColAttributeW disagree about column 1's {field:?}"
        );
    }
}

#[test]
fn a_text_of_the_ird_is_cut_to_the_buffer_and_its_length_counts_bytes() {
    let mut stmt = StatementHandle::new();
    stmt.statement = Some(StatementData {
        column_count: 1,
        row_count: None,
    });
    let mut read = |wanted: bool, length: i32| {
        sql_get_desc_field_w(
            Some(&mut stmt),
            DescriptorRole::Ird,
            1,
            Desc::Name.number(),
            wanted,
            length,
            &column_attribute,
        )
    };
    let whole = read(true, 64);
    assert_eq!(whole.code, SqlReturn::SUCCESS);
    assert_eq!(whole.length, Some(18));
    match whole.value {
        Some(FieldWrite::Units(units)) => {
            assert_eq!(String::from_utf16_lossy(&units), "TYPE_NAME\0")
        }
        _ => panic!("a text was expected"),
    }
    let cut = read(true, 10);
    assert_eq!(cut.code, SqlReturn::SUCCESS_WITH_INFO);
    assert_eq!(cut.length, Some(18));
    match cut.value {
        Some(FieldWrite::Units(units)) => assert_eq!(String::from_utf16_lossy(&units), "TYPE\0"),
        _ => panic!("a text was expected"),
    }
    let unwanted = read(false, 10);
    assert_eq!(unwanted.code, SqlReturn::SUCCESS);
    assert!(unwanted.value.is_none());
    let no_room = read(true, -4);
    assert_eq!(no_room.code, SqlReturn::SUCCESS_WITH_INFO);
    assert!(no_room.value.is_none());
    assert_eq!(first_sqlstate(&stmt, DescriptorRole::Ird), "01004");
}

#[test]
fn a_column_outside_the_result_set_reports_07009() {
    let mut stmt = StatementHandle::new();
    stmt.statement = Some(StatementData {
        column_count: 2,
        row_count: None,
    });
    for column in [0, 3, -1] {
        let answer = get(
            &mut stmt,
            DescriptorRole::Ird,
            column,
            Desc::ConciseType.number(),
        );
        assert_eq!(answer.code, SqlReturn::ERROR);
        assert_eq!(
            first_sqlstate(&stmt, DescriptorRole::Ird),
            sql_state::INVALID_DESCRIPTOR_INDEX
        );
        assert_eq!(
            stmt.imp_row_desc.diagnostics.get(0).unwrap().message,
            format!("Record number {column} out of range (have 2 columns)")
        );
    }
    // What the result set answers with, its failure included, is passed on.
    let answer = get(
        &mut stmt,
        DescriptorRole::Ird,
        2,
        Desc::ConciseType.number(),
    );
    assert_eq!(answer.code, SqlReturn::ERROR);
    assert_eq!(first_sqlstate(&stmt, DescriptorRole::Ird), "HYC00");
}

#[test]
fn desc_count_counts_the_records() {
    let mut stmt = StatementHandle::new();
    seed_ard_records(&mut stmt, 3, SLONG);

    let answer = get(&mut stmt, DescriptorRole::Ard, 0, Desc::Count.number());
    assert_eq!(answer.code, SqlReturn::SUCCESS);
    assert_eq!(number(answer), 3);

    stmt.statement = Some(StatementData {
        column_count: 5,
        row_count: None,
    });
    assert_eq!(
        number(get(&mut stmt, DescriptorRole::Ird, 0, Desc::Count.number())),
        5
    );
    assert_eq!(
        number(get(
            &mut stmt,
            DescriptorRole::Apd,
            0,
            Desc::AllocType.number()
        )),
        1
    );
}

#[test]
fn a_negative_record_number_reports_07009() {
    let mut stmt = StatementHandle::new();
    let answer = get(
        &mut stmt,
        DescriptorRole::Ard,
        -1,
        Desc::ConciseType.number(),
    );
    assert_eq!(answer.code, SqlReturn::ERROR);
    assert_eq!(
        first_sqlstate(&stmt, DescriptorRole::Ard),
        sql_state::INVALID_DESCRIPTOR_INDEX
    );
    assert_eq!(
        stmt.app_row_desc.diagnostics.get(0).unwrap().message,
        "Record number -1 is negative"
    );
    assert_eq!(
        set(&mut stmt, DescriptorRole::Apd, -1, Desc::Scale, 1),
        SqlReturn::ERROR
    );
    assert_eq!(
        sql_set_desc_rec(
            Some(&mut stmt),
            DescriptorRole::Apd,
            -2,
            4,
            0,
            0,
            0,
            0,
            0,
            0,
            0
        ),
        SqlReturn::ERROR
    );
    assert_eq!(
        first_sqlstate(&stmt, DescriptorRole::Apd),
        sql_state::INVALID_DESCRIPTOR_INDEX
    );
}

#[test]
fn diagnostics_are_cleared_before_the_field_identifier_is_parsed() {
    const NOT_A_FIELD: i16 = 31337;
    let mut stmt = StatementHandle::new();

    let answer = get(
        &mut stmt,
        DescriptorRole::Ard,
        -1,
        Desc::ConciseType.number(),
    );
    assert_eq!(answer.code, SqlReturn::ERROR);
    assert_eq!(
        first_sqlstate(&stmt, DescriptorRole::Ard),
        sql_state::INVALID_DESCRIPTOR_INDEX,
        "precondition: a record is queued"
    );

    let answer = get(&mut stmt, DescriptorRole::Ard, 1, NOT_A_FIELD);
    assert_eq!(answer.code, SqlReturn::ERROR);
    assert_eq!(
        first_sqlstate(&stmt, DescriptorRole::Ard),
        sql_state::INVALID_DESCRIPTOR_FIELD_IDENTIFIER,
        "the queue was not cleared before the field parse"
    );
    assert_eq!(
        field_from_raw(NOT_A_FIELD).unwrap_err().to_string(),
        "Unknown descriptor field identifier: 31337"
    );
    assert_eq!(field_from_raw(1011).unwrap(), Desc::Name);
}

#[test]
fn a_record_number_past_the_count_returns_no_data() {
    let mut stmt = StatementHandle::new();
    let answer = get(
        &mut stmt,
        DescriptorRole::Ard,
        7,
        Desc::ConciseType.number(),
    );
    assert_eq!(answer.code, SqlReturn::NO_DATA);
    assert!(answer.value.is_none());
}

#[test]
fn a_field_the_descriptor_does_not_have_reports_hy091() {
    let mut stmt = StatementHandle::new();
    let answer = get(&mut stmt, DescriptorRole::Ard, 1, Desc::Nullable.number());
    assert_eq!(answer.code, SqlReturn::ERROR);
    assert_eq!(
        first_sqlstate(&stmt, DescriptorRole::Ard),
        sql_state::INVALID_DESCRIPTOR_FIELD_IDENTIFIER
    );
    assert_eq!(
        stmt.app_row_desc.diagnostics.get(0).unwrap().message,
        "Descriptor field Nullable is not defined on Ard"
    );
    assert_eq!(
        set(&mut stmt, DescriptorRole::Ipd, 1, Desc::TypeName, 0),
        SqlReturn::ERROR
    );
    assert_eq!(
        stmt.imp_param_desc.diagnostics.get(0).unwrap().message,
        "Descriptor field TypeName is not writable on Ipd"
    );
}

#[test]
fn writing_the_ird_reports_hy016() {
    let mut stmt = StatementHandle::new();
    let ret = set(
        &mut stmt,
        DescriptorRole::Ird,
        1,
        Desc::ConciseType,
        SLONG as usize,
    );
    assert_eq!(ret, SqlReturn::ERROR);
    assert_eq!(
        first_sqlstate(&stmt, DescriptorRole::Ird),
        sql_state::CANNOT_MODIFY_IRD
    );
    assert_eq!(
        stmt.imp_row_desc.diagnostics.get(0).unwrap().message,
        "Descriptor field ConciseType cannot be written on an IRD"
    );
}

#[test]
fn the_two_exempt_ird_header_fields_are_writable() {
    let mut stmt = StatementHandle::new();
    for field in [Desc::ArrayStatusPtr, Desc::RowsProcessedPtr] {
        let ret = set(&mut stmt, DescriptorRole::Ird, 0, field, 0);
        assert_eq!(ret, SqlReturn::SUCCESS, "{field:?} is exempt from HY016");
    }
}

#[test]
fn an_oversized_array_size_is_substituted_through_the_descriptor_too() {
    let mut stmt = StatementHandle::new();
    let ret = set(
        &mut stmt,
        DescriptorRole::Ard,
        0,
        Desc::ArraySize,
        10usize,
    );
    assert_eq!(ret, SqlReturn::SUCCESS_WITH_INFO);
    assert_eq!(
        first_sqlstate(&stmt, DescriptorRole::Ard),
        sql_state::OPTION_VALUE_CHANGED
    );

    let answer = get(&mut stmt, DescriptorRole::Ard, 0, Desc::ArraySize.number());
    assert_eq!(answer.code, SqlReturn::SUCCESS);
    let via_desc = number(answer);
    assert_eq!(via_desc, 1);

    let via_attr = stmt.attrs.get(&ROW_ARRAY_SIZE).copied();
    assert_eq!(via_attr, Some(1), "the two views of one value disagree");
}

#[test]
fn header_fields_read_back_what_was_written_and_start_at_their_defaults() {
    let mut stmt = StatementHandle::new();
    stmt.statement = Some(StatementData {
        column_count: 1,
        row_count: None,
    });
    for (role, field) in [
        (DescriptorRole::Ard, Desc::BindType),
        (DescriptorRole::Apd, Desc::BindOffsetPtr),
        (DescriptorRole::Ird, Desc::RowsProcessedPtr),
        (DescriptorRole::Ipd, Desc::ArrayStatusPtr),
    ] {
        assert_eq!(number(get(&mut stmt, role, 0, field.number())), 0);
        assert_eq!(set(&mut stmt, role, 0, field, 4096), SqlReturn::SUCCESS);
        assert_eq!(number(get(&mut stmt, role, 0, field.number())), 4096);
    }
    assert_eq!(
        number(get(
            &mut stmt,
            DescriptorRole::Apd,
            0,
            Desc::ArraySize.number()
        )),
        1
    );
}

#[test]
fn no_field_of_an_unpopulated_ird_can_be_read() {
    let mut stmt = StatementHandle::new();
    for field in [
        Desc::Count,
        Desc::AllocType,
        Desc::ArrayStatusPtr,
        Desc::RowsProcessedPtr,
        Desc::Type,
        Desc::Name,
    ] {
        let answer = get(&mut stmt, DescriptorRole::Ird, 0, field.number());
        assert_eq!(answer.code, SqlReturn::ERROR);
        assert!(answer.value.is_none());
        assert_eq!(
            first_sqlstate(&stmt, DescriptorRole::Ird),
            sql_state::ASSOCIATED_STATEMENT_NOT_PREPARED
        );
    }
    stmt.statement = Some(StatementData {
        column_count: 3,
        row_count: None,
    });
    let answer = get(&mut stmt, DescriptorRole::Ird, 0, Desc::Count.number());
    assert_eq!(number(answer), 3);
}

#[test]
fn lowering_desc_count_discards_the_higher_records() {
    let mut stmt = StatementHandle::new();
    for column in 1..=3i16 {
        let ret = set(
            &mut stmt,
            DescriptorRole::Ard,
            column,
            Desc::ConciseType,
            SLONG as usize,
        );
        assert_eq!(ret, SqlReturn::SUCCESS);
    }

    let ret = set(&mut stmt, DescriptorRole::Ard, 0, Desc::Count, 1usize);
    assert_eq!(ret, SqlReturn::SUCCESS);

    assert!(stmt.app_row_desc.records.contains_key(&1));
    assert!(!stmt.app_row_desc.records.contains_key(&2));
    assert!(!stmt.app_row_desc.records.contains_key(&3));
}

#[test]
fn a_binding_built_through_the_descriptor_is_the_one_bind_col_makes() {
    let mut built = StatementHandle::new();
    for (field, value) in [
        (Desc::ConciseType, SLONG as usize),
        (Desc::OctetLength, 4),
        (Desc::IndicatorPtr, 8192),
        (Desc::DataPtr, 4096),
    ] {
        assert_eq!(
            set(&mut built, DescriptorRole::Ard, 2, field, value),
            SqlReturn::SUCCESS
        );
    }
    let mut bound = StatementHandle::new();
    assert_eq!(
        sql_bind_col(Some(&mut bound), 2, SLONG, 4096, 4, 8192),
        SqlReturn::SUCCESS
    );
    let a = &built.app_row_desc.records[&2];
    let b = &bound.app_row_desc.records[&2];
    assert_eq!(a.concise_type, b.concise_type);
    assert_eq!(a.verbose_type, b.verbose_type);
    assert_eq!(a.octet_length, b.octet_length);
    assert_eq!(a.indicator_ptr, b.indicator_ptr);
    assert_eq!(a.data_ptr, b.data_ptr);
    assert!(a.is_bound() && b.is_bound());
}

#[test]
fn set_desc_rec_sets_the_record_in_one_call() {
    let mut stmt = StatementHandle::new();
    let ret = sql_set_desc_rec(
        Some(&mut stmt),
        DescriptorRole::Ard,
        1,
        SBIGINT,
        0,
        8,
        0,
        0,
        4096,
        0,
        0,
    );
    assert_eq!(ret, SqlReturn::SUCCESS);

    let record = stmt
        .app_row_desc
        .records
        .get(&1)
        .expect("SQLSetDescRec wrote no record");
    assert_eq!(record.concise_type, SBIGINT);
    assert_eq!(record.octet_length, 8);
    assert!(record.is_bound());
}

#[test]
fn set_desc_rec_with_a_null_data_pointer_unbinds() {
    let mut stmt = StatementHandle::new();
    for data_ptr in [4096, 0] {
        let ret = sql_set_desc_rec(
            Some(&mut stmt),
            DescriptorRole::Ard,
            1,
            SBIGINT,
            0,
            8,
            0,
            0,
            data_ptr,
            0,
            0,
        );
        assert_eq!(ret, SqlReturn::SUCCESS);
    }
    let record = stmt
        .app_row_desc
        .records
        .get(&1)
        .expect("the record itself still exists");
    assert!(!record.is_bound(), "a null DataPtr did not unbind");
}

#[test]
fn set_desc_rec_on_the_ird_reports_hy016() {
    let mut stmt = StatementHandle::new();
    let ret = sql_set_desc_rec(
        Some(&mut stmt),
        DescriptorRole::Ird,
        1,
        SBIGINT,
        0,
        8,
        0,
        0,
        0,
        0,
        0,
    );
    assert_eq!(ret, SqlReturn::ERROR);
    assert_eq!(
        first_sqlstate(&stmt, DescriptorRole::Ird),
        sql_state::CANNOT_MODIFY_IRD
    );
}

#[test]
fn set_desc_rec_runs_the_consistency_check() {
    let mut stmt = StatementHandle::new();
    let ret = sql_set_desc_rec(
        Some(&mut stmt),
        DescriptorRole::Ipd,
        1,
        DECIMAL,
        0,
        8,
        5,
        9,
        0,
        0,
        0,
    );
    assert_eq!(ret, SqlReturn::ERROR);
    assert_eq!(
        first_sqlstate(&stmt, DescriptorRole::Ipd),
        sql_state::INCONSISTENT_DESCRIPTOR_INFORMATION
    );
}

#[test]
fn setting_the_data_pointer_runs_the_consistency_check() {
    let mut stmt = StatementHandle::new();
    // A datetime without its subcode.
    assert_eq!(
        set(&mut stmt, DescriptorRole::Ard, 1, Desc::Type, 9),
        SqlReturn::SUCCESS
    );
    assert_eq!(
        set(&mut stmt, DescriptorRole::Ard, 1, Desc::DataPtr, 4096),
        SqlReturn::ERROR
    );
    assert_eq!(
        first_sqlstate(&stmt, DescriptorRole::Ard),
        sql_state::INCONSISTENT_DESCRIPTOR_INFORMATION
    );
    assert_eq!(
        set(
            &mut stmt,
            DescriptorRole::Ard,
            1,
            Desc::DatetimeIntervalCode,
            1
        ),
        SqlReturn::SUCCESS
    );
    assert_eq!(
        set(&mut stmt, DescriptorRole::Ard, 1, Desc::DataPtr, 4096),
        SqlReturn::SUCCESS
    );
    assert_eq!(
        number(get(
            &mut stmt,
            DescriptorRole::Ard,
            1,
            Desc::ConciseType.number()
        )),
        91
    );
    // An interval of no kind.
    assert_eq!(
        set(&mut stmt, DescriptorRole::Apd, 1, Desc::Type, 10),
        SqlReturn::SUCCESS
    );
    assert_eq!(
        set(&mut stmt, DescriptorRole::Apd, 1, Desc::DataPtr, 4096),
        SqlReturn::ERROR
    );
}

#[test]
fn a_value_that_is_not_one_of_the_field_reports_hy092() {
    let mut stmt = StatementHandle::new();
    for (field, value) in [
        (Desc::Precision, 40000usize),
        (Desc::Unnamed, 0),
        (Desc::Length, usize::MAX),
    ] {
        assert_eq!(
            set(&mut stmt, DescriptorRole::Ipd, 1, field, value),
            SqlReturn::ERROR,
            "{field:?}"
        );
        assert_eq!(
            first_sqlstate(&stmt, DescriptorRole::Ipd),
            sql_state::INVALID_ATTRIBUTE_OPTION_IDENTIFIER
        );
    }
}

#[test]
fn a_parameter_name_is_written_and_read_as_text() {
    let mut stmt = StatementHandle::new();
    let units: Vec<u16> = "id".encode_utf16().collect();
    let ret = sql_set_desc_field_w(
        Some(&mut stmt),
        DescriptorRole::Ipd,
        1,
        Desc::Name.number(),
        4096,
        Some(&units),
        4,
    );
    assert_eq!(ret, SqlReturn::SUCCESS);
    let answer = get(&mut stmt, DescriptorRole::Ipd, 1, Desc::Name.number());
    assert_eq!(answer.length, Some(4));
    match answer.value {
        Some(FieldWrite::Units(read)) => assert_eq!(String::from_utf16_lossy(&read), "id\0"),
        _ => panic!("a text was expected"),
    }
    // Unnaming it clears the name.
    assert_eq!(
        number(get(
            &mut stmt,
            DescriptorRole::Ipd,
            1,
            Desc::Unnamed.number()
        )),
        0
    );
    assert_eq!(
        set(&mut stmt, DescriptorRole::Ipd, 1, Desc::Unnamed, 1),
        SqlReturn::SUCCESS
    );
    assert_eq!(
        number(get(
            &mut stmt,
            DescriptorRole::Ipd,
            1,
            Desc::Unnamed.number()
        )),
        1
    );
    // A name that is not there is refused, and leaves the record.
    let ret = sql_set_desc_field_w(
        Some(&mut stmt),
        DescriptorRole::Ipd,
        1,
        Desc::Name.number(),
        0,
        None,
        4,
    );
    assert_eq!(ret, SqlReturn::ERROR);
    assert_eq!(first_sqlstate(&stmt, DescriptorRole::Ipd), "HY009");
}

#[test]
fn the_data_pointer_of_an_ipd_is_not_kept() {
    let mut stmt = StatementHandle::new();
    assert_eq!(
        set(&mut stmt, DescriptorRole::Ipd, 1, Desc::DataPtr, 4096),
        SqlReturn::SUCCESS
    );
    assert_eq!(
        number(get(
            &mut stmt,
            DescriptorRole::Ipd,
            1,
            Desc::DataPtr.number()
        )),
        0
    );
}

#[test]
fn get_desc_rec_reads_the_seven_record_fields() {
    let mut stmt = decimal_parameter();

    let mut type_out: i16 = -1;
    let mut sub_type: i16 = -1;
    let mut length: isize = -1;
    let mut precision: i16 = -1;
    let mut scale: i16 = -1;
    let mut nullable: i16 = -1;
    let answer = sql_get_desc_rec_w(
        Some(&mut stmt),
        DescriptorRole::Ipd,
        1,
        true,
        64,
        Some(&mut type_out),
        Some(&mut sub_type),
        Some(&mut length),
        Some(&mut precision),
        Some(&mut scale),
        Some(&mut nullable),
        &no_columns,
    );

    assert_eq!(answer.code, SqlReturn::SUCCESS);
    assert_eq!(type_out, DECIMAL, "SQL_DESC_TYPE");
    assert_eq!(
        sub_type, 0,
        "SQL_DESC_DATETIME_INTERVAL_CODE: not a datetime"
    );
    assert_eq!(precision, 9, "SQL_DESC_PRECISION, from ColumnSize");
    assert_eq!(scale, 2, "SQL_DESC_SCALE, from DecimalDigits");
    assert_eq!(
        length, 0,
        "SQL_DESC_OCTET_LENGTH: SQLBindParameter's BufferLength is the APD's, not the IPD's"
    );
    assert_eq!(
        nullable, 2,
        "SQL_DESC_NULLABLE is \"R, ND\" on an IPD core does not auto-populate"
    );
    assert_eq!(answer.length, Some(0), "an unnamed parameter");
}

#[test]
fn get_desc_rec_writes_only_the_outputs_the_application_asked_for() {
    const SENTINEL: i16 = -99;
    let mut stmt = decimal_parameter();

    let mut scale: i16 = SENTINEL;
    let answer = sql_get_desc_rec_w(
        Some(&mut stmt),
        DescriptorRole::Ipd,
        1,
        false,
        0,
        None,
        None,
        None,
        None,
        Some(&mut scale),
        None,
        &no_columns,
    );

    assert_eq!(answer.code, SqlReturn::SUCCESS);
    assert_eq!(scale, 2);
    assert!(
        answer.units.is_none(),
        "a null output pointer was written to"
    );
}

#[test]
fn get_desc_rec_past_the_count_returns_no_data() {
    let mut stmt = StatementHandle::new();
    let mut scale: i16 = -99;
    let answer = sql_get_desc_rec_w(
        Some(&mut stmt),
        DescriptorRole::Ard,
        4,
        false,
        0,
        None,
        None,
        None,
        None,
        Some(&mut scale),
        None,
        &no_columns,
    );
    assert_eq!(answer.code, SqlReturn::NO_DATA);
    assert_eq!(scale, -99);
}

#[test]
fn get_desc_rec_of_a_descriptor_without_names_has_none() {
    let mut stmt = StatementHandle::new();
    seed_ard_records(&mut stmt, 1, SBIGINT);
    let mut type_out: i16 = 0;
    let mut nullable: i16 = 0;
    let answer = sql_get_desc_rec_w(
        Some(&mut stmt),
        DescriptorRole::Ard,
        1,
        true,
        64,
        Some(&mut type_out),
        None,
        None,
        None,
        None,
        Some(&mut nullable),
        &no_columns,
    );
    assert_eq!(answer.code, SqlReturn::SUCCESS);
    assert!(answer.units.is_none() && answer.length.is_none());
    assert_eq!(type_out, SBIGINT);
    assert_eq!(nullable, 2);
}

#[test]
fn get_desc_rec_reads_a_column_of_the_result_set() {
    let mut stmt = StatementHandle::new();
    stmt.statement = Some(StatementData {
        column_count: 1,
        row_count: None,
    });
    let mut nullable: i16 = -1;
    let answer = sql_get_desc_rec_w(
        Some(&mut stmt),
        DescriptorRole::Ird,
        1,
        true,
        10,
        None,
        None,
        None,
        None,
        None,
        Some(&mut nullable),
        &column_attribute,
    );
    assert_eq!(answer.code, SqlReturn::SUCCESS_WITH_INFO);
    assert_eq!(answer.length, Some(18));
    assert_eq!(
        String::from_utf16_lossy(&answer.units.unwrap()),
        "TYPE\0"
    );
    assert_eq!(nullable, 0);
    // A number that does not fit saturates.
    let wide = |_: u16, field: Desc| -> Result<DescFieldValue, OdbcError> {
        Ok(match field {
            Desc::Name => DescFieldValue::Text(String::new()),
            _ => DescFieldValue::Numeric(100_000),
        })
    };
    let mut precision: i16 = 0;
    let mut length: isize = 0;
    let answer = sql_get_desc_rec_w(
        Some(&mut stmt),
        DescriptorRole::Ird,
        1,
        false,
        0,
        None,
        None,
        Some(&mut length),
        Some(&mut precision),
        None,
        None,
        &wide,
    );
    assert_eq!(answer.code, SqlReturn::SUCCESS);
    assert_eq!(precision, i16::MAX);
    assert_eq!(length, 100_000);
}

#[test]
fn the_diagnostic_lands_on_the_descriptor_that_was_called() {
    let mut stmt = StatementHandle::new();
    let ret = set(&mut stmt, DescriptorRole::Apd, 1, Desc::ParameterType, 1);
    assert_eq!(ret, SqlReturn::ERROR);

    assert_eq!(
        first_sqlstate(&stmt, DescriptorRole::Apd),
        sql_state::INVALID_DESCRIPTOR_FIELD_IDENTIFIER
    );

    let answer = sql_get_diag_rec_w(Some(&stmt.app_row_desc.diagnostics), 1, true, 256);
    assert_eq!(
        answer.code,
        SqlReturn::NO_DATA,
        "a diagnostic leaked onto a descriptor that was never called"
    );
    assert!(stmt.diagnostics.is_empty());
}

#[test]
fn a_non_descriptor_handle_is_rejected() {
    let ret = sql_set_desc_field_w(
        None,
        DescriptorRole::Ard,
        1,
        Desc::ConciseType.number(),
        0,
        None,
        0,
    );
    assert_eq!(ret, SqlReturn::INVALID_HANDLE);
    let answer = sql_get_desc_field_w(
        None,
        DescriptorRole::Ard,
        1,
        Desc::ConciseType.number(),
        true,
        0,
        &no_columns,
    );
    assert_eq!(answer.code, SqlReturn::INVALID_HANDLE);
    let answer = sql_get_desc_rec_w(
        None,
        DescriptorRole::Ard,
        1,
        false,
        0,
        None,
        None,
        None,
        None,
        None,
        None,
        &no_columns,
    );
    assert_eq!(answer.code, SqlReturn::INVALID_HANDLE);
    let ret = sql_set_desc_rec(None, DescriptorRole::Ard, 1, 4, 0, 0, 0, 0, 0, 0, 0);
    assert_eq!(ret, SqlReturn::INVALID_HANDLE);
}

#[test]
fn the_numbers_of_a_record_are_reported_where_only_its_name_fails() {
    let mut stmt = StatementHandle::new();
    stmt.statement = Some(StatementData {
        column_count: 1,
        row_count: None,
    });
    let describe = |_: u16, field: Desc| match field {
        Desc::Name => Err(OdbcError::general("no name", SqlState::general_error())),
        _ => Ok(DescFieldValue::Numeric(7)),
    };
    let mut scale: i16 = 0;
    let answer = sql_get_desc_rec_w(
        Some(&mut stmt),
        DescriptorRole::Ird,
        1,
        true,
        64,
        None,
        None,
        None,
        None,
        Some(&mut scale),
        None,
        &describe,
    );
    assert_eq!(answer.code, SqlReturn::ERROR);
    assert!(answer.numbers);
    assert!(answer.units.is_none());
    assert_eq!(scale, 7);
    assert_eq!(first_sqlstate(&stmt, DescriptorRole::Ird), "HY000");
}
