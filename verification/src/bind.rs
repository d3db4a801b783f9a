//! `SQLBindCol`: binding an application buffer to a result column.

use vstd::prelude::*;

use crate::desc::{ColumnModel, read_value};
use crate::descriptor::{
    DescriptorRecord, DescriptorView, FieldsView, ValueView, consistency_check, inconsistency,
};
use crate::diagnostics::{outcome_view, settle, settled};
use crate::errors::{ErrorView, OdbcError};
use crate::handles::{StatementHandle, StatementView};
use crate::text::{decimal, decimal_of, join2};
use crate::types::{SqlReturn, SqlState};
use crate::types::descriptor_field::{Desc, DescriptorRole};
use crate::types::sql_state::INVALID_APPLICATION_BUFFER_TYPE;

verus! {

/// Whether `t` is a C data type: `SQL_ARD_TYPE` or `SQL_APD_TYPE`, one of the
/// sized integers, a GUID, text, bit, binary, number, date, time or interval
/// type, `SQL_C_DEFAULT`, or one of the two driver-defined time types. The
/// integer types without a sign of their own are not among them.
pub open spec fn is_c_data_type(t: int) -> bool {
    ||| t == -99 || t == -100
    ||| -28 <= t <= -25
    ||| -18 <= t <= -15
    ||| t == -11 || t == -8 || t == -7 || t == -2
    ||| t == 1 || t == 2
    ||| 7 <= t <= 11
    ||| 91 <= t <= 93
    ||| t == 99
    ||| 101 <= t <= 113
    ||| t == 0x4000 || t == 0x4001
}

/// Whether `t` is a C data type.
pub fn c_data_type(t: i16) -> (r: bool)
    ensures
        r == is_c_data_type(t as int),
{
    t == -99 || t == -100 || (-28 <= t && t <= -25) || (-18 <= t && t <= -15) || t == -11 || t == -8
        || t == -7 || t == -2 || t == 1 || t == 2 || (7 <= t && t <= 11) || (91 <= t && t <= 93)
        || t == 99 || (101 <= t && t <= 113) || t == 0x4000 || t == 0x4001
}

/// The failure for the bookmark column.
pub open spec fn no_bookmarks() -> ErrorView {
    ErrorView::NotImplemented { feature: "SQLBindCol: bookmark column (column_number=0)"@ }
}

/// The failure for a buffer of an unknown type.
pub open spec fn unknown_type(t: int) -> ErrorView {
    ErrorView::general(
        "Unknown C data type: "@ + decimal(t),
        INVALID_APPLICATION_BUFFER_TYPE@,
    )
}

/// The record of a binding.
pub open spec fn binding(
    target_type: i16,
    data: usize,
    length: isize,
    indicator: usize,
) -> FieldsView {
    FieldsView {
        data_ptr: data,
        octet_length: length,
        indicator_ptr: indicator,
        ..FieldsView::blank()
    }.with_concise_type(target_type)
}

/// The binding of a column: it becomes a record of the application row
/// descriptor, or, where there is neither a data nor an indicator buffer, goes
/// from it. What is refused leaves the record that was there.
pub open spec fn bound(
    s: StatementView,
    column: u16,
    target_type: i16,
    data: usize,
    length: isize,
    indicator: usize,
) -> (StatementView, Result<SqlReturn, ErrorView>) {
    if column == 0 {
        (s, Err(no_bookmarks()))
    } else if data == 0 && indicator == 0 {
        (
            StatementView {
                ard: DescriptorView { records: s.ard.records.remove(column), ..s.ard },
                ..s
            },
            Ok(SqlReturn::SUCCESS),
        )
    } else if !is_c_data_type(target_type as int) {
        (s, Err(unknown_type(target_type as int)))
    } else {
        let record = binding(target_type, data, length, indicator);
        match inconsistency(record) {
            Some(e) => (s, Err(e)),
            None => (
                StatementView {
                    ard: DescriptorView { records: s.ard.records.insert(column, record), ..s.ard },
                    ..s
                },
                Ok(SqlReturn::SUCCESS),
            ),
        }
    }
}

/// What `SQLBindCol` does to the statement and returns.
pub open spec fn bind_step(
    s: StatementView,
    column: u16,
    target_type: i16,
    data: usize,
    length: isize,
    indicator: usize,
) -> (StatementView, SqlReturn) {
    let (after, outcome) = bound(s.cleared(), column, target_type, data, length, indicator);
    let (queue, code) = settled(Seq::empty(), outcome);
    (StatementView { queue, ..after }, code)
}

fn bind(
    stmt: &mut StatementHandle,
    column_number: u16,
    target_type: i16,
    target_value_ptr: usize,
    buffer_length: isize,
    str_len_or_ind_ptr: usize,
) -> (r: Result<SqlReturn, OdbcError>)
    ensures
        (final(stmt)@, outcome_view(r)) == bound(
            old(stmt)@,
            column_number,
            target_type,
            target_value_ptr,
            buffer_length,
            str_len_or_ind_ptr,
        ),
{
    if column_number == 0 {
        return Err(
            OdbcError::not_implemented("SQLBindCol: bookmark column (column_number=0)"),
        );
    }
    if target_value_ptr == 0 && str_len_or_ind_ptr == 0 {
        let _ = stmt.app_row_desc.take(column_number);
        return Ok(SqlReturn::SUCCESS);
    }
    if !c_data_type(target_type) {
        let number = decimal_of(target_type as i64);
        return Err(
            OdbcError::general(
                join2("Unknown C data type: ", number.as_str()).as_str(),
                SqlState::invalid_application_buffer_type(),
            ),
        );
    }
    let mut record = DescriptorRecord::new();
    record.data_ptr = target_value_ptr;
    record.octet_length = buffer_length;
    record.indicator_ptr = str_len_or_ind_ptr;
    record.set_concise_type(target_type);
    match consistency_check(&record) {
        Err(e) => Err(e),
        Ok(_) => {
            stmt.app_row_desc.put(column_number, record);
            Ok(SqlReturn::SUCCESS)
        },
    }
}

/// `SQLBindCol`: binds a data buffer and an indicator to a column. The pointers
/// are numbers here, 0 where there is no buffer, and never followed.
pub fn sql_bind_col(
    stmt: Option<&mut StatementHandle>,
    column_number: u16,
    target_type: i16,
    target_value_ptr: usize,
    buffer_length: isize,
    str_len_or_ind_ptr: usize,
) -> (r: SqlReturn)
    ensures
        match stmt {
            None => r == SqlReturn::INVALID_HANDLE,
            Some(s) => (final(s)@, r) == bind_step(
                s@,
                column_number,
                target_type,
                target_value_ptr,
                buffer_length,
                str_len_or_ind_ptr,
            ),
        },
{
    match stmt {
        None => SqlReturn::INVALID_HANDLE,
        Some(s) => {
            s.diagnostics.clear();
            let outcome = bind(
                s,
                column_number,
                target_type,
                target_value_ptr,
                buffer_length,
                str_len_or_ind_ptr,
            );
            settle(&mut s.diagnostics, outcome)
        },
    }
}

/// Every buffer of a known type can be bound, and is then what the record of
/// its column says: the consistency check refuses no C data type.
pub proof fn law_every_c_type_can_be_bound(
    s: StatementView,
    column: u16,
    target_type: i16,
    data: usize,
    length: isize,
    indicator: usize,
)
    requires
        column != 0,
        is_c_data_type(target_type as int),
        data != 0 || indicator != 0,
    ensures
        ({
            let (after, code) = bind_step(s, column, target_type, data, length, indicator);
            let record = after.ard.records[column];
            &&& code == SqlReturn::SUCCESS
            &&& after.queue == Seq::<crate::diagnostics::RecordView>::empty()
            &&& after.ard.records.dom() == s.ard.records.dom().insert(column)
            &&& record.concise_type == target_type
            &&& record.data_ptr == data
            &&& record.octet_length == length
            &&& record.indicator_ptr == indicator
            &&& record.is_bound() == (data != 0)
        }),
{
}

/// A binding touches the record of its own column only, and no other descriptor
/// than the application row descriptor.
pub proof fn law_binding_touches_one_column(
    s: StatementView,
    column: u16,
    target_type: i16,
    data: usize,
    length: isize,
    indicator: usize,
    other: u16,
)
    requires
        other != column,
    ensures
        ({
            let after = bind_step(s, column, target_type, data, length, indicator).0;
            &&& after.ard.records.dom().contains(other) == s.ard.records.dom().contains(other)
            &&& after.ard.records.dom().contains(other) ==> after.ard.records[other]
                == s.ard.records[other]
            &&& after.ard.queue == s.ard.queue
            &&& after == (StatementView { queue: after.queue, ard: after.ard, ..s })
        }),
{
}

/// Unbinding takes the record away, and binding again brings it back.
pub proof fn law_unbinding_removes_the_record(
    s: StatementView,
    column: u16,
    target_type: i16,
    data: usize,
    length: isize,
    indicator: usize,
    any_type: i16,
    any_length: isize,
)
    requires
        column != 0,
        is_c_data_type(target_type as int),
        data != 0 || indicator != 0,
    ensures
        ({
            let once = bind_step(s, column, target_type, data, length, indicator).0;
            let (gone, code) = bind_step(once, column, any_type, 0, any_length, 0);
            let again = bind_step(gone, column, target_type, data, length, indicator).0;
            &&& code == SqlReturn::SUCCESS
            &&& gone.ard.records == s.ard.records.remove(column)
            &&& again == once
        }),
{
    let once = bind_step(s, column, target_type, data, length, indicator).0;
    let gone = bind_step(once, column, any_type, 0, any_length, 0).0;
    let again = bind_step(gone, column, target_type, data, length, indicator).0;
    assert(once.ard.records.remove(column) == s.ard.records.remove(column));
    assert(again.ard.records == once.ard.records);
}

/// What was bound reads back through the application row descriptor: binding a
/// column is setting the fields of a record.
pub proof fn law_bindings_read_back_through_the_descriptor(
    s: StatementView,
    column: u16,
    target_type: i16,
    data: usize,
    length: isize,
    indicator: usize,
    columns: ColumnModel,
)
    requires
        1 <= column <= 32767,
        is_c_data_type(target_type as int),
        data != 0 || indicator != 0,
    ensures
        ({
            let after = bind_step(s, column, target_type, data, length, indicator).0;
            let read = |field: Desc|
                read_value(after, DescriptorRole::Ard, column as i16, field, columns);
            &&& read(Desc::ConciseType) == Ok::<Option<ValueView>, ErrorView>(
                Some(ValueView::Numeric(target_type as isize)),
            )
            &&& read(Desc::DataPtr) == Ok::<Option<ValueView>, ErrorView>(
                Some(ValueView::Numeric(data as isize)),
            )
            &&& read(Desc::OctetLength) == Ok::<Option<ValueView>, ErrorView>(
                Some(ValueView::Numeric(length)),
            )
            &&& read(Desc::IndicatorPtr) == Ok::<Option<ValueView>, ErrorView>(
                Some(ValueView::Numeric(indicator as isize)),
            )
        }),
{
}

/// Which C types there are: text, binary, the sized integers, bit, float and double,
/// numbers, GUIDs, dates and times in either numbering, intervals, the default, and
/// the types that a descriptor or a driver gives.
pub proof fn law_which_c_types_there_are(t: int)
    ensures
        1 <= t <= 2 || 7 <= t <= 11 || 91 <= t <= 93 || 101 <= t <= 113 || t == 99
            ==> is_c_data_type(t),
        -28 <= t <= -25 || -18 <= t <= -15 || t == -8 || t == -7 || t == -2 || t == -11
            ==> is_c_data_type(t),
        3 <= t <= 6 || t == 0 || t == -1 || -6 <= t <= -3 || -10 <= t <= -9 || 12 <= t <= 90
            ==> !is_c_data_type(t),
        t > 0x4001 || (114 <= t < 0x4000) || t < -100 ==> !is_c_data_type(t),
{
}

/// What cannot be bound leaves the bindings as they were, with one record: the
/// bookmark column, and a type that there is not.
pub proof fn law_what_cannot_be_bound(
    s: StatementView,
    column: u16,
    target_type: i16,
    data: usize,
    length: isize,
    indicator: usize,
)
    requires
        column == 0 || ((data != 0 || indicator != 0) && !is_c_data_type(target_type as int)),
    ensures
        ({
            let (after, code) = bind_step(s, column, target_type, data, length, indicator);
            &&& code == SqlReturn::ERROR
            &&& after == (StatementView { queue: after.queue, ..s })
            &&& after.queue.len() == 1
            &&& after.queue[0].sqlstate == (if column == 0 {
                "HYC00"@
            } else {
                "HY003"@
            })
        }),
{
}

} // verus!
