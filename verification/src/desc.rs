//! `SQLGetDescFieldW`, `SQLSetDescFieldW`, `SQLGetDescRecW` and
//! `SQLSetDescRec`: the accessors of a statement's own descriptors.

use vstd::prelude::*;

use crate::descriptor::{
    DescFieldValue, DescriptorRecord, DescriptorView, FieldsView, SQL_DESC_ALLOC_AUTO,
    SQL_NULLABLE_UNKNOWN, ValueView, consistency_check, field_value, get_record_field,
    inconsistency, is_small, law_pointers_survive, not_writable, record_at, set_record_field,
    unwritable, up_to, with_field, with_number,
};
use crate::diagnostics::{RecordView, outcome_view, record_of, settle, settled};
use crate::errors::{ErrorView, OdbcError};
use crate::handles::{StatementHandle, StatementView};
use crate::text::{decimal, decimal_of, join2, join3, unsigned_of};
use crate::types::{SqlReturn, SqlState};
use crate::types::descriptor_field::{
    Desc, DescriptorRole, FieldAccess, desc_from_raw, field_access, header_attribute,
    header_default, law_fields_and_numbers, spec_desc_from_raw, spec_field_access,
    spec_header_attribute, spec_header_default,
};
use crate::types::sql_state::{
    ASSOCIATED_STATEMENT_NOT_PREPARED, CANNOT_MODIFY_IRD, INVALID_DESCRIPTOR_FIELD_IDENTIFIER,
    INVALID_DESCRIPTOR_INDEX, OPTION_VALUE_CHANGED,
};
use crate::utf16::{
    encode16, given_text, kept, laid_out, note_truncation, readable, room, room_in, small,
    truncation_noted, units_view, utf16_to_string, vec_view, write_utf16,
};

verus! {

// ---------------------------------------------------------------------------
// Reading a field
// ---------------------------------------------------------------------------

/// The failure for a number that names no field.
pub open spec fn unknown_field(raw: int) -> ErrorView {
    ErrorView::general(
        "Unknown descriptor field identifier: "@ + decimal(raw),
        INVALID_DESCRIPTOR_FIELD_IDENTIFIER@,
    )
}

/// The failure for a field that the descriptor does not have.
pub open spec fn undefined_field(role: DescriptorRole, field: Desc) -> ErrorView {
    ErrorView::general(
        "Descriptor field "@ + field.spec_name() + (" is not defined on "@ + role.spec_name()),
        INVALID_DESCRIPTOR_FIELD_IDENTIFIER@,
    )
}

/// The failure for a negative record number.
pub open spec fn negative_record(n: int) -> ErrorView {
    ErrorView::general(
        "Record number "@ + decimal(n) + " is negative"@,
        INVALID_DESCRIPTOR_INDEX@,
    )
}

/// The failure for a row descriptor that has nothing to describe yet.
pub open spec fn unpopulated() -> ErrorView {
    ErrorView::general(
        "The IRD is not populated: the statement has not been prepared or executed"@,
        ASSOCIATED_STATEMENT_NOT_PREPARED@,
    )
}

/// The failure for a column that the result set does not have.
pub open spec fn no_such_column(n: int, columns: int) -> ErrorView {
    ErrorView::general(
        "Record number "@ + decimal(n) + (" out of range (have "@ + decimal(columns)
            + " columns)"@),
        INVALID_DESCRIPTOR_INDEX@,
    )
}

/// Whether a record number is refused: a negative one on a descriptor of the
/// application.
pub open spec fn is_refused_record(role: DescriptorRole, n: int) -> bool {
    n < 0 && (role == DescriptorRole::Ard || role == DescriptorRole::Apd)
}

/// The record that a record number addresses.
pub open spec fn record_key(n: i16) -> u16 {
    if n < 0 {
        0
    } else {
        n as u16
    }
}

/// The number of columns of the current result set.
pub open spec fn column_count(s: StatementView) -> i16 {
    match s.statement {
        Some(data) => data.column_count,
        None => 0,
    }
}

/// The value of a header field; of a record field there is none. The count is
/// the number of records, which for the implementation row descriptor are the
/// columns of the result set.
pub open spec fn header_value(s: StatementView, role: DescriptorRole, field: Desc) -> Option<
    isize,
> {
    match field {
        Desc::AllocType => Some(SQL_DESC_ALLOC_AUTO),
        Desc::Count => Some(
            if role == DescriptorRole::Ird {
                column_count(s) as isize
            } else {
                s.descriptor(role).records.len() as isize
            },
        ),
        _ => match spec_header_attribute(role, field) {
            Some(attribute) => Some(
                if s.attrs.dom().contains(attribute) {
                    s.attrs[attribute] as isize
                } else {
                    spec_header_default(field) as isize
                },
            ),
            None => None,
        },
    }
}

/// What the current result set says of a column: the answer `SQLColAttribute`
/// gives for it.
pub type ColumnModel = spec_fn(u16, Desc) -> Result<ValueView, ErrorView>;

/// The value of a field of the populated implementation row descriptor, which
/// keeps nothing of its own.
pub open spec fn column_value(
    s: StatementView,
    n: i16,
    field: Desc,
    columns: ColumnModel,
) -> Result<ValueView, ErrorView> {
    if n <= 0 || n > column_count(s) {
        Err(no_such_column(n as int, column_count(s) as int))
    } else {
        columns(n as u16, field)
    }
}

/// The value of a field; none where the record number is past the last record.
/// Until the implementation row descriptor has columns to describe, each of its
/// fields is an error, those of its header among them.
pub open spec fn read_value(
    s: StatementView,
    role: DescriptorRole,
    n: i16,
    field: Desc,
    columns: ColumnModel,
) -> Result<Option<ValueView>, ErrorView> {
    if is_refused_record(role, n as int) {
        Err(negative_record(n as int))
    } else if spec_field_access(role, field) == FieldAccess::Undefined {
        Err(undefined_field(role, field))
    } else if role == DescriptorRole::Ird && column_count(s) <= 0 {
        Err(unpopulated())
    } else if header_value(s, role, field) is Some {
        Ok(Some(ValueView::Numeric(header_value(s, role, field)->0)))
    } else if role == DescriptorRole::Ird {
        match column_value(s, n, field, columns) {
            Ok(v) => Ok(Some(v)),
            Err(e) => Err(e),
        }
    } else if s.descriptor(role).records.dom().contains(record_key(n)) {
        Ok(Some(field_value(s.descriptor(role).records[record_key(n)], field)))
    } else {
        Ok(None)
    }
}

/// The answer for a column, by its view.
pub open spec fn column_answer(r: Result<DescFieldValue, OdbcError>) -> Result<
    ValueView,
    ErrorView,
> {
    match r {
        Ok(v) => Ok(v@),
        Err(e) => Err(e@),
    }
}

/// `f` gives what `g` gives.
pub open spec fn describes<F: Fn(u16, Desc) -> Result<DescFieldValue, OdbcError>>(
    f: F,
    g: ColumnModel,
) -> bool {
    forall|column: u16, field: Desc, r: Result<DescFieldValue, OdbcError>| #[trigger]
        call_ensures(f, (column, field), r) ==> column_answer(r) == g(column, field)
}

/// What is read from a descriptor is what it would be with `g` for `f`: only
/// the implementation row descriptor asks for columns.
pub open spec fn speaks_for<F: Fn(u16, Desc) -> Result<DescFieldValue, OdbcError>>(
    role: DescriptorRole,
    f: F,
    g: ColumnModel,
) -> bool {
    role == DescriptorRole::Ird ==> describes(f, g)
}

/// Whether the value of `field` is what the current result set says of a column.
pub open spec fn asks_column(s: StatementView, role: DescriptorRole, n: i16, field: Desc) -> bool {
    &&& role == DescriptorRole::Ird
    &&& spec_field_access(role, field) != FieldAccess::Undefined
    &&& header_value(s, role, field) is None
    &&& 0 < n <= column_count(s)
}

/// Where a column is asked for, `v` is an answer that `f` can give for it.
pub open spec fn answered<F: Fn(u16, Desc) -> Result<DescFieldValue, OdbcError>>(
    f: F,
    s: StatementView,
    role: DescriptorRole,
    n: i16,
    field: Desc,
    v: Result<ValueView, ErrorView>,
) -> bool {
    asks_column(s, role, n, field) ==> exists|out: Result<DescFieldValue, OdbcError>| #[trigger]
        call_ensures(f, (n as u16, field), out) && column_answer(out) == v
}

/// Columns that give `v` whatever they are asked.
pub open spec fn always(v: Result<ValueView, ErrorView>) -> ColumnModel {
    |column: u16, field: Desc| v
}

/// `f` can be asked for every column and field.
pub open spec fn can_describe<F: Fn(u16, Desc) -> Result<DescFieldValue, OdbcError>>(f: F) -> bool {
    forall|column: u16, field: Desc| call_requires(f, (column, field))
}

/// The outcome of a read, by its view.
pub open spec fn read_view(r: Result<Option<DescFieldValue>, OdbcError>) -> Result<
    Option<ValueView>,
    ErrorView,
> {
    match r {
        Ok(Some(v)) => Ok(Some(v@)),
        Ok(None) => Ok(None),
        Err(e) => Err(e@),
    }
}

/// The field that a number names.
pub fn field_from_raw(field_identifier: i16) -> (r: Result<Desc, OdbcError>)
    ensures
        match r {
            Ok(field) => spec_desc_from_raw(field_identifier as int) == Some(field),
            Err(e) => spec_desc_from_raw(field_identifier as int) is None && e@ == unknown_field(
                field_identifier as int,
            ),
        },
{
    match desc_from_raw(field_identifier) {
        Some(field) => Ok(field),
        None => {
            let number = decimal_of(field_identifier as i64);
            Err(
                OdbcError::general(
                    join2("Unknown descriptor field identifier: ", number.as_str()).as_str(),
                    SqlState::invalid_descriptor_field_identifier(),
                ),
            )
        },
    }
}

fn negative_record_error(n: i16) -> (r: OdbcError)
    ensures
        r@ == negative_record(n as int),
{
    let number = decimal_of(n as i64);
    OdbcError::general(
        join3("Record number ", number.as_str(), " is negative").as_str(),
        SqlState::invalid_descriptor_index(),
    )
}

fn key_of(n: i16) -> (r: u16)
    ensures
        r == record_key(n),
{
    if n < 0 {
        0
    } else {
        n as u16
    }
}

/// The value of a header field, or none for a record field.
fn read_header_field(stmt: &StatementHandle, role: DescriptorRole, field: Desc) -> (r: Option<
    isize,
>)
    ensures
        r == header_value(stmt@, role, field),
{
    match field {
        Desc::AllocType => Some(SQL_DESC_ALLOC_AUTO),
        Desc::Count => {
            if role == DescriptorRole::Ird {
                match &stmt.statement {
                    Some(data) => Some(data.column_count as isize),
                    None => Some(0),
                }
            } else {
                let d = stmt.descriptor(role);
                assert(d@.records.dom() == d.records@.dom());
                Some(d.records.len() as isize)
            }
        },
        _ => {
            match header_attribute(role, field) {
                Some(attribute) => match stmt.attrs.get(&attribute) {
                    Some(v) => Some(*v as isize),
                    None => Some(header_default(field) as isize),
                },
                None => None,
            }
        },
    }
}

/// The number of columns of the current result set.
fn columns_of(stmt: &StatementHandle) -> (r: i16)
    ensures
        r == column_count(stmt@),
{
    match &stmt.statement {
        Some(data) => data.column_count,
        None => 0,
    }
}

/// The value of a field of the populated implementation row descriptor, from
/// what `columns` says of the result set.
fn read_ird_field<F: Fn(u16, Desc) -> Result<DescFieldValue, OdbcError>>(
    stmt: &StatementHandle,
    record_number: i16,
    field: Desc,
    columns: &F,
) -> (r: Result<DescFieldValue, OdbcError>)
    requires
        can_describe(*columns),
    ensures
        forall|g: ColumnModel| #[trigger]
            describes(*columns, g) ==> column_answer(r) == column_value(
                stmt@,
                record_number,
                field,
                g,
            ),
        column_answer(r) == column_value(
            stmt@,
            record_number,
            field,
            always(column_answer(r)),
        ),
        0 < record_number <= column_count(stmt@) ==> call_ensures(
            *columns,
            (record_number as u16, field),
            r,
        ),
{
    let count = columns_of(stmt);
    if record_number <= 0 || record_number > count {
        let number = decimal_of(record_number as i64);
        let have = decimal_of(count as i64);
        let tail = join3(" out of range (have ", have.as_str(), " columns)");
        return Err(
            OdbcError::general(
                join3("Record number ", number.as_str(), tail.as_str()).as_str(),
                SqlState::invalid_descriptor_index(),
            ),
        );
    }
    columns(record_number as u16, field)
}

/// The value of a field, from whichever source has it: the header, the result
/// set, or the addressed record.
fn read_desc_field<F: Fn(u16, Desc) -> Result<DescFieldValue, OdbcError>>(
    stmt: &StatementHandle,
    role: DescriptorRole,
    record_number: i16,
    field: Desc,
    columns: &F,
) -> (r: Result<Option<DescFieldValue>, OdbcError>)
    requires
        can_describe(*columns),
    ensures
        forall|g: ColumnModel| #[trigger]
            speaks_for(role, *columns, g) ==> read_view(r) == read_value(
                stmt@,
                role,
                record_number,
                field,
                g,
            ),
        exists|v: Result<ValueView, ErrorView>|
            {
                &&& #[trigger] answered(*columns, stmt@, role, record_number, field, v)
                &&& read_view(r) == read_value(stmt@, role, record_number, field, always(v))
            },
{
    proof {
        if !asks_column(stmt@, role, record_number, field) {
            let none = Ok::<ValueView, ErrorView>(ValueView::Numeric(0));
            assert(answered(*columns, stmt@, role, record_number, field, none));
        }
    }
    if record_number < 0 && (role == DescriptorRole::Ard || role == DescriptorRole::Apd) {
        return Err(negative_record_error(record_number));
    }
    if field_access(role, field) == FieldAccess::Undefined {
        let place = join2(" is not defined on ", role.name());
        return Err(
            OdbcError::general(
                join3("Descriptor field ", field.name(), place.as_str()).as_str(),
                SqlState::invalid_descriptor_field_identifier(),
            ),
        );
    }
    if role == DescriptorRole::Ird && columns_of(stmt) <= 0 {
        return Err(
            OdbcError::general(
                "The IRD is not populated: the statement has not been prepared or executed",
                SqlState::associated_statement_not_prepared(),
            ),
        );
    }
    if let Some(value) = read_header_field(stmt, role, field) {
        return Ok(Some(DescFieldValue::Numeric(value)));
    }
    if role == DescriptorRole::Ird {
        let answer = read_ird_field(stmt, record_number, field, columns);
        assert(answered(
            *columns,
            stmt@,
            role,
            record_number,
            field,
            column_answer(answer),
        ));
        return match answer {
            Ok(v) => Ok(Some(v)),
            Err(e) => Err(e),
        };
    }
    let d = stmt.descriptor(role);
    assert(d@.records.dom() == d.records@.dom());
    match d.records.get(&key_of(record_number)) {
        Some(record) => Ok(Some(get_record_field(record, field))),
        None => Ok(None),
    }
}

// ---------------------------------------------------------------------------
// SQLGetDescFieldW
// ---------------------------------------------------------------------------

/// The value of a field on its way to the application.
pub enum FieldWrite {
    Number(isize),
    Units(Vec<u16>),
}

/// What the contracts say of a value on its way.
#[verifier::ext_equal]
pub enum WriteView {
    Number(isize),
    Units(Seq<u16>),
}

impl View for FieldWrite {
    type V = WriteView;

    open spec fn view(&self) -> WriteView {
        match self {
            FieldWrite::Number(n) => WriteView::Number(*n),
            FieldWrite::Units(u) => WriteView::Units(u@),
        }
    }
}

/// What `SQLGetDescFieldW` hands back.
pub struct FieldAnswer {
    pub code: SqlReturn,
    /// What goes to the value buffer, where anything does.
    pub value: Option<FieldWrite>,
    /// The length of a text in bytes.
    pub length: Option<i32>,
}

/// What the contracts say of an answer.
#[verifier::ext_equal]
pub struct AnswerView {
    pub code: SqlReturn,
    pub value: Option<WriteView>,
    pub length: Option<int>,
}

impl View for FieldAnswer {
    type V = AnswerView;

    open spec fn view(&self) -> AnswerView {
        AnswerView {
            code: self.code,
            value: match self.value {
                Some(w) => Some(w@),
                None => None,
            },
            length: match self.length {
                Some(n) => Some(n as int),
                None => None,
            },
        }
    }
}

impl AnswerView {
    /// An answer that writes nothing.
    pub open spec fn bare(code: SqlReturn) -> AnswerView {
        AnswerView { code, value: None, length: None }
    }
}

/// What a text field sends to a buffer of `length` bytes, or to none. The
/// length that goes with it counts bytes.
pub open spec fn text_answer(text: Seq<char>, wanted: bool, length: int) -> AnswerView {
    let all = encode16(text);
    AnswerView {
        code: if wanted && kept(all.len() as int, room(length)) < all.len() {
            SqlReturn::SUCCESS_WITH_INFO
        } else {
            SqlReturn::SUCCESS
        },
        value: if wanted {
            match laid_out(all, room(length)) {
                Some(units) => Some(WriteView::Units(units)),
                None => None,
            }
        } else {
            None
        },
        length: Some(small(all.len() as int) * 2),
    }
}

/// The outcome of reading the field that `raw` names.
pub open spec fn read_named(
    s: StatementView,
    role: DescriptorRole,
    n: i16,
    raw: int,
    columns: ColumnModel,
) -> Result<Option<ValueView>, ErrorView> {
    match spec_desc_from_raw(raw) {
        Some(field) => read_value(s, role, n, field, columns),
        None => Err(unknown_field(raw)),
    }
}

/// The answer to a read, and the diagnostics it leaves.
pub open spec fn read_answer(
    outcome: Result<Option<ValueView>, ErrorView>,
    wanted: bool,
    length: int,
) -> (Seq<RecordView>, AnswerView) {
    match outcome {
        Err(e) => (
            settled(Seq::empty(), Err(e)).0,
            AnswerView::bare(settled(Seq::empty(), Err(e)).1),
        ),
        Ok(None) => (Seq::empty(), AnswerView::bare(SqlReturn::NO_DATA)),
        Ok(Some(ValueView::Numeric(v))) => (
            Seq::empty(),
            AnswerView {
                code: SqlReturn::SUCCESS,
                value: if wanted {
                    Some(WriteView::Number(v))
                } else {
                    None
                },
                length: None,
            },
        ),
        Ok(Some(ValueView::Text(t))) => {
            let a = text_answer(t, wanted, length);
            (truncation_noted(Seq::empty(), a.code), a)
        },
    }
}

/// What `SQLGetDescFieldW` does to the statement and answers.
pub open spec fn get_field_step(
    s: StatementView,
    role: DescriptorRole,
    n: i16,
    raw: int,
    wanted: bool,
    length: int,
    columns: ColumnModel,
) -> (StatementView, AnswerView) {
    let (queue, a) = read_answer(read_named(s, role, n, raw, columns), wanted, length);
    (s.with_descriptor_queue(role, queue), a)
}

/// What is read from a descriptor does not depend on its diagnostics.
proof fn lemma_reads_ignore_diagnostics(
    s: StatementView,
    role: DescriptorRole,
    queue: Seq<RecordView>,
    n: i16,
    columns: ColumnModel,
)
    ensures
        forall|field: Desc|
            read_value(s.with_descriptor_queue(role, queue), role, n, field, columns)
                == #[trigger] read_value(s, role, n, field, columns),
{
    let t = s.with_descriptor_queue(role, queue);
    assert(t.descriptor(role).records == s.descriptor(role).records);
    assert forall|field: Desc| read_value(t, role, n, field, columns) == #[trigger] read_value(
        s,
        role,
        n,
        field,
        columns,
    ) by {
        assert(header_value(t, role, field) == header_value(s, role, field));
    }
}

/// Where the field that `raw` names is asked of a column, `v` is an answer that
/// `f` can give for it.
pub open spec fn named_answered<F: Fn(u16, Desc) -> Result<DescFieldValue, OdbcError>>(
    f: F,
    s: StatementView,
    role: DescriptorRole,
    n: i16,
    raw: int,
    v: Result<ValueView, ErrorView>,
) -> bool {
    spec_desc_from_raw(raw) matches Some(field) ==> answered(f, s, role, n, field, v)
}

/// `SQLGetDescFieldW`: the value of one field of the descriptor that `role`
/// names. The handle is absent where it names no descriptor. `columns` answers
/// for the columns of the result set; `wanted` says whether there is a buffer,
/// of `buffer_length` bytes, for the value.
pub fn sql_get_desc_field_w<F: Fn(u16, Desc) -> Result<DescFieldValue, OdbcError>>(
    stmt: Option<&mut StatementHandle>,
    role: DescriptorRole,
    record_number: i16,
    field_identifier: i16,
    wanted: bool,
    buffer_length: i32,
    columns: &F,
) -> (r: FieldAnswer)
    requires
        can_describe(*columns),
    ensures
        match stmt {
            None => r@ == AnswerView::bare(SqlReturn::INVALID_HANDLE),
            Some(s) => {
                &&& exists|v: Result<ValueView, ErrorView>|
                    {
                        &&& #[trigger] named_answered(
                            *columns,
                            s@,
                            role,
                            record_number,
                            field_identifier as int,
                            v,
                        )
                        &&& (final(s)@, r@) == get_field_step(
                            s@,
                            role,
                            record_number,
                            field_identifier as int,
                            wanted,
                            buffer_length as int,
                            always(v),
                        )
                    }
                &&& forall|g: ColumnModel| #[trigger]
                    speaks_for(role, *columns, g) ==> (final(s)@, r@) == get_field_step(
                        s@,
                        role,
                        record_number,
                        field_identifier as int,
                        wanted,
                        buffer_length as int,
                        g,
                    )
            },
        },
{
    let stmt = match stmt {
        None => {
            return FieldAnswer { code: SqlReturn::INVALID_HANDLE, value: None, length: None };
        },
        Some(s) => s,
    };
    let ghost before = stmt@;
    stmt.descriptor_mut(role).diagnostics.clear();
    let ghost cleared = stmt@;
    assert(cleared == before.with_descriptor_queue(role, Seq::empty()));
    let outcome = match field_from_raw(field_identifier) {
        Ok(field) => read_desc_field(stmt, role, record_number, field, columns),
        Err(e) => Err(e),
    };
    assert forall|g: ColumnModel| #[trigger] speaks_for(role, *columns, g) implies read_view(
        outcome,
    ) == read_named(before, role, record_number, field_identifier as int, g) by {
        assert(cleared.descriptor(role).records == before.descriptor(role).records);
    }
    let ghost v = match spec_desc_from_raw(field_identifier as int) {
        Some(field) => choose|v: Result<ValueView, ErrorView>|
            {
                &&& #[trigger] answered(*columns, cleared, role, record_number, field, v)
                &&& read_view(outcome) == read_value(
                    cleared,
                    role,
                    record_number,
                    field,
                    always(v),
                )
            },
        None => Ok(ValueView::Numeric(0)),
    };
    proof {
        lemma_reads_ignore_diagnostics(before, role, Seq::empty(), record_number, always(v));
        assert(named_answered(
            *columns,
            before,
            role,
            record_number,
            field_identifier as int,
            v,
        ));
        assert(read_view(outcome) == read_named(
            before,
            role,
            record_number,
            field_identifier as int,
            always(v),
        ));
    }
    match outcome {
        Err(e) => {
            let code = settle(&mut stmt.descriptor_mut(role).diagnostics, Err(e));
            FieldAnswer { code, value: None, length: None }
        },
        Ok(None) => FieldAnswer { code: SqlReturn::NO_DATA, value: None, length: None },
        Ok(Some(DescFieldValue::Numeric(n))) => {
            let value = if wanted {
                Some(FieldWrite::Number(n))
            } else {
                None
            };
            FieldAnswer { code: SqlReturn::SUCCESS, value, length: None }
        },
        Ok(Some(DescFieldValue::Text(text))) => {
            let write = write_utf16(text.as_str(), wanted, room_in(buffer_length));
            let code = note_truncation(write.code, &mut stmt.descriptor_mut(role).diagnostics);
            let length: i32 = write.length as i32 * 2;
            let value = match write.units {
                Some(units) => Some(FieldWrite::Units(units)),
                None => None,
            };
            FieldAnswer { code, value, length: Some(length) }
        },
    }
}

// ---------------------------------------------------------------------------
// SQLSetDescFieldW
// ---------------------------------------------------------------------------

/// `SQL_DESC_ARRAY_SIZE` can only be this: a rowset has one row.
pub const SQL_DESC_ARRAY_SIZE_SUPPORTED: usize = 1;

/// Half of `n`, rounded towards zero.
pub open spec fn half(n: int) -> int {
    if n < 0 {
        -((-n) / 2)
    } else {
        n / 2
    }
}

fn half_of(n: i32) -> (r: i32)
    ensures
        r == half(n as int),
{
    if n >= 0 {
        n / 2
    } else if n == i32::MIN {
        -0x4000_0000
    } else {
        -((-n) / 2)
    }
}

/// The failure for a field of the implementation row descriptor, which is
/// computed and cannot be written.
pub open spec fn ird_field(field: Desc) -> ErrorView {
    ErrorView::general(
        "Descriptor field "@ + field.spec_name() + " cannot be written on an IRD"@,
        CANNOT_MODIFY_IRD@,
    )
}

/// The warning for an array size that was replaced.
pub open spec fn array_size_changed(value: int) -> ErrorView {
    ErrorView::general(
        "SQL_DESC_ARRAY_SIZE "@ + decimal(value) + " is not supported; 1 is used instead"@,
        OPTION_VALUE_CHANGED@,
    )
}

/// Why a field of the descriptor cannot be written, if so.
pub open spec fn write_refusal(role: DescriptorRole, n: int, field: Desc) -> Option<ErrorView> {
    if is_refused_record(role, n) {
        Some(negative_record(n))
    } else if role == DescriptorRole::Ird && field != Desc::ArrayStatusPtr && field
        != Desc::RowsProcessedPtr {
        Some(ird_field(field))
    } else if spec_field_access(role, field) != FieldAccess::ReadWrite {
        Some(not_writable(role, field))
    } else {
        None
    }
}

/// A number of records as a record number.
pub open spec fn clamped(count: usize) -> u16 {
    if count > u16::MAX {
        u16::MAX
    } else {
        count as u16
    }
}

/// A write to a header field: the value goes to the statement attribute that
/// the field is another name for. An array size other than 1 is replaced by 1,
/// with a warning on the descriptor.
pub open spec fn write_header(
    s: StatementView,
    role: DescriptorRole,
    field: Desc,
    attribute: i32,
    value: usize,
) -> (StatementView, SqlReturn) {
    if field == Desc::ArraySize && value != SQL_DESC_ARRAY_SIZE_SUPPORTED {
        (
            StatementView {
                attrs: s.attrs.insert(attribute, SQL_DESC_ARRAY_SIZE_SUPPORTED),
                ..s
            }.with_descriptor_queue(
                role,
                s.descriptor(role).queue.push(record_of(array_size_changed(value as int))),
            ),
            SqlReturn::SUCCESS_WITH_INFO,
        )
    } else {
        (StatementView { attrs: s.attrs.insert(attribute, value), ..s }, SqlReturn::SUCCESS)
    }
}

/// A write to a record field. The record comes to exist with the first field
/// that is written, and a data pointer is followed by the consistency check,
/// whose failure leaves what was written.
pub open spec fn write_record(
    s: StatementView,
    role: DescriptorRole,
    key: u16,
    field: Desc,
    value: ValueView,
) -> (StatementView, Result<SqlReturn, ErrorView>) {
    let d = s.descriptor(role);
    let old_record = record_at(d.records, key);
    let (record, outcome) = match with_field(old_record, role, field, value) {
        Err(e) => (old_record, Err(e)),
        Ok(record) => (
            record,
            match inconsistency(record) {
                Some(e) if field == Desc::DataPtr => Err(e),
                _ => Ok(SqlReturn::SUCCESS),
            },
        ),
    };
    (
        s.with_descriptor(role, DescriptorView { records: d.records.insert(key, record), ..d }),
        outcome,
    )
}

/// The value that an application passed for a record field: a text for the
/// name, and otherwise the pointer argument itself.
pub open spec fn given_value(
    field: Desc,
    value: usize,
    text: Option<Seq<u16>>,
    length: int,
) -> Result<ValueView, ErrorView> {
    if field == Desc::Name {
        match given_text(text, half(length)) {
            Ok(t) => Ok(ValueView::Text(t)),
            Err(e) => Err(e),
        }
    } else {
        Ok(ValueView::Numeric(value as isize))
    }
}

/// A write to one field of a descriptor.
pub open spec fn write_field(
    s: StatementView,
    role: DescriptorRole,
    n: i16,
    field: Desc,
    value: usize,
    text: Option<Seq<u16>>,
    length: int,
) -> (StatementView, Result<SqlReturn, ErrorView>) {
    match write_refusal(role, n as int, field) {
        Some(e) => (s, Err(e)),
        None => if field == Desc::Count {
            let d = s.descriptor(role);
            (
                s.with_descriptor(
                    role,
                    DescriptorView { records: up_to(d.records, clamped(value)), ..d },
                ),
                Ok(SqlReturn::SUCCESS),
            )
        } else {
            match spec_header_attribute(role, field) {
                Some(attribute) => {
                    let (after, code) = write_header(s, role, field, attribute, value);
                    (after, Ok(code))
                },
                None => match given_value(field, value, text, length) {
                    Err(e) => (s, Err(e)),
                    Ok(v) => write_record(s, role, record_key(n), field, v),
                },
            }
        },
    }
}

/// What a call that cleared the descriptor's diagnostics leaves when it ends in
/// `outcome`.
pub open spec fn concluded(
    s: StatementView,
    role: DescriptorRole,
    outcome: Result<SqlReturn, ErrorView>,
) -> (StatementView, SqlReturn) {
    let (queue, code) = settled(s.descriptor(role).queue, outcome);
    (s.with_descriptor_queue(role, queue), code)
}

/// What `SQLSetDescFieldW` does to the statement and returns.
pub open spec fn set_field_step(
    s: StatementView,
    role: DescriptorRole,
    n: i16,
    raw: int,
    value: usize,
    text: Option<Seq<u16>>,
    length: int,
) -> (StatementView, SqlReturn) {
    let cleared = s.with_descriptor_queue(role, Seq::empty());
    match spec_desc_from_raw(raw) {
        None => concluded(cleared, role, Err(unknown_field(raw))),
        Some(field) => {
            let (after, outcome) = write_field(cleared, role, n, field, value, text, length);
            concluded(after, role, outcome)
        },
    }
}

/// `SQL_DESC_COUNT`: the records above it are discarded.
fn truncate_records(stmt: &mut StatementHandle, role: DescriptorRole, count: usize) -> (r:
    SqlReturn)
    ensures
        r == SqlReturn::SUCCESS,
        final(stmt)@ == old(stmt)@.with_descriptor(
            role,
            DescriptorView {
                records: up_to(old(stmt)@.descriptor(role).records, clamped(count)),
                ..old(stmt)@.descriptor(role)
            },
        ),
{
    let count: u16 = if count > 65535 {
        65535
    } else {
        count as u16
    };
    stmt.descriptor_mut(role).truncate(count);
    SqlReturn::SUCCESS
}

/// A write to a header field, with the one value that cannot be honoured
/// replaced.
fn write_header_field(
    stmt: &mut StatementHandle,
    role: DescriptorRole,
    field: Desc,
    attribute: i32,
    value: usize,
) -> (r: SqlReturn)
    ensures
        (final(stmt)@, r) == write_header(old(stmt)@, role, field, attribute, value),
{
    if field == Desc::ArraySize && value != SQL_DESC_ARRAY_SIZE_SUPPORTED {
        stmt.attrs.insert(attribute, SQL_DESC_ARRAY_SIZE_SUPPORTED);
        let number = unsigned_of(value);
        let warning = OdbcError::general(
            join3(
                "SQL_DESC_ARRAY_SIZE ",
                number.as_str(),
                " is not supported; 1 is used instead",
            ).as_str(),
            SqlState::option_value_changed(),
        );
        stmt.descriptor_mut(role).diagnostics.push(&warning);
        SqlReturn::SUCCESS_WITH_INFO
    } else {
        stmt.attrs.insert(attribute, value);
        SqlReturn::SUCCESS
    }
}

/// Writes one field of a descriptor.
fn write_desc_field(
    stmt: &mut StatementHandle,
    role: DescriptorRole,
    record_number: i16,
    field: Desc,
    value: usize,
    text: Option<&[u16]>,
    buffer_length: i32,
) -> (r: Result<SqlReturn, OdbcError>)
    requires
        readable(text, half(buffer_length as int)),
    ensures
        (final(stmt)@, outcome_view(r)) == write_field(
            old(stmt)@,
            role,
            record_number,
            field,
            value,
            units_view(text),
            buffer_length as int,
        ),
{
    if record_number < 0 && (role == DescriptorRole::Ard || role == DescriptorRole::Apd) {
        return Err(negative_record_error(record_number));
    }
    if role == DescriptorRole::Ird && field != Desc::ArrayStatusPtr && field
        != Desc::RowsProcessedPtr {
        return Err(
            OdbcError::general(
                join3("Descriptor field ", field.name(), " cannot be written on an IRD").as_str(),
                SqlState::cannot_modify_ird(),
            ),
        );
    }
    if field_access(role, field) != FieldAccess::ReadWrite {
        return Err(unwritable(role, field));
    }
    if field == Desc::Count {
        return Ok(truncate_records(stmt, role, value));
    }
    if let Some(attribute) = header_attribute(role, field) {
        return Ok(write_header_field(stmt, role, field, attribute, value));
    }
    let value = if field == Desc::Name {
        match utf16_to_string(text, half_of(buffer_length)) {
            Ok(name) => DescFieldValue::Text(name),
            Err(e) => {
                return Err(e);
            },
        }
    } else {
        DescFieldValue::Numeric(value as isize)
    };
    let key = key_of(record_number);
    let d = stmt.descriptor_mut(role);
    let ghost records = d@.records;
    let mut record = d.take(key);
    let outcome = match set_record_field(&mut record, role, field, value) {
        Err(e) => Err(e),
        Ok(_) => if field == Desc::DataPtr {
            match consistency_check(&record) {
                Err(e) => Err(e),
                Ok(_) => Ok(SqlReturn::SUCCESS),
            }
        } else {
            Ok(SqlReturn::SUCCESS)
        },
    };
    assert(records.remove(key).insert(key, record@) == records.insert(key, record@));
    d.put(key, record);
    outcome
}

/// `SQLSetDescFieldW`: writes one field of the descriptor that `role` names.
/// `value` is the pointer argument as a number; `text` is what it points to
/// where the field is a text.
pub fn sql_set_desc_field_w(
    stmt: Option<&mut StatementHandle>,
    role: DescriptorRole,
    record_number: i16,
    field_identifier: i16,
    value: usize,
    text: Option<&[u16]>,
    buffer_length: i32,
) -> (r: SqlReturn)
    requires
        readable(text, half(buffer_length as int)),
    ensures
        match stmt {
            None => r == SqlReturn::INVALID_HANDLE,
            Some(s) => (final(s)@, r) == set_field_step(
                s@,
                role,
                record_number,
                field_identifier as int,
                value,
                units_view(text),
                buffer_length as int,
            ),
        },
{
    let stmt = match stmt {
        None => {
            return SqlReturn::INVALID_HANDLE;
        },
        Some(s) => s,
    };
    let ghost before = stmt@;
    stmt.descriptor_mut(role).diagnostics.clear();
    assert(stmt@ == before.with_descriptor_queue(role, Seq::empty()));
    let outcome = match field_from_raw(field_identifier) {
        Ok(field) => write_desc_field(
            stmt,
            role,
            record_number,
            field,
            value,
            text,
            buffer_length,
        ),
        Err(e) => Err(e),
    };
    settle(&mut stmt.descriptor_mut(role).diagnostics, outcome)
}

// ---------------------------------------------------------------------------
// SQLGetDescRecW
// ---------------------------------------------------------------------------

/// A number as a `SQLSMALLINT`; one that does not fit becomes the largest.
pub open spec fn narrowed(n: isize) -> i16 {
    if is_small(n) {
        n as i16
    } else {
        i16::MAX
    }
}

/// The number that one of the fixed fields of a record holds. A field that the
/// descriptor does not have holds none.
pub open spec fn record_number_value(
    s: StatementView,
    role: DescriptorRole,
    n: i16,
    field: Desc,
    columns: ColumnModel,
) -> Result<Option<isize>, ErrorView> {
    if spec_field_access(role, field) == FieldAccess::Undefined {
        Ok(None)
    } else {
        match read_value(s, role, n, field, columns) {
            Ok(Some(ValueView::Numeric(v))) => Ok(Some(v)),
            Ok(_) => Ok(None),
            Err(e) => Err(e),
        }
    }
}

/// The name of a record. A descriptor without names has none.
pub open spec fn record_name(
    s: StatementView,
    role: DescriptorRole,
    n: i16,
    columns: ColumnModel,
) -> Result<Option<Seq<char>>, ErrorView> {
    if spec_field_access(role, Desc::Name) == FieldAccess::Undefined {
        Ok(None)
    } else {
        match read_value(s, role, n, Desc::Name, columns) {
            Ok(Some(ValueView::Text(t))) => Ok(Some(t)),
            Ok(_) => Ok(None),
            Err(e) => Err(e),
        }
    }
}

/// The numbers of one record.
pub struct RecordNumbers {
    pub verbose_type: isize,
    pub sub_type: isize,
    pub octet_length: isize,
    pub precision: isize,
    pub scale: isize,
    pub nullable: isize,
}

/// The value of a number that may be absent, or the failure to read it.
pub open spec fn or_else(r: Result<Option<isize>, ErrorView>, default: isize) -> Result<
    isize,
    ErrorView,
> {
    match r {
        Ok(Some(v)) => Ok(v),
        Ok(None) => Ok(default),
        Err(e) => Err(e),
    }
}

/// The numbers of one record, none past the last record. The first field that
/// cannot be read decides the failure.
pub open spec fn record_numbers(
    s: StatementView,
    role: DescriptorRole,
    n: i16,
    columns: ColumnModel,
) -> Result<Option<RecordNumbers>, ErrorView> {
    let value = |field: Desc| record_number_value(s, role, n, field, columns);
    match value(Desc::Type) {
        Err(e) => Err(e),
        Ok(None) => Ok(None),
        Ok(Some(verbose_type)) => match (
            or_else(value(Desc::DatetimeIntervalCode), 0),
            or_else(value(Desc::OctetLength), 0),
            or_else(value(Desc::Precision), 0),
            or_else(value(Desc::Scale), 0),
            or_else(value(Desc::Nullable), SQL_NULLABLE_UNKNOWN as isize),
        ) {
            (Err(e), _, _, _, _) => Err(e),
            (_, Err(e), _, _, _) => Err(e),
            (_, _, Err(e), _, _) => Err(e),
            (_, _, _, Err(e), _) => Err(e),
            (_, _, _, _, Err(e)) => Err(e),
            (Ok(sub_type), Ok(octet_length), Ok(precision), Ok(scale), Ok(nullable)) => Ok(
                Some(
                    RecordNumbers {
                        verbose_type,
                        sub_type,
                        octet_length,
                        precision,
                        scale,
                        nullable,
                    },
                ),
            ),
        },
    }
}

/// What `SQLGetDescRecW` hands back beside its numbers.
pub struct NameAnswer {
    pub code: SqlReturn,
    /// Whether the record has numbers, which then are in the outputs.
    pub numbers: bool,
    /// What goes to the start of the name buffer, where anything does.
    pub units: Option<Vec<u16>>,
    /// The length of the name in bytes.
    pub length: Option<i16>,
}

/// What the contracts say of an answer with a name.
#[verifier::ext_equal]
pub struct NameView {
    pub code: SqlReturn,
    pub numbers: bool,
    pub units: Option<Seq<u16>>,
    pub length: Option<int>,
}

impl View for NameAnswer {
    type V = NameView;

    open spec fn view(&self) -> NameView {
        NameView {
            code: self.code,
            numbers: self.numbers,
            units: vec_view(self.units),
            length: match self.length {
                Some(n) => Some(n as int),
                None => None,
            },
        }
    }
}

impl NameView {
    /// An answer without a name.
    pub open spec fn bare(code: SqlReturn, numbers: bool) -> NameView {
        NameView { code, numbers, units: None, length: None }
    }
}

/// The answer that carries a name to a buffer of `length` bytes, or to none.
pub open spec fn name_answer(name: Seq<char>, wanted: bool, length: int) -> NameView {
    let all = encode16(name);
    NameView {
        numbers: true,
        code: if wanted && kept(all.len() as int, room(length)) < all.len() {
            SqlReturn::SUCCESS_WITH_INFO
        } else {
            SqlReturn::SUCCESS
        },
        units: if wanted {
            laid_out(all, room(length))
        } else {
            None
        },
        length: Some(small(small(all.len() as int) * 2)),
    }
}

/// What `SQLGetDescRecW` does to the statement, and its answer with the name.
pub open spec fn get_rec_step(
    s: StatementView,
    role: DescriptorRole,
    n: i16,
    wanted: bool,
    length: int,
    columns: ColumnModel,
) -> (StatementView, NameView) {
    let failed = |e: ErrorView, numbers: bool|
        (
            s.with_descriptor_queue(role, settled(Seq::empty(), Err(e)).0),
            NameView::bare(settled(Seq::empty(), Err(e)).1, numbers),
        );
    let quiet = s.with_descriptor_queue(role, Seq::empty());
    match record_numbers(s, role, n, columns) {
        Err(e) => failed(e, false),
        Ok(None) => (quiet, NameView::bare(SqlReturn::NO_DATA, false)),
        Ok(Some(_)) => match record_name(s, role, n, columns) {
            Err(e) => failed(e, true),
            Ok(None) => (quiet, NameView::bare(SqlReturn::SUCCESS, true)),
            Ok(Some(name)) => {
                let a = name_answer(name, wanted, length);
                (s.with_descriptor_queue(role, truncation_noted(Seq::empty(), a.code)), a)
            },
        },
    }
}

/// The fields that `SQLGetDescRecW` reads, in their order.
pub open spec fn record_fields() -> Seq<Desc> {
    seq![
        Desc::Type,
        Desc::DatetimeIntervalCode,
        Desc::OctetLength,
        Desc::Precision,
        Desc::Scale,
        Desc::Nullable,
        Desc::Name,
    ]
}

/// Whether reading the column `n` comes to the field at `i`: none of those
/// before it failed, and the type was a number.
pub open spec fn reached(columns: ColumnModel, n: u16, i: int) -> bool {
    &&& forall|j: int| 0 <= j < i ==> columns(n, #[trigger] record_fields()[j]) is Ok
    &&& 0 < i ==> columns(n, Desc::Type) matches Ok(ValueView::Numeric(_))
}

/// Where columns are asked for, `g` gives answers that `f` can give, for those
/// of the first `count` fields that the reading comes to.
pub open spec fn record_answered<F: Fn(u16, Desc) -> Result<DescFieldValue, OdbcError>>(
    f: F,
    s: StatementView,
    role: DescriptorRole,
    n: i16,
    count: int,
    g: ColumnModel,
) -> bool {
    forall|i: int|
        0 <= i < count && reached(g, n as u16, i) ==> answered(
            f,
            s,
            role,
            n,
            #[trigger] record_fields()[i],
            g(n as u16, record_fields()[i]),
        )
}

/// What an output holds after the call: its number, where the record has
/// numbers, and otherwise what it held before.
pub open spec fn received<T>(
    before: T,
    numbers: Result<Option<RecordNumbers>, ErrorView>,
    value: spec_fn(RecordNumbers) -> T,
) -> T {
    match numbers {
        Ok(Some(v)) => value(v),
        _ => before,
    }
}

/// What the place for the type of a record holds after the record was read.
pub open spec fn type_received(
    before: i16,
    numbers: Result<Option<RecordNumbers>, ErrorView>,
) -> i16 {
    received(before, numbers, |v: RecordNumbers| narrowed(v.verbose_type))
}

/// What the place for the subcode of a record holds after the record was read.
pub open spec fn sub_type_received(
    before: i16,
    numbers: Result<Option<RecordNumbers>, ErrorView>,
) -> i16 {
    received(before, numbers, |v: RecordNumbers| narrowed(v.sub_type))
}

/// What the place for the length in bytes of a record holds after the record was read.
pub open spec fn length_received(
    before: isize,
    numbers: Result<Option<RecordNumbers>, ErrorView>,
) -> isize {
    received(before, numbers, |v: RecordNumbers| v.octet_length)
}

/// What the place for the precision of a record holds after the record was read.
pub open spec fn precision_received(
    before: i16,
    numbers: Result<Option<RecordNumbers>, ErrorView>,
) -> i16 {
    received(before, numbers, |v: RecordNumbers| narrowed(v.precision))
}

/// What the place for the scale of a record holds after the record was read.
pub open spec fn scale_received(
    before: i16,
    numbers: Result<Option<RecordNumbers>, ErrorView>,
) -> i16 {
    received(before, numbers, |v: RecordNumbers| narrowed(v.scale))
}

/// What the place for the nullability of a record holds after the record was read.
pub open spec fn nullable_received(
    before: i16,
    numbers: Result<Option<RecordNumbers>, ErrorView>,
) -> i16 {
    received(before, numbers, |v: RecordNumbers| narrowed(v.nullable))
}

/// Writes one of the `SQLSMALLINT` outputs, if the application asked for it.
fn write_small_int(out: Option<&mut i16>, value: isize)
    ensures
        out matches Some(p) ==> *final(p) == narrowed(value),
{
    if let Some(p) = out {
        *p = if -32768 <= value && value <= 32767 {
            value as i16
        } else {
            32767
        };
    }
}

/// The outcome of reading a number, by its view.
spec fn number_view(r: Result<Option<isize>, OdbcError>) -> Result<Option<isize>, ErrorView> {
    match r {
        Ok(v) => Ok(v),
        Err(e) => Err(e@),
    }
}

/// `number` is what one of the fixed fields comes to with the answer `v`, which
/// `f` can give where a column is asked for it.
spec fn number_answered<F: Fn(u16, Desc) -> Result<DescFieldValue, OdbcError>>(
    f: F,
    s: StatementView,
    role: DescriptorRole,
    n: i16,
    field: Desc,
    number: Result<Option<isize>, ErrorView>,
    v: Result<ValueView, ErrorView>,
) -> bool {
    answered(f, s, role, n, field, v) && number == record_number_value(
        s,
        role,
        n,
        field,
        always(v),
    )
}

/// The answer behind a number that was read.
spec fn answer_of<F: Fn(u16, Desc) -> Result<DescFieldValue, OdbcError>>(
    f: F,
    s: StatementView,
    role: DescriptorRole,
    n: i16,
    field: Desc,
    number: Result<Option<isize>, ErrorView>,
) -> Result<ValueView, ErrorView> {
    choose|v: Result<ValueView, ErrorView>| number_answered(f, s, role, n, field, number, v)
}

/// The number of one of the fixed fields of a record.
fn read_number<F: Fn(u16, Desc) -> Result<DescFieldValue, OdbcError>>(
    stmt: &StatementHandle,
    role: DescriptorRole,
    record_number: i16,
    field: Desc,
    columns: &F,
) -> (r: Result<Option<isize>, OdbcError>)
    requires
        can_describe(*columns),
    ensures
        forall|g: ColumnModel| #[trigger]
            speaks_for(role, *columns, g) ==> (match r {
                Ok(v) => Ok(v),
                Err(e) => Err(e@),
            }) == record_number_value(stmt@, role, record_number, field, g),
        exists|v: Result<ValueView, ErrorView>|
            number_answered(*columns, stmt@, role, record_number, field, number_view(r), v),
{
    proof {
        if !asks_column(stmt@, role, record_number, field) {
            let none = Ok::<ValueView, ErrorView>(ValueView::Numeric(0));
            assert(answered(*columns, stmt@, role, record_number, field, none));
            assert(spec_field_access(role, field) == FieldAccess::Undefined ==> number_answered(
                *columns,
                stmt@,
                role,
                record_number,
                field,
                Ok(None),
                none,
            ));
        }
    }
    if field_access(role, field) == FieldAccess::Undefined {
        return Ok(None);
    }
    let read = read_desc_field(stmt, role, record_number, field, columns);
    let ghost v = choose|v: Result<ValueView, ErrorView>|
        {
            &&& #[trigger] answered(*columns, stmt@, role, record_number, field, v)
            &&& read_view(read) == read_value(stmt@, role, record_number, field, always(v))
        };
    let r = match read {
        Ok(Some(DescFieldValue::Numeric(v))) => Ok(Some(v)),
        Ok(_) => Ok(None),
        Err(e) => Err(e),
    };
    assert(number_answered(
        *columns,
        stmt@,
        role,
        record_number,
        field,
        number_view(r),
        v,
    ));
    r
}

/// Where a field comes in the reading of a record.
spec fn field_place(field: Desc) -> int {
    match field {
        Desc::Type => 0,
        Desc::DatetimeIntervalCode => 1,
        Desc::OctetLength => 2,
        Desc::Precision => 3,
        Desc::Scale => 4,
        _ => 5,
    }
}

/// Columns that give the answers of `vs`, field by field, and the last of them
/// from there on.
spec fn answers(vs: Seq<Result<ValueView, ErrorView>>) -> ColumnModel {
    |column: u16, field: Desc|
        if field_place(field) < vs.len() {
            vs[field_place(field)]
        } else {
            vs.last()
        }
}

/// The numbers `xs` that were read, each with the answer behind it, and nothing
/// after a failure or the end of the record.
proof fn lemma_numbers_so_far<F: Fn(u16, Desc) -> Result<DescFieldValue, OdbcError>>(
    f: F,
    s: StatementView,
    role: DescriptorRole,
    n: i16,
    xs: Seq<Result<Option<isize>, ErrorView>>,
    vs: Seq<Result<ValueView, ErrorView>>,
)
    requires
        1 <= vs.len() <= 6,
        xs.len() == vs.len(),
        forall|i: int|
            0 <= i < vs.len() ==> number_answered(
                f,
                s,
                role,
                n,
                #[trigger] record_fields()[i],
                xs[i],
                vs[i],
            ),
        vs.len() < 6 ==> xs.last() is Err || (vs.len() == 1 && xs[0] == Ok::<
            Option<isize>,
            ErrorView,
        >(None)),
    ensures
        record_answered(f, s, role, n, 6, answers(vs)),
        forall|i: int|
            0 <= i < vs.len() ==> record_number_value(
                s,
                role,
                n,
                #[trigger] record_fields()[i],
                answers(vs),
            ) == xs[i],
{
    let g = answers(vs);
    assert forall|i: int| 0 <= i < 6 implies field_place(#[trigger] record_fields()[i]) == i by {}
    assert forall|i: int| 0 <= i < vs.len() implies record_number_value(
        s,
        role,
        n,
        #[trigger] record_fields()[i],
        g,
    ) == xs[i] by {
        assert(number_answered(f, s, role, n, record_fields()[i], xs[i], vs[i]));
        assert(g(n as u16, record_fields()[i]) == vs[i]);
    }
    assert forall|i: int| 0 <= i < 6 && reached(g, n as u16, i) implies answered(
        f,
        s,
        role,
        n,
        #[trigger] record_fields()[i],
        g(n as u16, record_fields()[i]),
    ) by {
        if i < vs.len() {
            assert(number_answered(f, s, role, n, record_fields()[i], xs[i], vs[i]));
        } else if asks_column(s, role, n, record_fields()[i]) {
            let last = vs.len() - 1;
            assert(number_answered(f, s, role, n, record_fields()[last], xs[last], vs[last]));
            assert(asks_column(s, role, n, record_fields()[last]));
            assert(g(n as u16, record_fields()[last]) == vs[last]);
            assert(g(n as u16, record_fields()[last]) is Ok);
        }
    }
}

/// Where the numbers of a record cannot be had, the reading does not come to the
/// name.
proof fn lemma_name_is_not_reached(
    s: StatementView,
    role: DescriptorRole,
    n: i16,
    g: ColumnModel,
)
    requires
        asks_column(s, role, n, Desc::Name),
        !(record_numbers(s, role, n, g) matches Ok(Some(_))),
    ensures
        !reached(g, n as u16, 6),
{
    if reached(g, n as u16, 6) {
        assert forall|i: int| 0 <= i < 6 implies record_number_value(
            s,
            role,
            n,
            #[trigger] record_fields()[i],
            g,
        ) is Ok by {
            assert(g(n as u16, record_fields()[i]) is Ok);
        }
        assert(record_number_value(s, role, n, record_fields()[0], g) matches Ok(Some(_)));
        assert(record_number_value(s, role, n, record_fields()[1], g) is Ok);
        assert(record_number_value(s, role, n, record_fields()[2], g) is Ok);
        assert(record_number_value(s, role, n, record_fields()[3], g) is Ok);
        assert(record_number_value(s, role, n, record_fields()[4], g) is Ok);
        assert(record_number_value(s, role, n, record_fields()[5], g) is Ok);
    }
}

proof fn lemma_answered_to_the_end<F: Fn(u16, Desc) -> Result<DescFieldValue, OdbcError>>(
    f: F,
    s: StatementView,
    role: DescriptorRole,
    n: i16,
    g: ColumnModel,
)
    requires
        record_answered(f, s, role, n, 6, g),
        asks_column(s, role, n, Desc::Name) ==> !reached(g, n as u16, 6),
    ensures
        record_answered(f, s, role, n, 7, g),
{
    assert forall|i: int| 0 <= i < 7 && reached(g, n as u16, i) implies answered(
        f,
        s,
        role,
        n,
        #[trigger] record_fields()[i],
        g(n as u16, record_fields()[i]),
    ) by {
        if i < 6 {
            assert(answered(
                f,
                s,
                role,
                n,
                record_fields()[i],
                g(n as u16, record_fields()[i]),
            ));
        }
    }
}

/// Columns as in `g`, but for the name.
spec fn with_name(g: ColumnModel, v: Result<ValueView, ErrorView>) -> ColumnModel {
    |column: u16, field: Desc|
        if field == Desc::Name {
            v
        } else {
            g(column, field)
        }
}

proof fn lemma_answered_with_name<F: Fn(u16, Desc) -> Result<DescFieldValue, OdbcError>>(
    f: F,
    s: StatementView,
    role: DescriptorRole,
    n: i16,
    g: ColumnModel,
    v: Result<ValueView, ErrorView>,
)
    requires
        record_answered(f, s, role, n, 6, g),
        answered(f, s, role, n, Desc::Name, v),
    ensures
        record_answered(f, s, role, n, 7, with_name(g, v)),
        record_numbers(s, role, n, with_name(g, v)) == record_numbers(s, role, n, g),
        read_value(s, role, n, Desc::Name, with_name(g, v)) == read_value(
            s,
            role,
            n,
            Desc::Name,
            always(v),
        ),
{
    let h = with_name(g, v);
    assert forall|i: int| 0 <= i < 7 && reached(h, n as u16, i) implies answered(
        f,
        s,
        role,
        n,
        #[trigger] record_fields()[i],
        h(n as u16, record_fields()[i]),
    ) by {
        if i < 6 {
            assert forall|j: int| 0 <= j < i implies g(
                n as u16,
                #[trigger] record_fields()[j],
            ) is Ok by {
                assert(h(n as u16, record_fields()[j]) is Ok);
            }
            assert(reached(g, n as u16, i));
            assert(answered(
                f,
                s,
                role,
                n,
                record_fields()[i],
                g(n as u16, record_fields()[i]),
            ));
        }
    }
    assert forall|field: Desc| field != Desc::Name implies #[trigger] record_number_value(
        s,
        role,
        n,
        field,
        h,
    ) == record_number_value(s, role, n, field, g) by {
    }
    assert(record_number_value(s, role, n, Desc::Type, h) == record_number_value(
        s,
        role,
        n,
        Desc::Type,
        g,
    ));
}

/// The outcome of reading the numbers, by its view.
spec fn numbers_view(r: Result<Option<RecordNumbers>, OdbcError>) -> Result<
    Option<RecordNumbers>,
    ErrorView,
> {
    match r {
        Ok(v) => Ok(v),
        Err(e) => Err(e@),
    }
}

/// The numbers of one record.
fn read_numbers<F: Fn(u16, Desc) -> Result<DescFieldValue, OdbcError>>(
    stmt: &StatementHandle,
    role: DescriptorRole,
    record_number: i16,
    columns: &F,
) -> (r: Result<Option<RecordNumbers>, OdbcError>)
    requires
        can_describe(*columns),
    ensures
        forall|g: ColumnModel| #[trigger]
            speaks_for(role, *columns, g) ==> numbers_view(r) == record_numbers(
                stmt@,
                role,
                record_number,
                g,
            ),
        exists|g: ColumnModel|
            {
                &&& #[trigger] record_answered(*columns, stmt@, role, record_number, 6, g)
                &&& numbers_view(r) == record_numbers(stmt@, role, record_number, g)
            },
{
    let ghost mut xs: Seq<Result<Option<isize>, ErrorView>> = Seq::empty();
    let ghost mut vs: Seq<Result<ValueView, ErrorView>> = Seq::empty();
    let read = read_number(stmt, role, record_number, Desc::Type, columns);
    proof {
        let v = answer_of(*columns, stmt@, role, record_number, Desc::Type, number_view(read));
        xs = xs.push(number_view(read));
        vs = vs.push(v);
        if !(read matches Ok(Some(_))) {
            lemma_numbers_so_far(*columns, stmt@, role, record_number, xs, vs);
        }
    }
    let verbose_type: isize = match read {
        Ok(Some(v)) => v,
        Ok(None) => {
            return Ok(None);
        },
        Err(e) => {
            return Err(e);
        },
    };
    let read = read_number(stmt, role, record_number, Desc::DatetimeIntervalCode, columns);
    proof {
        let v = answer_of(*columns, stmt@, role, record_number, Desc::DatetimeIntervalCode, number_view(read));
        xs = xs.push(number_view(read));
        vs = vs.push(v);
        if !(read matches Ok(_)) {
            lemma_numbers_so_far(*columns, stmt@, role, record_number, xs, vs);
        }
    }
    let sub_type: isize = match read {
        Ok(Some(v)) => v,
        Ok(None) => 0,
        Err(e) => {
            return Err(e);
        },
    };
    let read = read_number(stmt, role, record_number, Desc::OctetLength, columns);
    proof {
        let v = answer_of(*columns, stmt@, role, record_number, Desc::OctetLength, number_view(read));
        xs = xs.push(number_view(read));
        vs = vs.push(v);
        if !(read matches Ok(_)) {
            lemma_numbers_so_far(*columns, stmt@, role, record_number, xs, vs);
        }
    }
    let octet_length: isize = match read {
        Ok(Some(v)) => v,
        Ok(None) => 0,
        Err(e) => {
            return Err(e);
        },
    };
    let read = read_number(stmt, role, record_number, Desc::Precision, columns);
    proof {
        let v = answer_of(*columns, stmt@, role, record_number, Desc::Precision, number_view(read));
        xs = xs.push(number_view(read));
        vs = vs.push(v);
        if !(read matches Ok(_)) {
            lemma_numbers_so_far(*columns, stmt@, role, record_number, xs, vs);
        }
    }
    let precision: isize = match read {
        Ok(Some(v)) => v,
        Ok(None) => 0,
        Err(e) => {
            return Err(e);
        },
    };
    let read = read_number(stmt, role, record_number, Desc::Scale, columns);
    proof {
        let v = answer_of(*columns, stmt@, role, record_number, Desc::Scale, number_view(read));
        xs = xs.push(number_view(read));
        vs = vs.push(v);
        if !(read matches Ok(_)) {
            lemma_numbers_so_far(*columns, stmt@, role, record_number, xs, vs);
        }
    }
    let scale: isize = match read {
        Ok(Some(v)) => v,
        Ok(None) => 0,
        Err(e) => {
            return Err(e);
        },
    };
    let read = read_number(stmt, role, record_number, Desc::Nullable, columns);
    proof {
        let v = answer_of(*columns, stmt@, role, record_number, Desc::Nullable, number_view(read));
        xs = xs.push(number_view(read));
        vs = vs.push(v);
        if !(read matches Ok(_)) {
            lemma_numbers_so_far(*columns, stmt@, role, record_number, xs, vs);
        }
    }
    let nullable: isize = match read {
        Ok(Some(v)) => v,
        Ok(None) => SQL_NULLABLE_UNKNOWN as isize,
        Err(e) => {
            return Err(e);
        },
    };
    proof {
        lemma_numbers_so_far(*columns, stmt@, role, record_number, xs, vs);
    }
    Ok(
        Some(
            RecordNumbers { verbose_type, sub_type, octet_length, precision, scale, nullable },
        ),
    )
}

/// The outcome of reading the name, by its view.
spec fn name_view(r: Result<Option<String>, OdbcError>) -> Result<Option<Seq<char>>, ErrorView> {
    match r {
        Ok(Some(name)) => Ok(Some(name@)),
        Ok(None) => Ok(None),
        Err(e) => Err(e@),
    }
}

/// What was read is what the numbers and, where there are any, the name come to
/// with the columns `g`.
spec fn is_record(
    s: StatementView,
    role: DescriptorRole,
    n: i16,
    g: ColumnModel,
    numbers: Result<Option<RecordNumbers>, ErrorView>,
    name: Result<Option<Seq<char>>, ErrorView>,
) -> bool {
    &&& numbers == record_numbers(s, role, n, g)
    &&& numbers matches Ok(Some(_)) ==> name == record_name(s, role, n, g)
}

/// The numbers of one record, and its name where it has numbers.
fn read_record<F: Fn(u16, Desc) -> Result<DescFieldValue, OdbcError>>(
    stmt: &StatementHandle,
    role: DescriptorRole,
    record_number: i16,
    columns: &F,
) -> (r: (Result<Option<RecordNumbers>, OdbcError>, Result<Option<String>, OdbcError>))
    requires
        can_describe(*columns),
    ensures
        forall|g: ColumnModel| #[trigger]
            speaks_for(role, *columns, g) ==> is_record(
                stmt@,
                role,
                record_number,
                g,
                numbers_view(r.0),
                name_view(r.1),
            ),
        exists|g: ColumnModel|
            {
                &&& #[trigger] record_answered(*columns, stmt@, role, record_number, 7, g)
                &&& is_record(
                    stmt@,
                    role,
                    record_number,
                    g,
                    numbers_view(r.0),
                    name_view(r.1),
                )
            },
{
    let numbers = read_numbers(stmt, role, record_number, columns);
    let ghost view = numbers_view(numbers);
    let ghost g = choose|g: ColumnModel|
        {
            &&& #[trigger] record_answered(*columns, stmt@, role, record_number, 6, g)
            &&& view == record_numbers(stmt@, role, record_number, g)
        };
    let found = match &numbers {
        Ok(Some(_)) => true,
        _ => false,
    };
    if !found || field_access(role, Desc::Name) == FieldAccess::Undefined {
        proof {
            if asks_column(stmt@, role, record_number, Desc::Name) {
                lemma_name_is_not_reached(stmt@, role, record_number, g);
            }
            lemma_answered_to_the_end(*columns, stmt@, role, record_number, g);
        }
        return (numbers, Ok(None));
    }
    let read = read_desc_field(stmt, role, record_number, Desc::Name, columns);
    proof {
        let v = choose|v: Result<ValueView, ErrorView>|
            {
                &&& #[trigger] answered(*columns, stmt@, role, record_number, Desc::Name, v)
                &&& read_view(read) == read_value(
                    stmt@,
                    role,
                    record_number,
                    Desc::Name,
                    always(v),
                )
            };
        lemma_answered_with_name(*columns, stmt@, role, record_number, g, v);
    }
    let name = match read {
        Ok(Some(DescFieldValue::Text(name))) => Ok(Some(name)),
        Ok(_) => Ok(None),
        Err(e) => Err(e),
    };
    (numbers, name)
}

/// `SQLGetDescRecW`: the fixed fields of one record of the descriptor that
/// `role` names. Each output is optional by itself; `wanted` says whether there
/// is a buffer, of `buffer_length` bytes, for the name.
pub fn sql_get_desc_rec_w<F: Fn(u16, Desc) -> Result<DescFieldValue, OdbcError>>(
    stmt: Option<&mut StatementHandle>,
    role: DescriptorRole,
    record_number: i16,
    wanted: bool,
    buffer_length: i16,
    type_ptr: Option<&mut i16>,
    sub_type_ptr: Option<&mut i16>,
    length_ptr: Option<&mut isize>,
    precision_ptr: Option<&mut i16>,
    scale_ptr: Option<&mut i16>,
    nullable_ptr: Option<&mut i16>,
    columns: &F,
) -> (r: NameAnswer)
    requires
        can_describe(*columns),
    ensures
        match stmt {
            None => {
                &&& r@ == NameView::bare(SqlReturn::INVALID_HANDLE, false)
                &&& type_ptr matches Some(p) ==> *final(p) == *p
                &&& sub_type_ptr matches Some(p) ==> *final(p) == *p
                &&& length_ptr matches Some(p) ==> *final(p) == *p
                &&& precision_ptr matches Some(p) ==> *final(p) == *p
                &&& scale_ptr matches Some(p) ==> *final(p) == *p
                &&& nullable_ptr matches Some(p) ==> *final(p) == *p
            },
            Some(s) => {
                &&& exists|g: ColumnModel|
                    {
                        let numbers = record_numbers(s@, role, record_number, g);
                        &&& #[trigger] record_answered(*columns, s@, role, record_number, 7, g)
                        &&& (final(s)@, r@) == get_rec_step(
                            s@,
                            role,
                            record_number,
                            wanted,
                            buffer_length as int,
                            g,
                        )
                        &&& type_ptr matches Some(p) ==> *final(p) == type_received(*p, numbers)
                        &&& sub_type_ptr matches Some(p) ==> *final(p) == sub_type_received(*p, numbers)
                        &&& length_ptr matches Some(p) ==> *final(p) == length_received(*p, numbers)
                        &&& precision_ptr matches Some(p) ==> *final(p) == precision_received(*p, numbers)
                        &&& scale_ptr matches Some(p) ==> *final(p) == scale_received(*p, numbers)
                        &&& nullable_ptr matches Some(p) ==> *final(p) == nullable_received(*p, numbers)
                        &&& forall|h: ColumnModel| #[trigger]
                            speaks_for(role, *columns, h) ==> numbers == record_numbers(
                                s@,
                                role,
                                record_number,
                                h,
                            )
                    }
                &&& forall|g: ColumnModel| #[trigger]
                    speaks_for(role, *columns, g) ==> (final(s)@, r@) == get_rec_step(
                        s@,
                        role,
                        record_number,
                        wanted,
                        buffer_length as int,
                        g,
                    )
            },
        },
{
    let stmt = match stmt {
        None => {
            return NameAnswer {
                code: SqlReturn::INVALID_HANDLE,
                numbers: false,
                units: None,
                length: None,
            };
        },
        Some(s) => s,
    };
    let (numbers, name) = read_record(stmt, role, record_number, columns);
    stmt.descriptor_mut(role).diagnostics.clear();
    match numbers {
        Err(e) => {
            let code = settle(&mut stmt.descriptor_mut(role).diagnostics, Err(e));
            return NameAnswer { code, numbers: false, units: None, length: None };
        },
        Ok(None) => {
            return NameAnswer {
                code: SqlReturn::NO_DATA,
                numbers: false,
                units: None,
                length: None,
            };
        },
        Ok(Some(v)) => {
            write_small_int(type_ptr, v.verbose_type);
            write_small_int(sub_type_ptr, v.sub_type);
            write_small_int(precision_ptr, v.precision);
            write_small_int(scale_ptr, v.scale);
            write_small_int(nullable_ptr, v.nullable);
            if let Some(p) = length_ptr {
                *p = v.octet_length;
            }
        },
    }
    match name {
        Err(e) => {
            let code = settle(&mut stmt.descriptor_mut(role).diagnostics, Err(e));
            NameAnswer { code, numbers: true, units: None, length: None }
        },
        Ok(Some(name)) => {
            let write = write_utf16(name.as_str(), wanted, room_in(buffer_length as i32));
            let code = note_truncation(write.code, &mut stmt.descriptor_mut(role).diagnostics);
            let length: i16 = if write.length > 16383 {
                32767
            } else {
                write.length * 2
            };
            NameAnswer { code, numbers: true, units: write.units, length: Some(length) }
        },
        Ok(None) => NameAnswer {
            code: SqlReturn::SUCCESS,
            numbers: true,
            units: None,
            length: None,
        },
    }
}

// ---------------------------------------------------------------------------
// SQLSetDescRec
// ---------------------------------------------------------------------------

/// The failure for a write to the implementation row descriptor.
pub open spec fn ird_record() -> ErrorView {
    ErrorView::general(
        "An implementation row descriptor cannot be modified"@,
        CANNOT_MODIFY_IRD@,
    )
}

/// A record after the numbers of `list` from `i` on were written to it, one
/// after the other; a field that cannot be written on the descriptor is
/// skipped, and the first value that is not one of its field ends it.
pub open spec fn written_from(
    r: FieldsView,
    role: DescriptorRole,
    list: Seq<(Desc, isize)>,
    i: int,
) -> (FieldsView, Result<(), ErrorView>)
    decreases list.len() - i,
{
    if i < 0 || i >= list.len() {
        (r, Ok(()))
    } else if spec_field_access(role, list[i].0) != FieldAccess::ReadWrite {
        written_from(r, role, list, i + 1)
    } else {
        match with_number(r, role, list[i].0, list[i].1) {
            Err(e) => (r, Err(e)),
            Ok(next) => written_from(next, role, list, i + 1),
        }
    }
}

/// A record after all of `list` was written to it and the record checked.
pub open spec fn written_record(r: FieldsView, role: DescriptorRole, list: Seq<(Desc, isize)>) -> (
    FieldsView,
    Result<SqlReturn, ErrorView>,
) {
    let (record, outcome) = written_from(r, role, list, 0);
    (
        record,
        match outcome {
            Err(e) => Err(e),
            Ok(_) => match inconsistency(record) {
                Some(e) => Err(e),
                None => Ok(SqlReturn::SUCCESS),
            },
        },
    )
}

/// What `SQLSetDescRec` does to the statement and returns.
pub open spec fn set_rec_step(
    s: StatementView,
    role: DescriptorRole,
    n: i16,
    list: Seq<(Desc, isize)>,
) -> (StatementView, SqlReturn) {
    let cleared = s.with_descriptor_queue(role, Seq::empty());
    if is_refused_record(role, n as int) {
        concluded(cleared, role, Err(negative_record(n as int)))
    } else if role == DescriptorRole::Ird {
        concluded(cleared, role, Err(ird_record()))
    } else {
        let d = cleared.descriptor(role);
        let key = record_key(n);
        let (record, outcome) = written_record(record_at(d.records, key), role, list);
        concluded(
            cleared.with_descriptor(
                role,
                DescriptorView { records: d.records.insert(key, record), ..d },
            ),
            role,
            outcome,
        )
    }
}

/// The fields that `SQLSetDescRec` writes, in their order.
pub open spec fn record_values(
    value_type: i16,
    sub_type: i16,
    length: isize,
    precision: i16,
    scale: i16,
    data_ptr: usize,
    string_length_ptr: usize,
    indicator_ptr: usize,
) -> Seq<(Desc, isize)> {
    seq![
        (Desc::Type, value_type as isize),
        (Desc::DatetimeIntervalCode, sub_type as isize),
        (Desc::OctetLength, length),
        (Desc::Precision, precision as isize),
        (Desc::Scale, scale as isize),
        (Desc::DataPtr, data_ptr as isize),
        (Desc::OctetLengthPtr, string_length_ptr as isize),
        (Desc::IndicatorPtr, indicator_ptr as isize),
    ]
}

/// `SQLSetDescRec`: writes the fixed fields of one record of the descriptor
/// that `role` names, and then checks the record. The pointers are kept as
/// numbers and never followed.
pub fn sql_set_desc_rec(
    stmt: Option<&mut StatementHandle>,
    role: DescriptorRole,
    record_number: i16,
    value_type: i16,
    sub_type: i16,
    length: isize,
    precision: i16,
    scale: i16,
    data_ptr: usize,
    string_length_ptr: usize,
    indicator_ptr: usize,
) -> (r: SqlReturn)
    ensures
        match stmt {
            None => r == SqlReturn::INVALID_HANDLE,
            Some(s) => (final(s)@, r) == set_rec_step(
                s@,
                role,
                record_number,
                record_values(
                    value_type,
                    sub_type,
                    length,
                    precision,
                    scale,
                    data_ptr,
                    string_length_ptr,
                    indicator_ptr,
                ),
            ),
        },
{
    let stmt = match stmt {
        None => {
            return SqlReturn::INVALID_HANDLE;
        },
        Some(s) => s,
    };
    let ghost before = stmt@;
    let d = stmt.descriptor_mut(role);
    d.diagnostics.clear();
    if record_number < 0 && (role == DescriptorRole::Ard || role == DescriptorRole::Apd) {
        return settle(&mut d.diagnostics, Err(negative_record_error(record_number)));
    }
    if role == DescriptorRole::Ird {
        return settle(
            &mut d.diagnostics,
            Err(
                OdbcError::general(
                    "An implementation row descriptor cannot be modified",
                    SqlState::cannot_modify_ird(),
                ),
            ),
        );
    }
    let fields: [(Desc, isize); 8] = [
        (Desc::Type, value_type as isize),
        (Desc::DatetimeIntervalCode, sub_type as isize),
        (Desc::OctetLength, length),
        (Desc::Precision, precision as isize),
        (Desc::Scale, scale as isize),
        (Desc::DataPtr, data_ptr as isize),
        (Desc::OctetLengthPtr, string_length_ptr as isize),
        (Desc::IndicatorPtr, indicator_ptr as isize),
    ];
    let key = key_of(record_number);
    let ghost records = d@.records;
    let mut record = d.take(key);
    let outcome = write_numbers(&mut record, role, &fields);
    assert(records.remove(key).insert(key, record@) == records.insert(key, record@));
    d.put(key, record);
    settle(&mut d.diagnostics, outcome)
}

/// Writes numbers to a record, one after the other, and checks the record.
fn write_numbers(record: &mut DescriptorRecord, role: DescriptorRole, list: &[(Desc, isize)]) -> (r:
    Result<SqlReturn, OdbcError>)
    ensures
        (final(record)@, outcome_view(r)) == written_record(old(record)@, role, list@),
{
    let mut i: usize = 0;
    while i < list.len()
        invariant
            i <= list@.len(),
            written_from(old(record)@, role, list@, 0) == written_from(
                record@,
                role,
                list@,
                i as int,
            ),
        decreases list@.len() - i,
    {
        let (field, value) = list[i];
        if field_access(role, field) == FieldAccess::ReadWrite {
            match set_record_field(record, role, field, DescFieldValue::Numeric(value)) {
                Err(e) => {
                    return Err(e);
                },
                Ok(_) => {},
            }
        }
        i = i + 1;
    }
    match consistency_check(record) {
        Err(e) => Err(e),
        Ok(_) => Ok(SqlReturn::SUCCESS),
    }
}

// ---------------------------------------------------------------------------
// Laws
// ---------------------------------------------------------------------------

/// A number written to a record field reads back, on every descriptor that
/// keeps it: an implementation parameter descriptor keeps no data pointer.
pub proof fn law_numbers_read_back(
    s: StatementView,
    role: DescriptorRole,
    n: i16,
    field: Desc,
    value: usize,
    text: Option<Seq<u16>>,
    length: int,
    columns: ColumnModel,
)
    requires
        field != Desc::Name,
        field != Desc::Count,
        spec_header_attribute(role, field) is None,
        !(role == DescriptorRole::Ipd && field == Desc::DataPtr),
        set_field_step(s, role, n, field.spec_number(), value, text, length).1
            == SqlReturn::SUCCESS,
    ensures
        read_value(
            set_field_step(s, role, n, field.spec_number(), value, text, length).0,
            role,
            n,
            field,
            columns,
        ) == Ok::<Option<ValueView>, ErrorView>(Some(ValueView::Numeric(value as isize))),
{
    law_fields_and_numbers(field, field.spec_number());
    law_pointers_survive(value);
    let cleared = s.with_descriptor_queue(role, Seq::empty());
    let (after, outcome) = write_field(cleared, role, n, field, value, text, length);
    assert(outcome is Ok);
    assert(after.descriptor(role).records.dom().contains(record_key(n)));
    let last = set_field_step(s, role, n, field.spec_number(), value, text, length).0;
    assert(last.descriptor(role).records == after.descriptor(role).records);
    assert(header_value(last, role, field) is None);
}

/// A name written to a record reads back.
pub proof fn law_names_read_back(
    s: StatementView,
    role: DescriptorRole,
    n: i16,
    value: usize,
    text: Option<Seq<u16>>,
    length: int,
    columns: ColumnModel,
)
    requires
        set_field_step(s, role, n, Desc::Name.spec_number(), value, text, length).1
            == SqlReturn::SUCCESS,
    ensures
        given_text(text, half(length)) matches Ok(name) && read_value(
            set_field_step(s, role, n, Desc::Name.spec_number(), value, text, length).0,
            role,
            n,
            Desc::Name,
            columns,
        ) == Ok::<Option<ValueView>, ErrorView>(Some(ValueView::Text(name))),
{
    let cleared = s.with_descriptor_queue(role, Seq::empty());
    let (after, outcome) = write_field(cleared, role, n, Desc::Name, value, text, length);
    assert(outcome is Ok);
    let last = set_field_step(s, role, n, Desc::Name.spec_number(), value, text, length).0;
    assert(last.descriptor(role).records == after.descriptor(role).records);
    assert(header_value(last, role, Desc::Name) is None);
}

/// A header field reads back what was written through it, through the
/// descriptor and as the statement attribute that it is another name for; an
/// array size reads back as 1, whatever was written. An implementation row
/// descriptor that is not populated keeps it as the attribute alone.
pub proof fn law_header_fields_are_statement_attributes(
    s: StatementView,
    role: DescriptorRole,
    n: i16,
    field: Desc,
    value: usize,
    text: Option<Seq<u16>>,
    length: int,
    columns: ColumnModel,
)
    requires
        spec_header_attribute(role, field) is Some,
        !is_refused_record(role, n as int),
    ensures
        ({
            let (after, code) = set_field_step(
                s,
                role,
                n,
                field.spec_number(),
                value,
                text,
                length,
            );
            let stored = if field == Desc::ArraySize {
                SQL_DESC_ARRAY_SIZE_SUPPORTED
            } else {
                value
            };
            &&& code == (if stored == value {
                SqlReturn::SUCCESS
            } else {
                SqlReturn::SUCCESS_WITH_INFO
            })
            &&& after.attrs == s.attrs.insert(spec_header_attribute(role, field)->0, stored)
            &&& read_value(after, role, n, field, columns) == (if role == DescriptorRole::Ird
                && column_count(s) <= 0 {
                Err(unpopulated())
            } else {
                Ok(Some(ValueView::Numeric(stored as isize)))
            })
        }),
{
    law_fields_and_numbers(field, field.spec_number());
}

/// Setting the count discards the records above it and no other: those up to it
/// read as before, and those above it are gone.
pub proof fn law_count_discards_the_higher_records(
    s: StatementView,
    role: DescriptorRole,
    n: i16,
    value: usize,
    text: Option<Seq<u16>>,
    length: int,
    key: i16,
    field: Desc,
    columns: ColumnModel,
)
    requires
        role != DescriptorRole::Ird,
        !is_refused_record(role, n as int),
        spec_field_access(role, field) != FieldAccess::Undefined,
        header_value(s, role, field) is None,
        0 <= key,
    ensures
        ({
            let (after, code) = set_field_step(
                s,
                role,
                n,
                Desc::Count.spec_number(),
                value,
                text,
                length,
            );
            &&& code == SqlReturn::SUCCESS
            &&& read_value(after, role, key, field, columns) == (if key <= value {
                read_value(s, role, key, field, columns)
            } else {
                Ok(None)
            })
        }),
{
    let after = set_field_step(s, role, n, Desc::Count.spec_number(), value, text, length).0;
    let was = s.descriptor(role).records;
    assert(after.descriptor(role).records == up_to(was, clamped(value)));
    assert(up_to(was, clamped(value)).dom().contains(key as u16) <==> was.dom().contains(
        key as u16,
    ) && key <= value);
    assert(header_value(after, role, field) is None);
}

/// The implementation row descriptor is never changed by a write to a field of
/// a record: the call fails and leaves a record of that, and nothing else.
pub proof fn law_the_ird_is_read_only(
    s: StatementView,
    n: i16,
    field: Desc,
    value: usize,
    text: Option<Seq<u16>>,
    length: int,
    list: Seq<(Desc, isize)>,
)
    requires
        field != Desc::ArrayStatusPtr,
        field != Desc::RowsProcessedPtr,
    ensures
        set_field_step(s, DescriptorRole::Ird, n, field.spec_number(), value, text, length) == (
            s.with_descriptor_queue(DescriptorRole::Ird, seq![record_of(ird_field(field))]),
            SqlReturn::ERROR,
        ),
        set_rec_step(s, DescriptorRole::Ird, n, list) == (
            s.with_descriptor_queue(DescriptorRole::Ird, seq![record_of(ird_record())]),
            SqlReturn::ERROR,
        ),
{
    law_fields_and_numbers(field, field.spec_number());
    let none = Seq::<RecordView>::empty();
    assert(none.push(record_of(ird_field(field))) == seq![record_of(ird_field(field))]);
    assert(none.push(record_of(ird_record())) == seq![record_of(ird_record())]);
}

/// Diagnostics land on the descriptor that was called: those of the statement
/// and of its other descriptors stay as they were.
pub proof fn law_diagnostics_land_on_the_called_descriptor(
    s: StatementView,
    role: DescriptorRole,
    other: DescriptorRole,
    n: i16,
    raw: int,
    value: usize,
    text: Option<Seq<u16>>,
    length: int,
    wanted: bool,
    columns: ColumnModel,
    list: Seq<(Desc, isize)>,
)
    requires
        other != role,
    ensures
        ({
            let untouched = |t: StatementView|
                t.queue == s.queue && t.descriptor(other) == s.descriptor(other);
            &&& untouched(get_field_step(s, role, n, raw, wanted, length, columns).0)
            &&& untouched(set_field_step(s, role, n, raw, value, text, length).0)
            &&& untouched(get_rec_step(s, role, n, wanted, length, columns).0)
            &&& untouched(set_rec_step(s, role, n, list).0)
        }),
{
}

/// Until the implementation row descriptor is populated, every field that is
/// defined on it is the same error, whatever the record number.
pub proof fn law_an_unpopulated_ird_has_no_fields(
    s: StatementView,
    n: i16,
    field: Desc,
    columns: ColumnModel,
)
    requires
        column_count(s) <= 0,
        spec_field_access(DescriptorRole::Ird, field) != FieldAccess::Undefined,
    ensures
        read_value(s, DescriptorRole::Ird, n, field, columns) == Err::<
            Option<ValueView>,
            ErrorView,
        >(unpopulated()),
{
}

/// Where `SQLGetDescField` reads each of the seven fields of a record,
/// `SQLGetDescRec` reports just these values.
pub proof fn law_record_reads_are_field_reads(
    s: StatementView,
    role: DescriptorRole,
    n: i16,
    columns: ColumnModel,
    v: RecordNumbers,
    name: Seq<char>,
    wanted: bool,
    length: int,
)
    requires
        ({
            let reads = |field: Desc, value: ValueView|
                read_value(s, role, n, field, columns) == Ok::<Option<ValueView>, ErrorView>(
                    Some(value),
                );
            &&& reads(Desc::Type, ValueView::Numeric(v.verbose_type))
            &&& reads(Desc::DatetimeIntervalCode, ValueView::Numeric(v.sub_type))
            &&& reads(Desc::OctetLength, ValueView::Numeric(v.octet_length))
            &&& reads(Desc::Precision, ValueView::Numeric(v.precision))
            &&& reads(Desc::Scale, ValueView::Numeric(v.scale))
            &&& reads(Desc::Nullable, ValueView::Numeric(v.nullable))
            &&& reads(Desc::Name, ValueView::Text(name))
        }),
    ensures
        record_numbers(s, role, n, columns) == Ok::<Option<RecordNumbers>, ErrorView>(Some(v)),
        get_rec_step(s, role, n, wanted, length, columns) == (
            s.with_descriptor_queue(
                role,
                truncation_noted(Seq::empty(), name_answer(name, wanted, length).code),
            ),
            name_answer(name, wanted, length),
        ),
{
}

/// `SQLGetDescRec` and `SQLGetDescField` report a record alike.
pub proof fn law_record_and_field_reads_agree(
    s: StatementView,
    role: DescriptorRole,
    n: i16,
    columns: ColumnModel,
)
    requires
        record_numbers(s, role, n, columns) matches Ok(Some(_)),
    ensures
        ({
            let v = (record_numbers(s, role, n, columns)->Ok_0)->0;
            let agrees = |field: Desc, number: isize|
                match read_value(s, role, n, field, columns) {
                    Ok(Some(ValueView::Numeric(m))) => m == number,
                    _ => true,
                };
            &&& read_value(s, role, n, Desc::Type, columns) == Ok::<Option<ValueView>, ErrorView>(
                Some(ValueView::Numeric(v.verbose_type)),
            )
            &&& agrees(Desc::DatetimeIntervalCode, v.sub_type)
            &&& agrees(Desc::OctetLength, v.octet_length)
            &&& agrees(Desc::Precision, v.precision)
            &&& agrees(Desc::Scale, v.scale)
            &&& agrees(Desc::Nullable, v.nullable)
        }),
{
}

/// What `SQLSetDescRec` wrote to a record of an application's descriptor, the
/// record holds; its other fields stay as they were.
pub proof fn law_set_rec_sets_the_record(
    s: StatementView,
    role: DescriptorRole,
    n: i16,
    value_type: i16,
    sub_type: i16,
    length: isize,
    precision: i16,
    scale: i16,
    data_ptr: usize,
    string_length_ptr: usize,
    indicator_ptr: usize,
)
    requires
        role == DescriptorRole::Ard || role == DescriptorRole::Apd,
        0 <= n,
    ensures
        ({
            let list = record_values(
                value_type,
                sub_type,
                length,
                precision,
                scale,
                data_ptr,
                string_length_ptr,
                indicator_ptr,
            );
            let (after, code) = set_rec_step(s, role, n, list);
            let was = record_at(s.descriptor(role).records, n as u16);
            let record = after.descriptor(role).records[n as u16];
            &&& after.descriptor(role).records.dom().contains(n as u16)
            &&& record == (FieldsView {
                octet_length: length,
                precision,
                scale,
                data_ptr,
                octet_length_ptr: string_length_ptr,
                indicator_ptr,
                ..was.with_verbose_type(value_type).with_subcode(sub_type)
            })
            &&& record.verbose_type == value_type
            &&& record.datetime_interval_code == sub_type
            &&& record.is_bound() == (data_ptr != 0)
            &&& code == (if inconsistency(record) is None {
                SqlReturn::SUCCESS
            } else {
                SqlReturn::ERROR
            })
        }),
{
    law_pointers_survive(data_ptr);
    law_pointers_survive(string_length_ptr);
    law_pointers_survive(indicator_ptr);
    reveal_with_fuel(written_from, 9);
}

proof fn lemma_records_are_few(records: Map<u16, FieldsView>)
    ensures
        records.dom().finite(),
        records.dom().len() <= 65536,
{
    vstd::set_lib::lemma_int_range(0, 65536);
    let ints = vstd::set_lib::set_int_range(0, 65536);
    let all = ints.map(|i: int| i as u16);
    vstd::set_lib::lemma_map_size_bound(ints, all, |i: int| i as u16);
    assert forall|k: u16| #[trigger] records.dom().contains(k) implies all.contains(k) by {
        assert(ints.contains(k as int));
        assert((k as int) as u16 == k);
    }
    vstd::set_lib::lemma_len_subset(records.dom(), all);
}

/// The records of one of the four descriptors.
pub open spec fn own_records(s: StatementView, role: DescriptorRole) -> Map<u16, FieldsView> {
    match role {
        DescriptorRole::Ard => s.ard.records,
        DescriptorRole::Apd => s.apd.records,
        DescriptorRole::Ird => s.ird.records,
        DescriptorRole::Ipd => s.ipd.records,
    }
}

/// The count of a descriptor is that of its own records: with none it is 0; a
/// first field written to a record number raises it by one and leaves the count of
/// the others as it was; a further field to the same record leaves it too.
pub proof fn law_the_count_is_that_of_the_own_records(
    s: StatementView,
    role: DescriptorRole,
    other: DescriptorRole,
    n: i16,
    field: Desc,
    value: usize,
    text: Option<Seq<u16>>,
    length: int,
    columns: ColumnModel,
)
    requires
        role != DescriptorRole::Ird,
        other != DescriptorRole::Ird,
        other != role,
        0 <= n,
        field != Desc::Count,
        field != Desc::ArraySize,
        field != Desc::ArrayStatusPtr,
        field != Desc::BindOffsetPtr,
        field != Desc::BindType,
        field != Desc::RowsProcessedPtr,
        set_field_step(s, role, n, field.spec_number(), value, text, length).1
            == SqlReturn::SUCCESS,
    ensures
        ({
            let after = set_field_step(s, role, n, field.spec_number(), value, text, length).0;
            let count = |t: StatementView, r: DescriptorRole|
                read_value(t, r, 0, Desc::Count, columns);
            let had = match role {
                DescriptorRole::Ard => s.ard.records.dom().contains(n as u16),
                DescriptorRole::Apd => s.apd.records.dom().contains(n as u16),
                _ => s.ipd.records.dom().contains(n as u16),
            };
            &&& count(s, role) matches Ok(Some(ValueView::Numeric(before))) && count(after, role)
                == Ok::<Option<ValueView>, ErrorView>(
                Some(
                    ValueView::Numeric(
                        if had {
                            before
                        } else {
                            (before + 1) as isize
                        },
                    ),
                ),
            )
            &&& count(after, other) == count(s, other)
        }),
{
    law_fields_and_numbers(field, field.spec_number());
    lemma_records_are_few(own_records(s, role));
    let after = set_field_step(s, role, n, field.spec_number(), value, text, length).0;
    let was = s.descriptor(role).records;
    let key = n as u16;
    assert(after.descriptor(role).records.dom() == was.dom().insert(key));
    assert(after.descriptor(other).records == s.descriptor(other).records);
    if was.dom().contains(key) {
        assert(was.dom().insert(key) =~= was.dom());
    }
}

/// A descriptor without records counts none, and counts those that it has.
pub proof fn law_a_descriptor_counts_what_it_holds(s: StatementView, n: i16, columns: ColumnModel)
    requires
        0 <= n,
    ensures
        ({
            let count = |r: DescriptorRole| read_value(s, r, n, Desc::Count, columns);
            let is = |k: nat| Ok::<Option<ValueView>, ErrorView>(
                Some(ValueView::Numeric(k as isize)),
            );
            &&& s.ard.records.len() <= 65536 && count(DescriptorRole::Ard) == is(
                s.ard.records.len(),
            )
            &&& s.apd.records.len() <= 65536 && count(DescriptorRole::Apd) == is(
                s.apd.records.len(),
            )
            &&& s.ipd.records.len() <= 65536 && count(DescriptorRole::Ipd) == is(
                s.ipd.records.len(),
            )
            &&& s.statement is Some && s.statement->0.column_count > 0 ==> count(
                DescriptorRole::Ird,
            ) == Ok::<Option<ValueView>, ErrorView>(
                Some(ValueView::Numeric(s.statement->0.column_count as isize)),
            )
        }),
{
    lemma_records_are_few(s.ard.records);
    lemma_records_are_few(s.apd.records);
    lemma_records_are_few(s.ipd.records);
}

/// A field that is written touches the record it was written to: every other
/// record, of this descriptor and of the others, reads as before.
pub proof fn law_a_write_touches_one_record(
    s: StatementView,
    role: DescriptorRole,
    n: i16,
    field: Desc,
    value: usize,
    text: Option<Seq<u16>>,
    length: int,
    other_role: DescriptorRole,
    m: i16,
    other: Desc,
    columns: ColumnModel,
)
    requires
        0 <= n,
        0 <= m,
        field != Desc::Count,
        other != Desc::Count,
        spec_header_attribute(role, field) is None,
        other_role != role || m != n,
    ensures
        read_value(
            set_field_step(s, role, n, field.spec_number(), value, text, length).0,
            other_role,
            m,
            other,
            columns,
        ) == read_value(s, other_role, m, other, columns),
{
    law_fields_and_numbers(field, field.spec_number());
    let after = set_field_step(s, role, n, field.spec_number(), value, text, length).0;
    assert(after.attrs == s.attrs);
    assert(after.statement == s.statement);
    assert(header_value(after, other_role, other) == header_value(s, other_role, other));
}

/// A header field that is written touches no other header field, of this
/// descriptor or of another, and no record.
pub proof fn law_a_header_write_touches_one_field(
    s: StatementView,
    role: DescriptorRole,
    n: i16,
    field: Desc,
    value: usize,
    text: Option<Seq<u16>>,
    length: int,
    other_role: DescriptorRole,
    m: i16,
    other: Desc,
    columns: ColumnModel,
)
    requires
        spec_header_attribute(role, field) is Some,
        other_role != role || other != field,
    ensures
        read_value(
            set_field_step(s, role, n, field.spec_number(), value, text, length).0,
            other_role,
            m,
            other,
            columns,
        ) == read_value(s, other_role, m, other, columns),
{
    law_fields_and_numbers(field, field.spec_number());
    let after = set_field_step(s, role, n, field.spec_number(), value, text, length).0;
    assert(after.descriptor(other_role).records == s.descriptor(other_role).records);
    if spec_header_attribute(other_role, other) == spec_header_attribute(role, field) {
        crate::types::descriptor_field::law_header_fields_have_attributes_of_their_own(
            role,
            field,
            other_role,
            other,
        );
    }
    assert(header_value(after, other_role, other) == header_value(s, other_role, other));
}

/// A header field that was never written reads as its default: an array size of 1,
/// and otherwise 0.
pub proof fn law_header_fields_start_at_their_defaults(
    s: StatementView,
    role: DescriptorRole,
    n: i16,
    field: Desc,
    columns: ColumnModel,
)
    requires
        role != DescriptorRole::Ird,
        0 <= n,
        spec_header_attribute(role, field) matches Some(attribute) && !s.attrs.dom().contains(
            attribute,
        ),
    ensures
        read_value(s, role, n, field, columns) == Ok::<Option<ValueView>, ErrorView>(
            Some(
                ValueView::Numeric(
                    if field == Desc::ArraySize {
                        1
                    } else {
                        0
                    },
                ),
            ),
        ),
{
}

/// A name that is passed with its length in bytes is the name read.
pub proof fn law_a_name_passed_is_the_name_read(
    s: StatementView,
    n: i16,
    name: Seq<char>,
    behind: Seq<u16>,
    value: usize,
    columns: ColumnModel,
)
    ensures
        ({
            let units = encode16(name);
            let (after, code) = set_field_step(
                s,
                DescriptorRole::Ipd,
                n,
                Desc::Name.spec_number(),
                value,
                Some(units + behind),
                2 * units.len() as int,
            );
            &&& code == SqlReturn::SUCCESS
            &&& read_value(after, DescriptorRole::Ipd, n, Desc::Name, columns) == Ok::<
                Option<ValueView>,
                ErrorView,
            >(Some(ValueView::Text(name)))
        }),
{
    crate::utf16::law_a_text_passed_is_the_text_received(name, behind);
    law_fields_and_numbers(Desc::Name, Desc::Name.spec_number());
    let units = encode16(name);
    assert(half(2 * units.len() as int) == units.len());
}

/// Which writes to a record of an application's descriptor succeed: every pointer
/// and byte count but for a data pointer on a record that contradicts itself, and
/// every number that the field can hold.
pub proof fn law_numbers_that_fit_are_written(
    s: StatementView,
    role: DescriptorRole,
    n: i16,
    field: Desc,
    value: usize,
    text: Option<Seq<u16>>,
    length: int,
)
    requires
        role == DescriptorRole::Ard || role == DescriptorRole::Apd,
        0 <= n,
        field == Desc::OctetLength || field == Desc::OctetLengthPtr || field == Desc::IndicatorPtr
            || ((field == Desc::Type || field == Desc::ConciseType || field == Desc::Precision
            || field == Desc::Scale || field == Desc::DatetimeIntervalCode) && value <= 32767) || ((
        field == Desc::NumPrecRadix || field == Desc::DatetimeIntervalPrecision) && value
            <= 0x7fff_ffff) || (field == Desc::Length && value <= isize::MAX) || (field
            == Desc::DataPtr && !own_records(s, role).dom().contains(n as u16)),
    ensures
        set_field_step(s, role, n, field.spec_number(), value, text, length).1
            == SqlReturn::SUCCESS,
        ({
            let after = set_field_step(s, role, n, field.spec_number(), value, text, length).0;
            own_records(after, role).dom().contains(n as u16)
        }),
{
    law_fields_and_numbers(field, field.spec_number());
}

/// A record that there is none of reads as no data, and a negative number of one
/// is refused, on a descriptor of the application.
pub proof fn law_records_that_there_are_none_of(
    s: StatementView,
    role: DescriptorRole,
    n: i16,
    field: Desc,
    columns: ColumnModel,
)
    requires
        role == DescriptorRole::Ard || role == DescriptorRole::Apd,
        spec_field_access(role, field) != FieldAccess::Undefined,
        spec_header_attribute(role, field) is None,
        field != Desc::Count,
        field != Desc::AllocType,
    ensures
        n >= 0 && !own_records(s, role).dom().contains(n as u16) ==> read_value(
            s,
            role,
            n,
            field,
            columns,
        ) == Ok::<Option<ValueView>, ErrorView>(None),
        n < 0 ==> (read_value(s, role, n, field, columns) matches Err(e) && e.sqlstate()
            == "07009"@),
        n >= 0 && own_records(s, role).dom().contains(n as u16) ==> read_value(
            s,
            role,
            n,
            field,
            columns,
        ) == Ok::<Option<ValueView>, ErrorView>(
            Some(field_value(own_records(s, role)[n as u16], field)),
        ),
{
}

/// A field of the implementation row descriptor is what the result set says of the
/// column of that number, and a number outside of the result set is refused.
pub proof fn law_the_ird_speaks_of_the_columns(
    s: StatementView,
    n: i16,
    field: Desc,
    columns: ColumnModel,
)
    requires
        s.statement matches Some(data) && data.column_count > 0,
        spec_field_access(DescriptorRole::Ird, field) != FieldAccess::Undefined,
        field != Desc::Count,
        field != Desc::AllocType,
        field != Desc::ArrayStatusPtr,
        field != Desc::RowsProcessedPtr,
    ensures
        1 <= n <= s.statement->0.column_count ==> read_value(
            s,
            DescriptorRole::Ird,
            n,
            field,
            columns,
        ) == (match columns(n as u16, field) {
            Ok(v) => Ok(Some(v)),
            Err(e) => Err(e),
        }),
        n < 1 || n > s.statement->0.column_count ==> (read_value(
            s,
            DescriptorRole::Ird,
            n,
            field,
            columns,
        ) matches Err(e) && e.sqlstate() == "07009"@),
{
}

/// A text field is handed out as far as the buffer holds it, with its terminator,
/// and the whole length in bytes is reported.
pub proof fn law_a_text_field_reports_its_whole_length(text: Seq<char>, length: int)
    requires
        2 <= length <= 65535,
        encode16(text).len() < 32767,
    ensures
        ({
            let all = encode16(text);
            let a = text_answer(text, true, length);
            &&& a.length == Some(2 * all.len() as int)
            &&& a.value matches Some(WriteView::Units(units)) && {
                &&& 2 * units.len() <= length
                &&& units.last() == 0
                &&& units.drop_last() == all.take(units.len() - 1)
                &&& (a.code == SqlReturn::SUCCESS) == (units.len() == all.len() + 1)
            }
            &&& (a.code == SqlReturn::SUCCESS) == (2 * (all.len() + 1) <= length)
            &&& a.code != SqlReturn::SUCCESS ==> a.code == SqlReturn::SUCCESS_WITH_INFO
            &&& name_answer(text, true, length).units == Some((a.value->0)->Units_0)
            &&& name_answer(text, true, length).code == a.code
            &&& all.len() < 16384 ==> name_answer(text, true, length).length == a.length
        }),
{
    let all = encode16(text);
    let k = kept(all.len() as int, room(length));
    assert(all.take(k).push(0).drop_last() == all.take(k));
    assert(all.take(all.len() as int) == all);
}

/// A number that fits a small integer is handed out as it is, and one that does not
/// as the largest.
pub proof fn law_numbers_are_not_wrapped(n: isize)
    ensures
        -32768 <= n <= 32767 ==> narrowed(n) == n,
        n < -32768 || n > 32767 ==> narrowed(n) == 32767,
{
}

/// What `SQLSetDescRec` set, `SQLGetDescRec` writes: each number to the place of its own
/// name, from the descriptor that it was set on.
pub proof fn law_a_record_that_was_set_is_the_record_read(
    s: StatementView,
    role: DescriptorRole,
    n: i16,
    value_type: i16,
    sub_type: i16,
    length: isize,
    precision: i16,
    scale: i16,
    data_ptr: usize,
    string_length_ptr: usize,
    indicator_ptr: usize,
    columns: ColumnModel,
    before: i16,
)
    requires
        role == DescriptorRole::Ard || role == DescriptorRole::Apd,
        0 <= n,
    ensures
        ({
            let list = record_values(
                value_type,
                sub_type,
                length,
                precision,
                scale,
                data_ptr,
                string_length_ptr,
                indicator_ptr,
            );
            let after = set_rec_step(s, role, n, list).0;
            let numbers = record_numbers(after, role, n, columns);
            &&& type_received(before, numbers) == value_type
            &&& sub_type_received(before, numbers) == sub_type
            &&& length_received(before as isize, numbers) == length
            &&& precision_received(before, numbers) == precision
            &&& scale_received(before, numbers) == scale
        }),
{
    law_set_rec_sets_the_record(
        s,
        role,
        n,
        value_type,
        sub_type,
        length,
        precision,
        scale,
        data_ptr,
        string_length_ptr,
        indicator_ptr,
    );
}

/// A record that there is none of, or that cannot be read, leaves every place as it was.
pub proof fn law_what_is_not_read_is_not_written(before: i16, long: isize, e: ErrorView)
    ensures
        forall|numbers: Result<Option<RecordNumbers>, ErrorView>|
            numbers == Ok::<Option<RecordNumbers>, ErrorView>(None) || numbers == Err::<
                Option<RecordNumbers>,
                ErrorView,
            >(e) ==> {
                &&& #[trigger] type_received(before, numbers) == before
                &&& sub_type_received(before, numbers) == before
                &&& length_received(long, numbers) == long
                &&& precision_received(before, numbers) == before
                &&& scale_received(before, numbers) == before
                &&& nullable_received(before, numbers) == before
            },
{
}

/// A number that a field holds is the number handed out, to the place given and with no
/// record; a field of a record that there is none of is no failure, and one that cannot be
/// read leaves one record on the descriptor asked. Nothing else of the statement changes.
pub proof fn law_what_a_field_holds_is_handed_out(
    s: StatementView,
    role: DescriptorRole,
    n: i16,
    raw: int,
    field: Desc,
    wanted: bool,
    length: int,
    columns: ColumnModel,
    v: isize,
    message: Seq<char>,
    state: Seq<char>,
)
    requires
        spec_desc_from_raw(raw) == Some(field),
    ensures
        ({
            let (after, a) = get_field_step(s, role, n, raw, wanted, length, columns);
            let held = read_value(s, role, n, field, columns);
            &&& held == Ok::<Option<ValueView>, ErrorView>(Some(ValueView::Numeric(v))) ==> {
                &&& a.code == SqlReturn::SUCCESS
                &&& wanted ==> a.value == Some(WriteView::Number(v))
                &&& !wanted ==> a.value is None
                &&& a.length is None
                &&& after.descriptor(role).queue.len() == 0
            }
            &&& held == Ok::<Option<ValueView>, ErrorView>(None) ==> {
                &&& a.code == SqlReturn::NO_DATA
                &&& a.value is None && a.length is None
                &&& after.descriptor(role).queue.len() == 0
            }
            &&& held == Err::<Option<ValueView>, ErrorView>(ErrorView::general(message, state))
                ==> {
                &&& a.code == SqlReturn::ERROR
                &&& a.value is None && a.length is None
                &&& after.descriptor(role).queue.len() == 1
                &&& after.descriptor(role).queue[0].sqlstate == state
            }
            &&& after.descriptor(role).records == s.descriptor(role).records
            &&& after.attrs == s.attrs && after.statement == s.statement && after.queue == s.queue
        }),
{
}

/// A number that names no field is refused, on every descriptor and for every record.
pub proof fn law_numbers_that_name_no_field(
    s: StatementView,
    role: DescriptorRole,
    n: i16,
    raw: int,
    wanted: bool,
    length: int,
    columns: ColumnModel,
)
    requires
        spec_desc_from_raw(raw) is None,
    ensures
        ({
            let (after, a) = get_field_step(s, role, n, raw, wanted, length, columns);
            &&& a.code == SqlReturn::ERROR
            &&& a.value is None && a.length is None
            &&& after.descriptor(role).queue.len() == 1
            &&& after.descriptor(role).queue[0].sqlstate == "HY091"@
        }),
{
}

/// Rows are fetched and parameters are taken one at a time: another size is accepted,
/// kept as one, and the change is reported.
pub proof fn law_arrays_have_one_row(
    s: StatementView,
    role: DescriptorRole,
    n: i16,
    value: usize,
    text: Option<Seq<u16>>,
    length: int,
    columns: ColumnModel,
)
    requires
        role == DescriptorRole::Ard || role == DescriptorRole::Apd,
        n >= 0,
    ensures
        ({
            let (after, r) = write_field(s, role, n, Desc::ArraySize, value, text, length);
            &&& read_value(after, role, n, Desc::ArraySize, columns) == Ok::<
                Option<ValueView>,
                ErrorView,
            >(Some(ValueView::Numeric(1)))
            &&& value == 1 ==> r == Ok::<SqlReturn, ErrorView>(SqlReturn::SUCCESS)
                && after.descriptor(role).queue == s.descriptor(role).queue
            &&& value != 1 ==> r == Ok::<SqlReturn, ErrorView>(SqlReturn::SUCCESS_WITH_INFO)
                && after.descriptor(role).queue.len() == s.descriptor(role).queue.len() + 1
                && after.descriptor(role).queue.last().sqlstate == "01S02"@
        }),
{
}

/// The name of a record is delivered whole where the buffer has room for it and its null
/// terminator, cut where it has not, and its whole length in bytes is reported either way.
pub proof fn law_the_name_of_a_record_reports_its_whole_length(
    name: Seq<char>,
    wanted: bool,
    length: int,
)
    requires
        2 <= length <= 32767,
        encode16(name).len() < 16383,
    ensures
        ({
            let all = encode16(name);
            let a = name_answer(name, wanted, length);
            &&& a.numbers
            &&& a.length == Some(2 * all.len() as int)
            &&& !wanted ==> a.units is None && a.code == SqlReturn::SUCCESS
            &&& wanted ==> (a.code == SqlReturn::SUCCESS) == (2 * (all.len() + 1) <= length)
            &&& wanted && a.code == SqlReturn::SUCCESS ==> a.units == Some(all.push(0))
            &&& wanted && a.code != SqlReturn::SUCCESS ==> a.code == SqlReturn::SUCCESS_WITH_INFO
            &&& wanted ==> (a.units matches Some(units) && 2 * units.len() <= length && units.last()
                == 0 && units.drop_last() == all.take(units.len() - 1))
        }),
{
    let all = encode16(name);
    assert(all.take(all.len() as int) =~= all);
    if wanted {
        let units = laid_out(all, room(length))->0;
        assert(units.drop_last() =~= all.take(units.len() - 1));
    }
}

} // verus!
