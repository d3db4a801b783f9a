//! Reading diagnostics: `SQLGetDiagRecW` and `SQLGetDiagFieldW`.

use vstd::prelude::*;

use crate::cursor::{row_count, statement_row_count};
use crate::diagnostics::{DiagnosticQueue, DiagnosticRecord, RecordView};
use crate::handles::{StatementHandle, StatementView};
use crate::text::{lower, lowercase, same_ignoring_case, to_lower};
use crate::types::SqlReturn;
use crate::utf16::{
    TextWrite, encode, encode16, kept, laid_out, room, room_in, small, vec_view, write_utf16,
};

verus! {

/// `SQL_DIAG_RETURNCODE`.
pub const SQL_DIAG_RETURNCODE: i16 = 1;

/// `SQL_DIAG_NUMBER`.
pub const SQL_DIAG_NUMBER: i16 = 2;

/// `SQL_DIAG_ROW_COUNT`.
pub const SQL_DIAG_ROW_COUNT: i16 = 3;

/// `SQL_DIAG_SQLSTATE`.
pub const SQL_DIAG_SQLSTATE: i16 = 4;

/// `SQL_DIAG_NATIVE`.
pub const SQL_DIAG_NATIVE: i16 = 5;

/// `SQL_DIAG_MESSAGE_TEXT`.
pub const SQL_DIAG_MESSAGE_TEXT: i16 = 6;

/// `SQL_DIAG_DYNAMIC_FUNCTION`.
pub const SQL_DIAG_DYNAMIC_FUNCTION: i16 = 7;

/// `SQL_DIAG_CLASS_ORIGIN`.
pub const SQL_DIAG_CLASS_ORIGIN: i16 = 8;

/// `SQL_DIAG_SUBCLASS_ORIGIN`.
pub const SQL_DIAG_SUBCLASS_ORIGIN: i16 = 9;

/// `SQL_DIAG_CONNECTION_NAME`.
pub const SQL_DIAG_CONNECTION_NAME: i16 = 10;

/// `SQL_DIAG_SERVER_NAME`.
pub const SQL_DIAG_SERVER_NAME: i16 = 11;

/// `SQL_DIAG_DYNAMIC_FUNCTION_CODE`.
pub const SQL_DIAG_DYNAMIC_FUNCTION_CODE: i16 = 12;

/// `SQL_DIAG_COLUMN_NUMBER`.
pub const SQL_DIAG_COLUMN_NUMBER: i16 = -1247;

/// `SQL_DIAG_ROW_NUMBER`.
pub const SQL_DIAG_ROW_NUMBER: i16 = -1248;

/// `SQL_DIAG_CURSOR_ROW_COUNT`.
pub const SQL_DIAG_CURSOR_ROW_COUNT: i16 = -1249;

/// `SQL_DIAG_UNKNOWN_STATEMENT`.
pub const SQL_DIAG_UNKNOWN_STATEMENT: i32 = 0;

/// `SQL_DIAG_CURSOR_ROW_COUNT` where no count of the cursor's rows is available.
pub const CURSOR_ROW_COUNT_UNAVAILABLE: isize = 0;

/// `SQL_NO_COLUMN_NUMBER`.
pub const SQL_NO_COLUMN_NUMBER: i32 = -1;

/// `SQL_NO_ROW_NUMBER`.
pub const SQL_NO_ROW_NUMBER: isize = -1;

/// `SQL_SUCCESS`, as `SQL_DIAG_RETURNCODE` reports it.
pub const SQL_SUCCESS_VALUE: i16 = 0;

/// The origin of a state that the ISO call-level interface defines.
pub const SQL_DIAG_ORIGIN_ISO: &'static str = "ISO 9075";

/// The origin of a state that ODBC defines.
pub const SQL_DIAG_ORIGIN_ODBC: &'static str = "ODBC 3.0";

/// The states whose subclass ODBC defines. This is a list and not a range:
/// `IM009` is not on it, and most of the `HY` states are not.
pub const ODBC_SPECIFIC_SUBCLASS_STATES: [&'static str; 42] = [
    "01S00",
    "01S01",
    "01S02",
    "01S06",
    "01S07",
    "07S01",
    "08S01",
    "21S01",
    "21S02",
    "25S01",
    "25S02",
    "25S03",
    "42S01",
    "42S02",
    "42S11",
    "42S12",
    "42S21",
    "42S22",
    "HY095",
    "HY097",
    "HY098",
    "HY099",
    "HY100",
    "HY101",
    "HY105",
    "HY107",
    "HY109",
    "HY110",
    "HY111",
    "HYT00",
    "HYT01",
    "IM001",
    "IM002",
    "IM003",
    "IM004",
    "IM005",
    "IM006",
    "IM007",
    "IM008",
    "IM010",
    "IM011",
    "IM012",
];

/// Whether the class of a state, its first two characters, is `IM`.
pub open spec fn is_odbc_class(sqlstate: Seq<char>) -> bool {
    sqlstate.len() >= 2 && lower(sqlstate[0]) == 'i' && lower(sqlstate[1]) == 'm'
}

/// Whether a state is on the list of those whose subclass ODBC defines.
pub open spec fn is_odbc_subclass(sqlstate: Seq<char>) -> bool {
    exists|i: int|
        0 <= i < 42 && lowercase(#[trigger] ODBC_SPECIFIC_SUBCLASS_STATES@[i]@) == lowercase(
            sqlstate,
        )
}

/// The name of an origin.
pub open spec fn origin(odbc: bool) -> Seq<char> {
    if odbc {
        SQL_DIAG_ORIGIN_ODBC@
    } else {
        SQL_DIAG_ORIGIN_ISO@
    }
}

/// Who defines the class of a state.
pub fn class_origin(sqlstate: &str) -> (r: &'static str)
    ensures
        r@ == origin(is_odbc_class(sqlstate@)),
{
    if sqlstate.unicode_len() >= 2 && to_lower(sqlstate.get_char(0)) == 'i' && to_lower(
        sqlstate.get_char(1),
    ) == 'm' {
        SQL_DIAG_ORIGIN_ODBC
    } else {
        SQL_DIAG_ORIGIN_ISO
    }
}

/// Who defines the subclass of a state.
pub fn subclass_origin(sqlstate: &str) -> (r: &'static str)
    ensures
        r@ == origin(is_odbc_subclass(sqlstate@)),
{
    for i in 0..42usize
        invariant
            forall|j: int|
                0 <= j < i ==> lowercase(#[trigger] ODBC_SPECIFIC_SUBCLASS_STATES@[j]@)
                    != lowercase(sqlstate@),
    {
        if same_ignoring_case(ODBC_SPECIFIC_SUBCLASS_STATES[i], sqlstate) {
            assert(lowercase(ODBC_SPECIFIC_SUBCLASS_STATES@[i as int]@) == lowercase(sqlstate@));
            return SQL_DIAG_ORIGIN_ODBC;
        }
    }
    SQL_DIAG_ORIGIN_ISO
}

// ---------------------------------------------------------------------------
// SQLGetDiagRecW
// ---------------------------------------------------------------------------

/// A state as `SQLGetDiagRecW` writes it: five code units, filled up with `0`
/// where it is shorter, and a null terminator.
pub open spec fn state_units(sqlstate: Seq<char>) -> Seq<u16> {
    let units = encode16(sqlstate);
    Seq::new(
        6,
        |i: int|
            if i == 5 {
                0
            } else if i < units.len() {
                units[i]
            } else {
                48
            },
    )
}

fn state_of(sqlstate: &str) -> (r: Vec<u16>)
    ensures
        r@ == state_units(sqlstate@),
{
    let units = encode(sqlstate);
    let mut r: Vec<u16> = Vec::new();
    for i in 0..5usize
        invariant
            units@ == encode16(sqlstate@),
            r@ == state_units(sqlstate@).take(i as int),
    {
        if i < units.len() {
            r.push(units[i]);
        } else {
            r.push(48);
        }
        assert(r@ == state_units(sqlstate@).take(i + 1));
    }
    r.push(0);
    assert(r@ == state_units(sqlstate@));
    r
}

/// What `SQLGetDiagRecW` hands back.
pub struct RecAnswer {
    pub code: SqlReturn,
    /// The six code units of the state, its null terminator at the end.
    pub sqlstate: Option<Vec<u16>>,
    pub native_error: Option<i32>,
    pub message: Option<TextWrite>,
}

impl RecAnswer {
    /// An answer without a record.
    pub open spec fn is_bare(self, code: SqlReturn) -> bool {
        self.code == code && self.sqlstate is None && self.native_error is None
            && self.message is None
    }

    /// The answer that carries `record`, with its message for a buffer of
    /// `buffer_length` units, or for none.
    pub open spec fn carries(self, record: RecordView, wanted: bool, buffer_length: int) -> bool {
        &&& vec_view(self.sqlstate) == Some(state_units(record.sqlstate))
        &&& self.native_error matches Some(n) && n == record.native_error
        &&& self.message matches Some(write) && write.delivers(
            record.message,
            wanted,
            buffer_length,
        ) && self.code == write.code
    }

    /// This is how the record of a number is read from a queue.
    pub open spec fn reads(
        self,
        queue: Option<Seq<RecordView>>,
        rec_number: i16,
        wanted: bool,
        buffer_length: int,
    ) -> bool {
        if rec_number <= 0 || buffer_length < 0 {
            self.is_bare(SqlReturn::ERROR)
        } else {
            match queue {
                None => self.is_bare(SqlReturn::INVALID_HANDLE),
                Some(q) => if rec_number > q.len() {
                    self.is_bare(SqlReturn::NO_DATA)
                } else {
                    self.carries(q[rec_number - 1], wanted, buffer_length)
                },
            }
        }
    }
}

/// `SQLGetDiagRecW`: the record of a 1-based number. The queue is absent where
/// the handle is not valid; `wanted` says whether there is a buffer, of
/// `buffer_length` units, for the message. Nothing is posted on the handle.
pub fn sql_get_diag_rec_w(
    queue: Option<&DiagnosticQueue>,
    rec_number: i16,
    wanted: bool,
    buffer_length: i16,
) -> (r: RecAnswer)
    ensures
        r.reads(
            match queue {
                Some(q) => Some(q@),
                None => None,
            },
            rec_number,
            wanted,
            buffer_length as int,
        ),
{
    if rec_number <= 0 || buffer_length < 0 {
        return RecAnswer {
            code: SqlReturn::ERROR,
            sqlstate: None,
            native_error: None,
            message: None,
        };
    }
    let found = match queue {
        None => {
            return RecAnswer {
                code: SqlReturn::INVALID_HANDLE,
                sqlstate: None,
                native_error: None,
                message: None,
            };
        },
        Some(q) => q.get((rec_number - 1) as usize),
    };
    match found {
        None => RecAnswer {
            code: SqlReturn::NO_DATA,
            sqlstate: None,
            native_error: None,
            message: None,
        },
        Some(record) => {
            let write = write_utf16(record.message.as_str(), wanted, buffer_length);
            RecAnswer {
                code: write.code,
                sqlstate: Some(state_of(record.sqlstate.as_str())),
                native_error: Some(record.native_error),
                message: Some(write),
            }
        },
    }
}

// ---------------------------------------------------------------------------
// SQLGetDiagFieldW
// ---------------------------------------------------------------------------

/// The header fields that only a statement has.
#[derive(Clone, Copy, PartialEq, Eq, Structural)]
pub enum StatementHeaderField {
    RowCount,
    CursorRowCount,
    DynamicFunction,
    DynamicFunctionCode,
}

/// The header field of a statement that an identifier names.
pub open spec fn statement_field(id: i16) -> Option<StatementHeaderField> {
    if id == SQL_DIAG_ROW_COUNT {
        Some(StatementHeaderField::RowCount)
    } else if id == SQL_DIAG_CURSOR_ROW_COUNT {
        Some(StatementHeaderField::CursorRowCount)
    } else if id == SQL_DIAG_DYNAMIC_FUNCTION {
        Some(StatementHeaderField::DynamicFunction)
    } else if id == SQL_DIAG_DYNAMIC_FUNCTION_CODE {
        Some(StatementHeaderField::DynamicFunctionCode)
    } else {
        None
    }
}

/// The header field of a statement that an identifier names.
pub fn statement_header_field(diag_identifier: i16) -> (r: Option<StatementHeaderField>)
    ensures
        r == statement_field(diag_identifier),
{
    if diag_identifier == SQL_DIAG_ROW_COUNT {
        Some(StatementHeaderField::RowCount)
    } else if diag_identifier == SQL_DIAG_CURSOR_ROW_COUNT {
        Some(StatementHeaderField::CursorRowCount)
    } else if diag_identifier == SQL_DIAG_DYNAMIC_FUNCTION {
        Some(StatementHeaderField::DynamicFunction)
    } else if diag_identifier == SQL_DIAG_DYNAMIC_FUNCTION_CODE {
        Some(StatementHeaderField::DynamicFunctionCode)
    } else {
        None
    }
}

/// What a handle is to the reader of its diagnostics.
pub enum DiagSource<'a> {
    /// Not a valid handle.
    Invalid,
    Statement(&'a StatementHandle),
    /// An environment, a connection or a descriptor, by its queue.
    Other(&'a DiagnosticQueue),
}

/// What the contracts say of a handle whose diagnostics are read.
#[verifier::ext_equal]
pub enum SourceView {
    Invalid,
    Statement(StatementView),
    Other(Seq<RecordView>),
}

impl<'a> View for DiagSource<'a> {
    type V = SourceView;

    open spec fn view(&self) -> SourceView {
        match self {
            DiagSource::Invalid => SourceView::Invalid,
            DiagSource::Statement(s) => SourceView::Statement(s@),
            DiagSource::Other(q) => SourceView::Other(q@),
        }
    }
}

impl SourceView {
    /// The records of the handle, where it is valid.
    pub open spec fn queue(self) -> Option<Seq<RecordView>> {
        match self {
            SourceView::Invalid => None,
            SourceView::Statement(s) => Some(s.queue),
            SourceView::Other(q) => Some(q),
        }
    }
}

impl<'a> DiagSource<'a> {
    /// The queue of the handle, where it is valid.
    pub fn queue(&self) -> (r: Option<&'a DiagnosticQueue>)
        ensures
            match r {
                None => self@.queue() is None,
                Some(q) => self@.queue() == Some(q@),
            },
    {
        match self {
            DiagSource::Invalid => None,
            DiagSource::Statement(s) => Some(&s.diagnostics),
            DiagSource::Other(q) => Some(q),
        }
    }
}

/// The value of a diagnostic field on its way to the application. Its variant is
/// the type that the field has.
pub enum DiagWrite {
    Small(i16),
    Integer(i32),
    Length(isize),
    Units(Vec<u16>),
}

/// What the contracts say of such a value.
#[verifier::ext_equal]
pub enum DiagWriteView {
    Small(i16),
    Integer(i32),
    Length(isize),
    Units(Seq<u16>),
}

impl View for DiagWrite {
    type V = DiagWriteView;

    open spec fn view(&self) -> DiagWriteView {
        match self {
            DiagWrite::Small(n) => DiagWriteView::Small(*n),
            DiagWrite::Integer(n) => DiagWriteView::Integer(*n),
            DiagWrite::Length(n) => DiagWriteView::Length(*n),
            DiagWrite::Units(u) => DiagWriteView::Units(u@),
        }
    }
}

/// What `SQLGetDiagFieldW` hands back.
pub struct DiagAnswer {
    pub code: SqlReturn,
    /// What goes to the value buffer, where anything does.
    pub value: Option<DiagWrite>,
    /// The size of the value in bytes, where it is reported.
    pub length: Option<i16>,
}

/// What the contracts say of an answer.
#[verifier::ext_equal]
pub struct DiagView {
    pub code: SqlReturn,
    pub value: Option<DiagWriteView>,
    pub length: Option<int>,
}

impl View for DiagAnswer {
    type V = DiagView;

    open spec fn view(&self) -> DiagView {
        DiagView {
            code: self.code,
            value: match self.value {
                Some(w) => Some(w@),
                None => None,
            },
            length: match self.length {
                Some(n) => Some(n as int),
                None => None,
            },
        }
    }
}

impl DiagView {
    /// An answer that writes nothing.
    pub open spec fn bare(code: SqlReturn) -> DiagView {
        DiagView { code, value: None, length: None }
    }

    /// The answer for a field of a fixed size.
    pub open spec fn fixed(value: DiagWriteView, length: Option<int>, wanted: bool) -> DiagView {
        DiagView {
            code: SqlReturn::SUCCESS,
            value: if wanted {
                Some(value)
            } else {
                None
            },
            length,
        }
    }

    /// The answer for a text, with its length in bytes; a negative buffer length
    /// is an error for these fields and for no others.
    pub open spec fn text(text: Seq<char>, wanted: bool, buffer_length: int) -> DiagView {
        let all = encode16(text);
        if buffer_length < 0 {
            DiagView::bare(SqlReturn::ERROR)
        } else {
            DiagView {
                code: if wanted && kept(all.len() as int, room(buffer_length)) < all.len() {
                    SqlReturn::SUCCESS_WITH_INFO
                } else {
                    SqlReturn::SUCCESS
                },
                value: if wanted {
                    match laid_out(all, room(buffer_length)) {
                        Some(units) => Some(DiagWriteView::Units(units)),
                        None => None,
                    }
                } else {
                    None
                },
                length: Some(small(small(all.len() as int) * 2)),
            }
        }
    }
}

/// The size of a `SQLLEN` in bytes.
pub open spec fn length_size() -> int {
    (isize::BITS / 8) as int
}

/// The answer for a header field that only a statement has.
pub open spec fn statement_answer(
    s: StatementView,
    field: StatementHeaderField,
    wanted: bool,
    buffer_length: int,
) -> DiagView {
    match field {
        StatementHeaderField::RowCount => DiagView::fixed(
            DiagWriteView::Length(row_count(s)),
            Some(length_size()),
            wanted,
        ),
        StatementHeaderField::CursorRowCount => DiagView::fixed(
            DiagWriteView::Length(CURSOR_ROW_COUNT_UNAVAILABLE),
            Some(length_size()),
            wanted,
        ),
        StatementHeaderField::DynamicFunction => DiagView::text(""@, wanted, buffer_length),
        StatementHeaderField::DynamicFunctionCode => DiagView::fixed(
            DiagWriteView::Integer(SQL_DIAG_UNKNOWN_STATEMENT),
            Some(4),
            wanted,
        ),
    }
}

/// The answer for a field of a record.
pub open spec fn record_answer(
    record: RecordView,
    id: i16,
    wanted: bool,
    buffer_length: int,
) -> DiagView {
    if id == SQL_DIAG_SQLSTATE {
        DiagView::text(record.sqlstate, wanted, buffer_length)
    } else if id == SQL_DIAG_NATIVE {
        DiagView::fixed(
            DiagWriteView::Integer(record.native_error as i32),
            Some(4),
            wanted,
        )
    } else if id == SQL_DIAG_MESSAGE_TEXT {
        DiagView::text(record.message, wanted, buffer_length)
    } else if id == SQL_DIAG_CLASS_ORIGIN {
        DiagView::text(origin(is_odbc_class(record.sqlstate)), wanted, buffer_length)
    } else if id == SQL_DIAG_SUBCLASS_ORIGIN {
        DiagView::text(origin(is_odbc_subclass(record.sqlstate)), wanted, buffer_length)
    } else if id == SQL_DIAG_CONNECTION_NAME || id == SQL_DIAG_SERVER_NAME {
        DiagView::text(""@, wanted, buffer_length)
    } else if id == SQL_DIAG_COLUMN_NUMBER {
        DiagView::fixed(DiagWriteView::Integer(SQL_NO_COLUMN_NUMBER), None, wanted)
    } else if id == SQL_DIAG_ROW_NUMBER {
        DiagView::fixed(DiagWriteView::Length(SQL_NO_ROW_NUMBER), None, wanted)
    } else {
        DiagView::bare(SqlReturn::NO_DATA)
    }
}

/// The answer for a diagnostic field. The record number counts for the fields of
/// a record only. The number of records and the return code are answered even
/// for a handle that is not valid.
pub open spec fn field_answer(
    source: SourceView,
    rec_number: i16,
    id: i16,
    wanted: bool,
    buffer_length: int,
) -> DiagView {
    if id == SQL_DIAG_NUMBER {
        let count = match source.queue() {
            Some(q) => q.len() as i32,
            None => 0,
        };
        DiagView::fixed(DiagWriteView::Integer(count), Some(4), wanted)
    } else if id == SQL_DIAG_RETURNCODE {
        DiagView::fixed(DiagWriteView::Small(SQL_SUCCESS_VALUE), Some(2), wanted)
    } else if statement_field(id) is Some {
        match source {
            SourceView::Statement(s) => statement_answer(
                s,
                statement_field(id)->0,
                wanted,
                buffer_length,
            ),
            _ => DiagView::bare(SqlReturn::ERROR),
        }
    } else if rec_number <= 0 {
        DiagView::bare(SqlReturn::ERROR)
    } else {
        match source.queue() {
            None => DiagView::bare(SqlReturn::INVALID_HANDLE),
            Some(q) => if rec_number > q.len() {
                DiagView::bare(SqlReturn::NO_DATA)
            } else {
                record_answer(q[rec_number - 1], id, wanted, buffer_length)
            },
        }
    }
}

fn bare(code: SqlReturn) -> (r: DiagAnswer)
    ensures
        r@ == DiagView::bare(code),
{
    DiagAnswer { code, value: None, length: None }
}

fn fixed(value: DiagWrite, length: Option<i16>, wanted: bool) -> (r: DiagAnswer)
    ensures
        r@ == DiagView::fixed(
            value@,
            match length {
                Some(n) => Some(n as int),
                None => None,
            },
            wanted,
        ),
{
    let value = if wanted {
        Some(value)
    } else {
        None
    };
    DiagAnswer { code: SqlReturn::SUCCESS, value, length }
}

/// A text field, with its length in bytes.
fn write_diag_string(value: &str, wanted: bool, buffer_length: i16) -> (r: DiagAnswer)
    requires
        buffer_length >= 0,
    ensures
        r@ == DiagView::text(value@, wanted, buffer_length as int),
{
    let write = write_utf16(value, wanted, room_in(buffer_length as i32));
    let length: i16 = if write.length > 16383 {
        32767
    } else {
        write.length * 2
    };
    let value = match write.units {
        Some(units) => Some(DiagWrite::Units(units)),
        None => None,
    };
    DiagAnswer { code: write.code, value, length: Some(length) }
}

/// A text field; a negative buffer length is an error.
fn write_diag_string_checked(value: &str, wanted: bool, buffer_length: i16) -> (r: DiagAnswer)
    ensures
        r@ == DiagView::text(value@, wanted, buffer_length as int),
{
    if buffer_length < 0 {
        bare(SqlReturn::ERROR)
    } else {
        write_diag_string(value, wanted, buffer_length)
    }
}

fn statement_field_of(
    stmt: &StatementHandle,
    field: StatementHeaderField,
    wanted: bool,
    buffer_length: i16,
) -> (r: DiagAnswer)
    ensures
        r@ == statement_answer(stmt@, field, wanted, buffer_length as int),
{
    let size: i16 = (isize::BITS / 8) as i16;
    match field {
        StatementHeaderField::RowCount => fixed(
            DiagWrite::Length(statement_row_count(stmt)),
            Some(size),
            wanted,
        ),
        StatementHeaderField::CursorRowCount => fixed(
            DiagWrite::Length(CURSOR_ROW_COUNT_UNAVAILABLE),
            Some(size),
            wanted,
        ),
        StatementHeaderField::DynamicFunction => write_diag_string_checked(
            "",
            wanted,
            buffer_length,
        ),
        StatementHeaderField::DynamicFunctionCode => fixed(
            DiagWrite::Integer(SQL_DIAG_UNKNOWN_STATEMENT),
            Some(4),
            wanted,
        ),
    }
}

fn record_field_of(
    record: &DiagnosticRecord,
    diag_identifier: i16,
    wanted: bool,
    buffer_length: i16,
) -> (r: DiagAnswer)
    ensures
        r@ == record_answer(record@, diag_identifier, wanted, buffer_length as int),
{
    let state = record.sqlstate.as_str();
    if diag_identifier == SQL_DIAG_SQLSTATE {
        write_diag_string_checked(state, wanted, buffer_length)
    } else if diag_identifier == SQL_DIAG_NATIVE {
        fixed(DiagWrite::Integer(record.native_error), Some(4), wanted)
    } else if diag_identifier == SQL_DIAG_MESSAGE_TEXT {
        write_diag_string_checked(record.message.as_str(), wanted, buffer_length)
    } else if diag_identifier == SQL_DIAG_CLASS_ORIGIN {
        write_diag_string_checked(class_origin(state), wanted, buffer_length)
    } else if diag_identifier == SQL_DIAG_SUBCLASS_ORIGIN {
        write_diag_string_checked(subclass_origin(state), wanted, buffer_length)
    } else if diag_identifier == SQL_DIAG_CONNECTION_NAME || diag_identifier
        == SQL_DIAG_SERVER_NAME {
        write_diag_string_checked("", wanted, buffer_length)
    } else if diag_identifier == SQL_DIAG_COLUMN_NUMBER {
        fixed(DiagWrite::Integer(SQL_NO_COLUMN_NUMBER), None, wanted)
    } else if diag_identifier == SQL_DIAG_ROW_NUMBER {
        fixed(DiagWrite::Length(SQL_NO_ROW_NUMBER), None, wanted)
    } else {
        bare(SqlReturn::NO_DATA)
    }
}

/// `SQLGetDiagFieldW`: one field of the diagnostics of a handle. `wanted` says
/// whether there is a buffer, of `buffer_length` bytes, for the value. Nothing
/// is posted on the handle.
pub fn sql_get_diag_field_w(
    source: DiagSource<'_>,
    rec_number: i16,
    diag_identifier: i16,
    wanted: bool,
    buffer_length: i16,
) -> (r: DiagAnswer)
    ensures
        r@ == field_answer(
            source@,
            rec_number,
            diag_identifier,
            wanted,
            buffer_length as int,
        ),
{
    if diag_identifier == SQL_DIAG_NUMBER {
        let count: i32 = match source.queue() {
            Some(q) => q.len() as i32,
            None => 0,
        };
        return fixed(DiagWrite::Integer(count), Some(4), wanted);
    }
    if diag_identifier == SQL_DIAG_RETURNCODE {
        return fixed(DiagWrite::Small(SQL_SUCCESS_VALUE), Some(2), wanted);
    }
    if let Some(field) = statement_header_field(diag_identifier) {
        return match source {
            DiagSource::Statement(stmt) => statement_field_of(stmt, field, wanted, buffer_length),
            _ => bare(SqlReturn::ERROR),
        };
    }
    if rec_number <= 0 {
        return bare(SqlReturn::ERROR);
    }
    match source.queue() {
        None => bare(SqlReturn::INVALID_HANDLE),
        Some(q) => match q.get((rec_number - 1) as usize) {
            None => bare(SqlReturn::NO_DATA),
            Some(record) => record_field_of(record, diag_identifier, wanted, buffer_length),
        },
    }
}

// ---------------------------------------------------------------------------
// Laws
// ---------------------------------------------------------------------------

/// The row count that the diagnostics report is the one that `SQLRowCount`
/// reports, whatever the record number and the buffer length.
pub proof fn law_row_count_is_the_one_of_sql_row_count(
    s: StatementView,
    rec_number: i16,
    buffer_length: int,
)
    ensures
        field_answer(
            SourceView::Statement(s),
            rec_number,
            SQL_DIAG_ROW_COUNT,
            true,
            buffer_length,
        ) == (DiagView {
            code: SqlReturn::SUCCESS,
            value: Some(DiagWriteView::Length(row_count(s))),
            length: Some(length_size()),
        }),
{
}

/// The header fields do not depend on the record number.
pub proof fn law_header_fields_ignore_the_record_number(
    source: SourceView,
    a: i16,
    b: i16,
    id: i16,
    wanted: bool,
    buffer_length: int,
)
    requires
        id == SQL_DIAG_NUMBER || id == SQL_DIAG_RETURNCODE || statement_field(id) is Some,
    ensures
        field_answer(source, a, id, wanted, buffer_length) == field_answer(
            source,
            b,
            id,
            wanted,
            buffer_length,
        ),
{
}

/// The header fields of statements are an error on any other handle.
pub proof fn law_statement_fields_need_a_statement(
    source: SourceView,
    rec_number: i16,
    id: i16,
    wanted: bool,
    buffer_length: int,
)
    requires
        statement_field(id) is Some,
        !(source is Statement),
    ensures
        field_answer(source, rec_number, id, wanted, buffer_length) == DiagView::bare(
            SqlReturn::ERROR,
        ),
{
}

/// Fields that are numbers do not depend on the buffer length.
pub proof fn law_number_fields_ignore_the_buffer_length(
    source: SourceView,
    rec_number: i16,
    id: i16,
    wanted: bool,
    a: int,
    b: int,
)
    requires
        id == SQL_DIAG_NUMBER || id == SQL_DIAG_RETURNCODE || id == SQL_DIAG_ROW_COUNT || id
            == SQL_DIAG_CURSOR_ROW_COUNT || id == SQL_DIAG_DYNAMIC_FUNCTION_CODE || id
            == SQL_DIAG_NATIVE || id == SQL_DIAG_COLUMN_NUMBER || id == SQL_DIAG_ROW_NUMBER,
    ensures
        field_answer(source, rec_number, id, wanted, a) == field_answer(
            source,
            rec_number,
            id,
            wanted,
            b,
        ),
{
}

/// A record read as a whole and field by field is the same record.
pub proof fn law_record_and_fields_agree(
    source: SourceView,
    rec_number: i16,
    buffer_length: int,
)
    requires
        source.queue() matches Some(q) && 1 <= rec_number <= q.len(),
    ensures
        ({
            let record = source.queue()->0[rec_number - 1];
            &&& field_answer(source, rec_number, SQL_DIAG_SQLSTATE, true, buffer_length)
                == DiagView::text(record.sqlstate, true, buffer_length)
            &&& field_answer(source, rec_number, SQL_DIAG_NATIVE, true, buffer_length).value
                == Some(DiagWriteView::Integer(record.native_error as i32))
            &&& field_answer(source, rec_number, SQL_DIAG_MESSAGE_TEXT, true, buffer_length)
                == DiagView::text(record.message, true, buffer_length)
        }),
{
}

/// The origin of a class depends on the first two characters of a state alone,
/// whatever follows them.
pub proof fn law_class_origin_reads_the_class_alone(a: Seq<char>, b: Seq<char>)
    requires
        a.len() >= 2,
        b.len() >= 2,
        a.take(2) == b.take(2),
    ensures
        is_odbc_class(a) == is_odbc_class(b),
{
    assert(a.take(2)[0] == a[0] && a.take(2)[1] == a[1]);
    assert(b.take(2)[0] == b[0] && b.take(2)[1] == b[1]);
}

/// Neither origin depends on the case of the state's letters.
pub proof fn law_origins_ignore_case(a: Seq<char>, b: Seq<char>)
    requires
        lowercase(a) == lowercase(b),
    ensures
        is_odbc_class(a) == is_odbc_class(b),
        is_odbc_subclass(a) == is_odbc_subclass(b),
{
    assert(a.len() == lowercase(a).len() && b.len() == lowercase(b).len());
    if a.len() >= 2 {
        assert(lowercase(a)[0] == lower(a[0]) && lowercase(a)[1] == lower(a[1]));
        assert(lowercase(b)[0] == lower(b[0]) && lowercase(b)[1] == lower(b[1]));
    }
}

/// The number of records that a header reports is the number of those that can
/// be read: a record can be read just where its number is no greater, and one
/// more that is posted raises it by one.
pub proof fn law_the_number_of_records_is_that_of_the_readable_ones(
    queue: Seq<RecordView>,
    record: RecordView,
    any: i16,
    n: i16,
    buffer_length: int,
)
    requires
        queue.len() < 32768,
        1 <= n,
        0 <= buffer_length,
    ensures
        ({
            let read = |q: Seq<RecordView>, number: i16, id: i16|
                field_answer(SourceView::Other(q), number, id, true, buffer_length);
            &&& read(queue, any, SQL_DIAG_NUMBER).code == SqlReturn::SUCCESS
            &&& read(queue, any, SQL_DIAG_NUMBER).value matches Some(
                DiagWriteView::Integer(count),
            ) && {
                &&& (n > count) == (read(queue, n, SQL_DIAG_SQLSTATE).code == SqlReturn::NO_DATA)
                &&& read(queue.push(record), any, SQL_DIAG_NUMBER).value == Some(
                    DiagWriteView::Integer((count + 1) as i32),
                )
            }
            &&& read(Seq::empty(), any, SQL_DIAG_NUMBER).value == Some(DiagWriteView::Integer(0))
        }),
{
}

/// A statement reports its records as any other handle does.
pub proof fn law_the_records_of_a_statement_are_read_alike(
    s: StatementView,
    rec_number: i16,
    id: i16,
    wanted: bool,
    buffer_length: int,
)
    requires
        statement_field(id) is None,
    ensures
        field_answer(SourceView::Statement(s), rec_number, id, wanted, buffer_length)
            == field_answer(SourceView::Other(s.queue), rec_number, id, wanted, buffer_length),
{
}

/// The native code and the message of a record are read as they were posted,
/// from the record of that number and no other.
pub proof fn law_a_posted_record_is_read_by_its_number(
    before: Seq<RecordView>,
    record: RecordView,
    after: Seq<RecordView>,
    n: i16,
)
    requires
        n == before.len() + 1,
        -0x8000_0000 <= record.native_error <= 0x7fff_ffff,
        encode16(record.message).len() < 16383,
        encode16(record.sqlstate).len() < 16383,
    ensures
        ({
            let source = SourceView::Other(before.push(record) + after);
            let text = |t: Seq<char>|
                DiagView {
                    code: SqlReturn::SUCCESS,
                    value: Some(DiagWriteView::Units(encode16(t).push(0))),
                    length: Some(2 * encode16(t).len() as int),
                };
            &&& field_answer(source, n, SQL_DIAG_MESSAGE_TEXT, true, 32767) == text(record.message)
            &&& field_answer(source, n, SQL_DIAG_SQLSTATE, true, 32767) == text(record.sqlstate)
            &&& field_answer(source, n, SQL_DIAG_NATIVE, true, 0) == (DiagView {
                code: SqlReturn::SUCCESS,
                value: Some(DiagWriteView::Integer(record.native_error as i32)),
                length: Some(4),
            })
        }),
{
    let all = before.push(record) + after;
    assert(all[n - 1] == record);
    let m = encode16(record.message);
    let st = encode16(record.sqlstate);
    assert(m.take(m.len() as int) == m);
    assert(st.take(st.len() as int) == st);
}

/// A text field that does not fit is cut at the end of the buffer, with its null
/// terminator, and its whole length in bytes is reported all the same.
pub proof fn law_a_text_field_reports_its_whole_length(text: Seq<char>, buffer_length: int)
    requires
        2 <= buffer_length <= 32767,
        encode16(text).len() < 16383,
    ensures
        ({
            let all = encode16(text);
            let a = DiagView::text(text, true, buffer_length);
            &&& a.length == Some(2 * all.len() as int)
            &&& a.value matches Some(DiagWriteView::Units(units)) && {
                &&& 2 * units.len() <= buffer_length
                &&& units.last() == 0
                &&& units.drop_last() == all.take(units.len() - 1)
            }
            &&& (a.code == SqlReturn::SUCCESS) == (2 * (all.len() + 1) <= buffer_length)
            &&& a.code == SqlReturn::SUCCESS ==> a.value == Some(
                DiagWriteView::Units(all.push(0)),
            )
            &&& a.code != SqlReturn::SUCCESS ==> a.code == SqlReturn::SUCCESS_WITH_INFO
            &&& DiagView::text(text, false, buffer_length) == (DiagView {
                code: SqlReturn::SUCCESS,
                value: None,
                length: Some(2 * all.len() as int),
            })
        }),
{
    let all = encode16(text);
    let most = room(buffer_length);
    let k = kept(all.len() as int, most);
    assert(all.take(all.len() as int) == all);
    assert(all.take(k).push(0).drop_last() == all.take(k));
}

/// The state that `SQLGetDiagRec` hands out is the record's own five characters.
pub proof fn law_the_state_of_a_record_is_handed_out(sqlstate: Seq<char>)
    requires
        encode16(sqlstate).len() == 5,
    ensures
        state_units(sqlstate) == encode16(sqlstate).push(0),
{
    assert(state_units(sqlstate) =~= encode16(sqlstate).push(0));
}

/// The class of a state is ODBC's own just where it is `IM`, in either case.
pub proof fn law_only_the_im_class_is_odbcs_own(a: char, b: char, rest: Seq<char>)
    ensures
        is_odbc_class(seq![a, b] + rest) == ((a == 'I' || a == 'i') && (b == 'M' || b == 'm')),
{
    let s = seq![a, b] + rest;
    assert(s[0] == a && s[1] == b);
}

/// Of a record neither row nor column is known, and no connection and no server are
/// named; a field that there is none of is not read from it.
pub proof fn law_what_is_not_known_of_a_record(
    source: SourceView,
    n: i16,
    id: i16,
    buffer_length: int,
)
    requires
        source.queue() is Some,
        1 <= n <= source.queue()->0.len(),
        2 <= buffer_length <= 32767,
    ensures
        field_answer(source, n, SQL_DIAG_COLUMN_NUMBER, true, buffer_length) == (DiagView {
            code: SqlReturn::SUCCESS,
            value: Some(DiagWriteView::Integer((-1) as i32)),
            length: None,
        }),
        field_answer(source, n, SQL_DIAG_ROW_NUMBER, true, buffer_length) == (DiagView {
            code: SqlReturn::SUCCESS,
            value: Some(DiagWriteView::Length((-1) as isize)),
            length: None,
        }),
        id == 10 || id == 11 ==> field_answer(source, n, id, true, buffer_length) == (DiagView {
            code: SqlReturn::SUCCESS,
            value: Some(DiagWriteView::Units(seq![0u16])),
            length: Some(0int),
        }),
        !(1 <= id <= 12) && id != -1247 && id != -1248 && id != -1249 ==> field_answer(
            source,
            n,
            id,
            true,
            buffer_length,
        ).code == SqlReturn::NO_DATA && field_answer(source, n, id, true, buffer_length).value is None,
{
    reveal_strlit("");
    assert(""@ =~= Seq::<char>::empty());
    assert(encode16(""@) =~= Seq::<u16>::empty());
    assert(encode16(""@).take(0).push(0) =~= seq![0u16]);
}

/// The fields of a record are not read without a record number, nor from a handle
/// that is not valid; a record that there is none of is no failure.
pub proof fn law_which_records_can_be_asked_for(
    source: SourceView,
    n: i16,
    id: i16,
    wanted: bool,
    buffer_length: int,
)
    requires
        4 <= id <= 11,
        id != 7,
    ensures
        ({
            let r = field_answer(source, n, id, wanted, buffer_length);
            &&& n <= 0 ==> r.code == SqlReturn::ERROR && r.value is None && r.length is None
            &&& n > 0 && source.queue() is None ==> r.code == SqlReturn::INVALID_HANDLE && r.value
                is None
            &&& n > 0 && source.queue() is Some && n > source.queue()->0.len() ==> r.code
                == SqlReturn::NO_DATA && r.value is None
        }),
{
}

/// What the header says of a statement beyond its row count: no function of it is
/// known, and no rows of its cursor are counted. Lengths are those of what is written.
pub proof fn law_what_the_header_says_of_a_statement(
    s: StatementView,
    n: i16,
    buffer_length: int,
)
    requires
        2 <= buffer_length <= 32767,
    ensures
        ({
            let source = SourceView::Statement(s);
            &&& field_answer(source, n, 7, true, buffer_length) == (DiagView {
                code: SqlReturn::SUCCESS,
                value: Some(DiagWriteView::Units(seq![0u16])),
                length: Some(0int),
            })
            &&& field_answer(source, n, 12, true, buffer_length) == (DiagView {
                code: SqlReturn::SUCCESS,
                value: Some(DiagWriteView::Integer(0)),
                length: Some(4int),
            })
            &&& field_answer(source, n, SQL_DIAG_CURSOR_ROW_COUNT, true, buffer_length).code == SqlReturn::SUCCESS
            &&& field_answer(source, n, SQL_DIAG_CURSOR_ROW_COUNT, true, buffer_length).value == Some(
                DiagWriteView::Length(0),
            )
            &&& field_answer(source, n, SQL_DIAG_CURSOR_ROW_COUNT, true, buffer_length).length matches Some(size)
                && size * 8 == isize::BITS
            &&& field_answer(source, n, 3, true, buffer_length).length matches Some(size) && size
                * 8 == isize::BITS
            &&& field_answer(source, n, 1, true, buffer_length) == (DiagView {
                code: SqlReturn::SUCCESS,
                value: Some(DiagWriteView::Small(0)),
                length: Some(2int),
            })
        }),
{
    reveal_strlit("");
    assert(""@ =~= Seq::<char>::empty());
    assert(encode16(""@) =~= Seq::<u16>::empty());
    assert(encode16(""@).take(0).push(0) =~= seq![0u16]);
}

/// A record is read whole by its number, and what is read is what was posted: its state,
/// its native code and its message, cut only by the buffer. A number past the last record
/// is no failure, and there is no record of number zero.
pub proof fn law_a_posted_record_is_read_whole(
    answer: RecAnswer,
    before: Seq<RecordView>,
    record: RecordView,
    after: Seq<RecordView>,
    n: i16,
    buffer_length: int,
)
    requires
        0 < buffer_length <= 32767,
        answer.reads(Some(before.push(record) + after), n, true, buffer_length),
    ensures
        n <= 0 ==> answer.code == SqlReturn::ERROR && answer.message is None,
        n > before.len() + 1 + after.len() ==> answer.code == SqlReturn::NO_DATA
            && answer.sqlstate is None && answer.native_error is None && answer.message is None,
        n == before.len() + 1 ==> {
            &&& answer.native_error matches Some(code) && code == record.native_error
            &&& answer.sqlstate matches Some(state) && state@.len() == 6 && state@[5] == 0
            &&& record.sqlstate.len() == 5 && encode16(record.sqlstate).len() == 5 ==> (
            answer.sqlstate matches Some(state) && state@ == encode16(record.sqlstate).push(0))
            &&& answer.message matches Some(write) && {
                &&& (answer.code == SqlReturn::SUCCESS) == (encode16(record.message).len()
                    < buffer_length || encode16(record.message).len() == 0)
                &&& answer.code == SqlReturn::SUCCESS && encode16(record.message).len() < 32767
                    ==> (write.units matches Some(u) && u@ == encode16(record.message).push(0))
            }
        },
{
    let all = before.push(record) + after;
    if n == before.len() + 1 {
        assert(all[n - 1] == record);
        let units = encode16(record.sqlstate);
        if units.len() == 5 {
            assert(state_units(record.sqlstate) =~= units.push(0));
        }
        let m = encode16(record.message);
        assert(m.take(m.len() as int) =~= m);
    }
}

/// The states whose subclass ODBC defines, in any case, by their names.
pub proof fn law_which_subclasses_are_odbcs_own(state: Seq<char>, other: Seq<char>)
    requires
        lowercase(other) == lowercase(state),
        state == "01S00"@ || state == "01S01"@ || state == "01S02"@ || state == "01S06"@
            || state == "01S07"@ || state == "07S01"@ || state == "08S01"@ || state == "21S01"@
            || state == "21S02"@ || state == "25S01"@ || state == "25S02"@ || state == "25S03"@
            || state == "42S01"@ || state == "42S02"@ || state == "42S11"@ || state == "42S12"@
            || state == "42S21"@ || state == "42S22"@ || state == "HY095"@ || state == "HY097"@
            || state == "HY098"@ || state == "HY099"@ || state == "HY100"@ || state == "HY101"@
            || state == "HY105"@ || state == "HY107"@ || state == "HY109"@ || state == "HY110"@
            || state == "HY111"@ || state == "HYT00"@ || state == "HYT01"@ || state == "IM001"@
            || state == "IM002"@ || state == "IM003"@ || state == "IM004"@ || state == "IM005"@
            || state == "IM006"@ || state == "IM007"@ || state == "IM008"@ || state == "IM010"@
            || state == "IM011"@ || state == "IM012"@,
    ensures
        is_odbc_subclass(other),
{
    assert(ODBC_SPECIFIC_SUBCLASS_STATES@[0]@ == "01S00"@);
    assert(ODBC_SPECIFIC_SUBCLASS_STATES@[1]@ == "01S01"@);
    assert(ODBC_SPECIFIC_SUBCLASS_STATES@[2]@ == "01S02"@);
    assert(ODBC_SPECIFIC_SUBCLASS_STATES@[3]@ == "01S06"@);
    assert(ODBC_SPECIFIC_SUBCLASS_STATES@[4]@ == "01S07"@);
    assert(ODBC_SPECIFIC_SUBCLASS_STATES@[5]@ == "07S01"@);
    assert(ODBC_SPECIFIC_SUBCLASS_STATES@[6]@ == "08S01"@);
    assert(ODBC_SPECIFIC_SUBCLASS_STATES@[7]@ == "21S01"@);
    assert(ODBC_SPECIFIC_SUBCLASS_STATES@[8]@ == "21S02"@);
    assert(ODBC_SPECIFIC_SUBCLASS_STATES@[9]@ == "25S01"@);
    assert(ODBC_SPECIFIC_SUBCLASS_STATES@[10]@ == "25S02"@);
    assert(ODBC_SPECIFIC_SUBCLASS_STATES@[11]@ == "25S03"@);
    assert(ODBC_SPECIFIC_SUBCLASS_STATES@[12]@ == "42S01"@);
    assert(ODBC_SPECIFIC_SUBCLASS_STATES@[13]@ == "42S02"@);
    assert(ODBC_SPECIFIC_SUBCLASS_STATES@[14]@ == "42S11"@);
    assert(ODBC_SPECIFIC_SUBCLASS_STATES@[15]@ == "42S12"@);
    assert(ODBC_SPECIFIC_SUBCLASS_STATES@[16]@ == "42S21"@);
    assert(ODBC_SPECIFIC_SUBCLASS_STATES@[17]@ == "42S22"@);
    assert(ODBC_SPECIFIC_SUBCLASS_STATES@[18]@ == "HY095"@);
    assert(ODBC_SPECIFIC_SUBCLASS_STATES@[19]@ == "HY097"@);
    assert(ODBC_SPECIFIC_SUBCLASS_STATES@[20]@ == "HY098"@);
    assert(ODBC_SPECIFIC_SUBCLASS_STATES@[21]@ == "HY099"@);
    assert(ODBC_SPECIFIC_SUBCLASS_STATES@[22]@ == "HY100"@);
    assert(ODBC_SPECIFIC_SUBCLASS_STATES@[23]@ == "HY101"@);
    assert(ODBC_SPECIFIC_SUBCLASS_STATES@[24]@ == "HY105"@);
    assert(ODBC_SPECIFIC_SUBCLASS_STATES@[25]@ == "HY107"@);
    assert(ODBC_SPECIFIC_SUBCLASS_STATES@[26]@ == "HY109"@);
    assert(ODBC_SPECIFIC_SUBCLASS_STATES@[27]@ == "HY110"@);
    assert(ODBC_SPECIFIC_SUBCLASS_STATES@[28]@ == "HY111"@);
    assert(ODBC_SPECIFIC_SUBCLASS_STATES@[29]@ == "HYT00"@);
    assert(ODBC_SPECIFIC_SUBCLASS_STATES@[30]@ == "HYT01"@);
    assert(ODBC_SPECIFIC_SUBCLASS_STATES@[31]@ == "IM001"@);
    assert(ODBC_SPECIFIC_SUBCLASS_STATES@[32]@ == "IM002"@);
    assert(ODBC_SPECIFIC_SUBCLASS_STATES@[33]@ == "IM003"@);
    assert(ODBC_SPECIFIC_SUBCLASS_STATES@[34]@ == "IM004"@);
    assert(ODBC_SPECIFIC_SUBCLASS_STATES@[35]@ == "IM005"@);
    assert(ODBC_SPECIFIC_SUBCLASS_STATES@[36]@ == "IM006"@);
    assert(ODBC_SPECIFIC_SUBCLASS_STATES@[37]@ == "IM007"@);
    assert(ODBC_SPECIFIC_SUBCLASS_STATES@[38]@ == "IM008"@);
    assert(ODBC_SPECIFIC_SUBCLASS_STATES@[39]@ == "IM010"@);
    assert(ODBC_SPECIFIC_SUBCLASS_STATES@[40]@ == "IM011"@);
    assert(ODBC_SPECIFIC_SUBCLASS_STATES@[41]@ == "IM012"@);
}

} // verus!
