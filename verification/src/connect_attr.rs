//! Connection attributes: `SQLSetConnectAttrW` and `SQLGetConnectAttrW`.

use vstd::prelude::*;

use crate::diagnostics::{RecordView, record_of, settle};
use crate::errors::{ErrorView, OdbcError};
use crate::handles::{
    BackendCall, CallView, ConnectionHandle, ConnectionView, SessionView, Step, StepView, answer,
};
use crate::params::{ConnectParams, ParamsView};
use crate::text::{decimal, hexadecimal, hexadecimal_of, join2, join3, unsigned_of};
use crate::types::{SqlReturn, SqlState};
use crate::types::connection_attribute::{
    ACCESS_MODE, ASYNC_ENABLE, AUTOCOMMIT, AUTO_IPD, CONNECTION_DEAD, CONNECTION_TIMEOUT,
    CURRENT_CATALOG, ENLIST_IN_DTC, LOGIN_TIMEOUT, METADATA_ID, ODBC_CURSORS, PACKET_SIZE, TRACE,
    TRANSLATE_OPTION, TXN_ISOLATION, defined, is_defined,
};
use crate::types::sql_state::{
    ATTRIBUTE_CANNOT_BE_SET_NOW, INVALID_ATTRIBUTE_OPTION_IDENTIFIER, INVALID_ATTRIBUTE_VALUE,
    INVALID_CURSOR_STATE, INVALID_STRING_OR_BUFFER_LENGTH, INVALID_USE_OF_NULL_POINTER,
};
use crate::utf16::{
    SQL_NTS, bad_length, encode16, given_text, kept, laid_out, note_truncation, readable, room,
    room_in, small, truncation_noted, units_view, utf16_to_string, write_utf16,
};

verus! {

/// `SQL_ATTR_AUTOCOMMIT`: manual commit.
pub const SQL_AUTOCOMMIT_OFF: usize = 0;

/// `SQL_ATTR_AUTOCOMMIT`: each statement by itself.
pub const SQL_AUTOCOMMIT_ON: usize = 1;

/// `SQL_ATTR_ACCESS_MODE`: reads and writes.
pub const SQL_MODE_READ_WRITE: usize = 0;

/// `SQL_ATTR_ACCESS_MODE`: reads alone.
pub const SQL_MODE_READ_ONLY: usize = 1;

/// `SQL_ATTR_TRACE`: off.
pub const SQL_OPT_TRACE_OFF: usize = 0;

/// `SQL_ATTR_TRACE`: on.
pub const SQL_OPT_TRACE_ON: usize = 1;

/// `SQL_ATTR_ODBC_CURSORS`: the cursor library where it is needed.
pub const SQL_CUR_USE_IF_NEEDED: usize = 0;

/// `SQL_ATTR_ODBC_CURSORS`: the cursor library.
pub const SQL_CUR_USE_ODBC: usize = 1;

/// `SQL_ATTR_ODBC_CURSORS`: the driver's own cursors.
pub const SQL_CUR_USE_DRIVER: usize = 2;

/// `SQL_ATTR_ASYNC_ENABLE`: off.
pub const SQL_ASYNC_ENABLE_OFF: usize = 0;

/// `SQL_TXN_READ_COMMITTED`.
pub const SQL_TXN_READ_COMMITTED: u32 = 2;

/// `SQL_TXN_REPEATABLE_READ`.
pub const SQL_TXN_REPEATABLE_READ: u32 = 4;

/// `SQL_TXN_SERIALIZABLE`.
pub const SQL_TXN_SERIALIZABLE: u32 = 8;

/// `SQL_CD_TRUE`: the connection is lost.
pub const SQL_CD_TRUE: u32 = 1;

/// `SQL_CD_FALSE`: the connection is not known to be lost.
pub const SQL_CD_FALSE: u32 = 0;

// ---------------------------------------------------------------------------
// Isolation levels
// ---------------------------------------------------------------------------

/// Whether `level` has exactly one bit set, and so names one isolation level.
pub open spec fn names_one_level(level: u32) -> bool {
    level != 0 && level & ((level - 1) as u32) == 0
}

/// A value that names one level has no two bits set.
pub proof fn law_one_level_is_one_bit(level: u32, i: u32, j: u32)
    requires
        names_one_level(level),
        i < 32,
        j < 32,
        (level >> i) & 1 == 1,
        (level >> j) & 1 == 1,
    ensures
        i == j,
{
    assert(level != 0 && level & ((level - 1) as u32) == 0 && i < 32 && j < 32 && (level >> i) & 1
        == 1 && (level >> j) & 1 == 1 ==> i == j) by (bit_vector);
}

/// Why an isolation level is not taken, where the data source can run at the
/// levels of `supported`; those are not known before there is a connection.
pub open spec fn isolation_refusal(supported: Option<u32>, level: u32) -> Option<ErrorView> {
    if !names_one_level(level) {
        Some(
            ErrorView::general(
                "SQL_ATTR_TXN_ISOLATION: "@ + hexadecimal(level as nat)
                    + " does not name exactly one isolation level"@,
                INVALID_ATTRIBUTE_VALUE@,
            ),
        )
    } else {
        match supported {
            Some(options) if level & options == 0 => Some(
                ErrorView::general(
                    "SQL_ATTR_TXN_ISOLATION: isolation level "@ + hexadecimal(level as nat)
                        + (" is not supported by this data source (SQL_TXN_ISOLATION_OPTION = "@
                        + hexadecimal(options as nat) + ")"@),
                    INVALID_ATTRIBUTE_VALUE@,
                ),
            ),
            _ => None,
        }
    }
}

/// Rejects an isolation level the data source cannot run at: one that does not
/// name exactly one level, or one outside `supported` where that is known.
pub fn validate_txn_isolation(supported: Option<u32>, level: u32) -> (r: Result<(), OdbcError>)
    ensures
        match r {
            Ok(_) => isolation_refusal(supported, level) is None,
            Err(e) => isolation_refusal(supported, level) == Some(e@),
        },
{
    if level == 0 || level & (level - 1) != 0 {
        let number = hexadecimal_of(level as usize);
        return Err(
            OdbcError::general(
                join3(
                    "SQL_ATTR_TXN_ISOLATION: ",
                    number.as_str(),
                    " does not name exactly one isolation level",
                ).as_str(),
                SqlState::invalid_attribute_value(),
            ),
        );
    }
    match supported {
        Some(options) if level & options == 0 => {
            let wanted = hexadecimal_of(level as usize);
            let known = hexadecimal_of(options as usize);
            let tail = join3(
                " is not supported by this data source (SQL_TXN_ISOLATION_OPTION = ",
                known.as_str(),
                ")",
            );
            Err(
                OdbcError::general(
                    join3(
                        "SQL_ATTR_TXN_ISOLATION: isolation level ",
                        wanted.as_str(),
                        tail.as_str(),
                    ).as_str(),
                    SqlState::invalid_attribute_value(),
                ),
            )
        },
        _ => Ok(()),
    }
}

/// The isolation levels a session can run at.
pub open spec fn options_of(session: Option<SessionView>) -> Option<u32> {
    match session {
        Some(s) => Some(s.txn_isolation_options),
        None => None,
    }
}

// ---------------------------------------------------------------------------
// Setting an attribute
// ---------------------------------------------------------------------------

/// What setting an attribute comes to.
pub enum SetPlan {
    /// It is refused.
    Refuse(ErrorView),
    /// It is accepted and nothing is kept.
    Ignore,
    /// The number is kept.
    Store(usize),
    /// The catalog is kept, for the connection to come.
    StoreCatalog(Seq<char>),
    /// The backend is asked first.
    Ask(CallView),
}

/// The failure for a value outside the few an attribute takes.
pub open spec fn bad_value(before: Seq<char>, value: usize, after: Seq<char>) -> ErrorView {
    ErrorView::general(before + decimal(value as int) + after, INVALID_ATTRIBUTE_VALUE@)
}

/// The attributes whose number is kept as it is given.
pub open spec fn is_plain(attribute: i32) -> bool {
    ||| attribute == LOGIN_TIMEOUT
    ||| attribute == TRANSLATE_OPTION
    ||| attribute == PACKET_SIZE
    ||| attribute == CONNECTION_TIMEOUT
    ||| attribute == ASYNC_ENABLE
    ||| attribute == METADATA_ID
}

/// What setting `attribute` on `c` comes to. `value` is the value argument as
/// a number, `text` as a text; `pending` says whether a statement of the
/// connection has a result set open.
pub open spec fn set_plan(
    c: ConnectionView,
    pending: bool,
    attribute: i32,
    value: usize,
    text: Option<Seq<u16>>,
    length: int,
) -> SetPlan {
    let live = c.session is Some;
    if attribute == ACCESS_MODE {
        if value != SQL_MODE_READ_WRITE && value != SQL_MODE_READ_ONLY {
            SetPlan::Refuse(
                bad_value(
                    "SQL_ATTR_ACCESS_MODE: invalid value "@,
                    value,
                    " (expected 0=read/write or 1=read-only)"@,
                ),
            )
        } else if live {
            SetPlan::Ask(CallView::SetAccessMode(value == SQL_MODE_READ_ONLY))
        } else {
            SetPlan::Store(value)
        }
    } else if attribute == AUTOCOMMIT {
        if value != SQL_AUTOCOMMIT_OFF && value != SQL_AUTOCOMMIT_ON {
            SetPlan::Refuse(
                bad_value(
                    "SQL_ATTR_AUTOCOMMIT: invalid value "@,
                    value,
                    " (expected 0=off or 1=on)"@,
                ),
            )
        } else if live {
            SetPlan::Ask(CallView::SetAutocommit(value == SQL_AUTOCOMMIT_ON))
        } else {
            SetPlan::Store(value)
        }
    } else if attribute == TRACE {
        if value != SQL_OPT_TRACE_OFF && value != SQL_OPT_TRACE_ON {
            SetPlan::Refuse(
                bad_value("SQL_ATTR_TRACE: invalid value "@, value, " (expected 0=off or 1=on)"@),
            )
        } else {
            SetPlan::Store(value)
        }
    } else if attribute == ODBC_CURSORS {
        if value != SQL_CUR_USE_IF_NEEDED && value != SQL_CUR_USE_ODBC && value
            != SQL_CUR_USE_DRIVER {
            SetPlan::Refuse(
                bad_value(
                    "SQL_ATTR_ODBC_CURSORS: invalid value "@,
                    value,
                    " (expected 0, 1, or 2)"@,
                ),
            )
        } else {
            SetPlan::Store(value)
        }
    } else if attribute == TXN_ISOLATION {
        if c.txn_dirty {
            SetPlan::Refuse(
                ErrorView::general(
                    "SQL_ATTR_TXN_ISOLATION cannot be set while a transaction is open"@,
                    ATTRIBUTE_CANNOT_BE_SET_NOW@,
                ),
            )
        } else if value > u32::MAX {
            SetPlan::Refuse(
                ErrorView::general(
                    "SQL_ATTR_TXN_ISOLATION: invalid value "@ + hexadecimal(value as nat),
                    INVALID_ATTRIBUTE_VALUE@,
                ),
            )
        } else {
            match isolation_refusal(options_of(c.session), value as u32) {
                Some(e) => SetPlan::Refuse(e),
                None => if live {
                    SetPlan::Ask(CallView::SetTxnIsolation(value as u32))
                } else {
                    SetPlan::Store(value)
                },
            }
        }
    } else if attribute == PACKET_SIZE && live {
        SetPlan::Refuse(
            ErrorView::general(
                "SQL_ATTR_PACKET_SIZE cannot be set once the connection is open"@,
                ATTRIBUTE_CANNOT_BE_SET_NOW@,
            ),
        )
    } else if attribute == ASYNC_ENABLE && value != SQL_ASYNC_ENABLE_OFF {
        SetPlan::Refuse(
            ErrorView::NotImplemented { feature: "SQL_ATTR_ASYNC_ENABLE = SQL_ASYNC_ENABLE_ON"@ },
        )
    } else if attribute == ENLIST_IN_DTC {
        SetPlan::Refuse(
            ErrorView::NotImplemented {
                feature: "SQL_ATTR_ENLIST_IN_DTC (distributed transactions)"@,
            },
        )
    } else if is_plain(attribute) {
        SetPlan::Store(value)
    } else if attribute == CURRENT_CATALOG {
        if pending {
            SetPlan::Refuse(
                ErrorView::general(
                    "SQL_ATTR_CURRENT_CATALOG cannot be set while a result set is pending"@,
                    INVALID_CURSOR_STATE@,
                ),
            )
        } else {
            match catalog_given(text, length) {
                Err(e) => SetPlan::Refuse(e),
                Ok(catalog) => if live {
                    SetPlan::Ask(CallView::SetCurrentCatalog(catalog))
                } else {
                    SetPlan::StoreCatalog(catalog)
                },
            }
        }
    } else if attribute == CONNECTION_DEAD {
        SetPlan::Refuse(
            ErrorView::general("SQL_ATTR_CONNECTION_DEAD is read-only"@, INVALID_ATTRIBUTE_VALUE@),
        )
    } else {
        SetPlan::Ignore
    }
}

/// The length in code units that `length`, in bytes, stands for.
pub open spec fn units_in(length: int) -> int {
    if length == SQL_NTS {
        SQL_NTS as int
    } else {
        length / 2
    }
}

/// The catalog an application passed: `length` is in bytes.
pub open spec fn catalog_given(text: Option<Seq<u16>>, length: int) -> Result<
    Seq<char>,
    ErrorView,
> {
    if text is None {
        Err(
            ErrorView::general(
                "SQL_ATTR_CURRENT_CATALOG requires a string value, and ValuePtr was null"@,
                INVALID_USE_OF_NULL_POINTER@,
            ),
        )
    } else if length < 0 && length != SQL_NTS {
        Err(bad_length(length))
    } else {
        given_text(text, units_in(length))
    }
}

/// The handle with `attribute` kept as `value`. Switching autocommit on commits
/// what was open, so nothing is left to end.
pub open spec fn stored(c: ConnectionView, attribute: i32, value: usize) -> ConnectionView {
    ConnectionView {
        attrs: c.attrs.insert(attribute, value),
        txn_dirty: if attribute == AUTOCOMMIT && value == SQL_AUTOCOMMIT_ON {
            false
        } else {
            c.txn_dirty
        },
        ..c
    }
}

/// The handle and the step that follow from a plan.
pub open spec fn set_step(c: ConnectionView, attribute: i32, plan: SetPlan) -> (
    ConnectionView,
    StepView,
) {
    match plan {
        SetPlan::Refuse(e) => (c.posted(e), StepView::Done(e.sql_return())),
        SetPlan::Ignore => (c, StepView::Done(SqlReturn::SUCCESS)),
        SetPlan::Store(value) => (stored(c, attribute, value), StepView::Done(SqlReturn::SUCCESS)),
        SetPlan::StoreCatalog(catalog) => (
            ConnectionView { catalog: Some(catalog), ..c },
            StepView::Done(SqlReturn::SUCCESS),
        ),
        SetPlan::Ask(call) => (c, StepView::Ask(call)),
    }
}

/// The handle after the backend answered: what it agreed to is kept, what it
/// refused is not.
pub open spec fn set_answered(
    c: ConnectionView,
    call: CallView,
    outcome: Result<(), ErrorView>,
) -> (ConnectionView, SqlReturn) {
    match outcome {
        Err(e) => (c.posted(e), e.sql_return()),
        Ok(_) => (
            match call {
                CallView::SetAccessMode(read_only) => stored(
                    c,
                    ACCESS_MODE,
                    if read_only {
                        SQL_MODE_READ_ONLY
                    } else {
                        SQL_MODE_READ_WRITE
                    },
                ),
                CallView::SetAutocommit(on) => stored(
                    c,
                    AUTOCOMMIT,
                    if on {
                        SQL_AUTOCOMMIT_ON
                    } else {
                        SQL_AUTOCOMMIT_OFF
                    },
                ),
                CallView::SetTxnIsolation(level) => stored(c, TXN_ISOLATION, level as usize),
                CallView::SetCurrentCatalog(catalog) => ConnectionView {
                    catalog: Some(catalog),
                    ..c
                },
                _ => c,
            },
            SqlReturn::SUCCESS,
        ),
    }
}

fn invalid_value(before: &str, value: usize, after: &str) -> (r: OdbcError)
    ensures
        r@ == bad_value(before@, value, after@),
{
    let number = unsigned_of(value);
    OdbcError::general(
        join3(before, number.as_str(), after).as_str(),
        SqlState::invalid_attribute_value(),
    )
}

/// The catalog an application passed: `length` is in bytes.
fn read_catalog(text: Option<&[u16]>, length: i32) -> (r: Result<String, OdbcError>)
    requires
        readable(text, units_in(length as int)),
    ensures
        crate::utf16::decoded(r) == catalog_given(units_view(text), length as int),
{
    if text.is_none() {
        return Err(
            OdbcError::general(
                "SQL_ATTR_CURRENT_CATALOG requires a string value, and ValuePtr was null",
                SqlState::invalid_use_of_null_pointer(),
            ),
        );
    }
    if length == SQL_NTS {
        return utf16_to_string(text, SQL_NTS);
    }
    if length < 0 {
        let number = crate::text::decimal_of(length as i64);
        return Err(
            OdbcError::general(
                join2("Invalid string length: ", number.as_str()).as_str(),
                SqlState::invalid_string_or_buffer_length(),
            ),
        );
    }
    utf16_to_string(text, length / 2)
}

/// Keeps `attribute` as `value`.
fn store(conn: &mut ConnectionHandle, attribute: i32, value: usize)
    ensures
        final(conn)@ == stored(old(conn)@, attribute, value),
{
    conn.attrs.insert(attribute, value);
    if attribute == AUTOCOMMIT && value == SQL_AUTOCOMMIT_ON {
        conn.txn_dirty = false;
    }
}

/// Decides what setting `attribute` comes to, and keeps what can be kept at
/// once; what the backend has to agree to is handed back.
fn begin_set(
    conn: &mut ConnectionHandle,
    pending: bool,
    attribute: i32,
    value: usize,
    text: Option<&[u16]>,
    string_length: i32,
) -> (r: Result<Option<BackendCall>, OdbcError>)
    requires
        attribute == CURRENT_CATALOG ==> readable(text, units_in(string_length as int)),
    ensures
        ({
            let plan = set_plan(
                old(conn)@,
                pending,
                attribute,
                value,
                units_view(text),
                string_length as int,
            );
            match r {
                Err(e) => plan == SetPlan::Refuse(e@) && final(conn)@ == old(conn)@,
                Ok(Some(call)) => plan == SetPlan::Ask(call@) && final(conn)@ == old(conn)@,
                Ok(None) => !(plan is Refuse) && !(plan is Ask) && final(conn)@ == set_step(
                    old(conn)@,
                    attribute,
                    plan,
                ).0,
            }
        }),
{
    let live = conn.connection.is_some();
    if attribute == ACCESS_MODE {
        if value != SQL_MODE_READ_WRITE && value != SQL_MODE_READ_ONLY {
            return Err(
                invalid_value(
                    "SQL_ATTR_ACCESS_MODE: invalid value ",
                    value,
                    " (expected 0=read/write or 1=read-only)",
                ),
            );
        }
        if live {
            return Ok(Some(BackendCall::SetAccessMode(value == SQL_MODE_READ_ONLY)));
        }
        store(conn, attribute, value);
        return Ok(None);
    }
    if attribute == AUTOCOMMIT {
        if value != SQL_AUTOCOMMIT_OFF && value != SQL_AUTOCOMMIT_ON {
            return Err(
                invalid_value(
                    "SQL_ATTR_AUTOCOMMIT: invalid value ",
                    value,
                    " (expected 0=off or 1=on)",
                ),
            );
        }
        if live {
            return Ok(Some(BackendCall::SetAutocommit(value == SQL_AUTOCOMMIT_ON)));
        }
        store(conn, attribute, value);
        return Ok(None);
    }
    if attribute == TRACE {
        if value != SQL_OPT_TRACE_OFF && value != SQL_OPT_TRACE_ON {
            return Err(
                invalid_value(
                    "SQL_ATTR_TRACE: invalid value ",
                    value,
                    " (expected 0=off or 1=on)",
                ),
            );
        }
        store(conn, attribute, value);
        return Ok(None);
    }
    if attribute == ODBC_CURSORS {
        if value != SQL_CUR_USE_IF_NEEDED && value != SQL_CUR_USE_ODBC && value
            != SQL_CUR_USE_DRIVER {
            return Err(
                invalid_value(
                    "SQL_ATTR_ODBC_CURSORS: invalid value ",
                    value,
                    " (expected 0, 1, or 2)",
                ),
            );
        }
        store(conn, attribute, value);
        return Ok(None);
    }
    if attribute == TXN_ISOLATION {
        if conn.txn_dirty {
            return Err(
                OdbcError::general(
                    "SQL_ATTR_TXN_ISOLATION cannot be set while a transaction is open",
                    SqlState::attribute_cannot_be_set_now(),
                ),
            );
        }
        if value as u64 > u32::MAX as u64 {
            let number = hexadecimal_of(value);
            return Err(
                OdbcError::general(
                    join2("SQL_ATTR_TXN_ISOLATION: invalid value ", number.as_str()).as_str(),
                    SqlState::invalid_attribute_value(),
                ),
            );
        }
        let level: u32 = value as u32;
        let supported: Option<u32> = match &conn.connection {
            Some(session) => Some(session.txn_isolation_options),
            None => None,
        };
        validate_txn_isolation(supported, level)?;
        if live {
            return Ok(Some(BackendCall::SetTxnIsolation(level)));
        }
        store(conn, attribute, value);
        return Ok(None);
    }
    if attribute == PACKET_SIZE && live {
        return Err(
            OdbcError::general(
                "SQL_ATTR_PACKET_SIZE cannot be set once the connection is open",
                SqlState::attribute_cannot_be_set_now(),
            ),
        );
    }
    if attribute == ASYNC_ENABLE && value != SQL_ASYNC_ENABLE_OFF {
        return Err(OdbcError::not_implemented("SQL_ATTR_ASYNC_ENABLE = SQL_ASYNC_ENABLE_ON"));
    }
    if attribute == ENLIST_IN_DTC {
        return Err(
            OdbcError::not_implemented("SQL_ATTR_ENLIST_IN_DTC (distributed transactions)"),
        );
    }
    if attribute == LOGIN_TIMEOUT || attribute == TRANSLATE_OPTION || attribute == PACKET_SIZE
        || attribute == CONNECTION_TIMEOUT || attribute == ASYNC_ENABLE || attribute
        == METADATA_ID {
        store(conn, attribute, value);
        return Ok(None);
    }
    if attribute == CURRENT_CATALOG {
        if pending {
            return Err(
                OdbcError::general(
                    "SQL_ATTR_CURRENT_CATALOG cannot be set while a result set is pending",
                    SqlState::invalid_cursor_state(),
                ),
            );
        }
        let catalog = read_catalog(text, string_length)?;
        if live {
            return Ok(Some(BackendCall::SetCurrentCatalog(catalog)));
        }
        conn.catalog = Some(catalog);
        return Ok(None);
    }
    if attribute == CONNECTION_DEAD {
        return Err(
            OdbcError::general(
                "SQL_ATTR_CONNECTION_DEAD is read-only",
                SqlState::invalid_attribute_value(),
            ),
        );
    }
    Ok(None)
}

/// `SQLSetConnectAttrW`: sets an attribute of a connection, or asks the backend
/// for it; its answer goes to [`set_connect_attr_answered`].
///
/// `value` is the value argument as a number, `text` as a text with
/// `string_length` in bytes. `cursors_open` holds one entry for each statement
/// of the connection: whether it has a result set open. An attribute the driver
/// does not know is accepted, so that tools which set one do not fail.
pub fn sql_set_connect_attr_w(
    conn: Option<&mut ConnectionHandle>,
    cursors_open: &[bool],
    attribute: i32,
    value: usize,
    text: Option<&[u16]>,
    string_length: i32,
) -> (r: Step)
    requires
        attribute == CURRENT_CATALOG ==> readable(text, units_in(string_length as int)),
    ensures
        match conn {
            None => r@ == StepView::Done(SqlReturn::INVALID_HANDLE),
            Some(c) => (final(c)@, r@) == set_step(
                c@.cleared(),
                attribute,
                set_plan(
                    c@,
                    cursors_open@.contains(true),
                    attribute,
                    value,
                    units_view(text),
                    string_length as int,
                ),
            ),
        },
{
    match conn {
        None => Step::Done(SqlReturn::INVALID_HANDLE),
        Some(c) => {
            c.diagnostics.clear();
            let pending = attribute == CURRENT_CATALOG && connection_has_result_set_pending(
                cursors_open,
            );
            match begin_set(c, pending, attribute, value, text, string_length) {
                Err(e) => Step::Done(settle(&mut c.diagnostics, Err(e))),
                Ok(Some(call)) => Step::Ask(call),
                Ok(None) => Step::Done(SqlReturn::SUCCESS),
            }
        },
    }
}

/// Takes the backend's answer to a request of [`sql_set_connect_attr_w`].
pub fn set_connect_attr_answered(
    conn: &mut ConnectionHandle,
    call: BackendCall,
    outcome: Result<(), OdbcError>,
) -> (r: SqlReturn)
    ensures
        (final(conn)@, r) == set_answered(old(conn)@, call@, answer(outcome)),
{
    match outcome {
        Err(e) => settle(&mut conn.diagnostics, Err(e)),
        Ok(_) => {
            match call {
                BackendCall::SetAccessMode(read_only) => store(
                    conn,
                    ACCESS_MODE,
                    if read_only {
                        SQL_MODE_READ_ONLY
                    } else {
                        SQL_MODE_READ_WRITE
                    },
                ),
                BackendCall::SetAutocommit(on) => store(
                    conn,
                    AUTOCOMMIT,
                    if on {
                        SQL_AUTOCOMMIT_ON
                    } else {
                        SQL_AUTOCOMMIT_OFF
                    },
                ),
                BackendCall::SetTxnIsolation(level) => store(conn, TXN_ISOLATION, level as usize),
                BackendCall::SetCurrentCatalog(catalog) => {
                    conn.catalog = Some(catalog);
                },
                _ => {},
            }
            SqlReturn::SUCCESS
        },
    }
}

/// Whether any statement of a connection has a result set open.
pub fn connection_has_result_set_pending(cursors_open: &[bool]) -> (r: bool)
    ensures
        r == cursors_open@.contains(true),
{
    for i in 0..cursors_open.len()
        invariant
            forall|j: int| 0 <= j < i ==> !cursors_open@[j],
    {
        if cursors_open[i] {
            assert(cursors_open@[i as int]);
            return true;
        }
    }
    false
}

// ---------------------------------------------------------------------------
// Reading an attribute
// ---------------------------------------------------------------------------

/// What reading an attribute comes to.
pub enum GetPlan {
    /// It is refused.
    Refuse(ErrorView),
    /// A `SQLUINTEGER`.
    Word(u32),
    /// A `SQLULEN`.
    Long(usize),
    /// A text.
    Text(Seq<char>),
}

/// The number kept for an attribute, or `default`.
pub open spec fn kept_or(c: ConnectionView, attribute: i32, default: usize) -> usize {
    if c.attrs.dom().contains(attribute) {
        c.attrs[attribute]
    } else {
        default
    }
}

/// The catalog in force: what the application set, else what the session uses.
pub open spec fn catalog_in_force(c: ConnectionView) -> Seq<char> {
    match (c.catalog, c.session) {
        (Some(catalog), _) => catalog,
        (None, Some(session)) => match session.current_catalog {
            Some(catalog) => catalog,
            None => Seq::empty(),
        },
        (None, None) => Seq::empty(),
    }
}

/// How an attribute shows in a message.
pub open spec fn attribute_text(attribute: i32) -> Seq<char> {
    "ConnectionAttribute("@ + decimal(attribute as int) + ")"@
}

/// What reading `attribute` of `c` comes to.
pub open spec fn get_plan(c: ConnectionView, attribute: i32) -> GetPlan {
    if attribute == ACCESS_MODE {
        GetPlan::Word(kept_or(c, attribute, SQL_MODE_READ_WRITE) as u32)
    } else if attribute == AUTOCOMMIT {
        GetPlan::Word(kept_or(c, attribute, SQL_AUTOCOMMIT_ON) as u32)
    } else if attribute == LOGIN_TIMEOUT || attribute == CONNECTION_TIMEOUT || attribute
        == PACKET_SIZE || attribute == TRANSLATE_OPTION || attribute == METADATA_ID {
        GetPlan::Word(kept_or(c, attribute, 0) as u32)
    } else if attribute == TRACE {
        GetPlan::Word(kept_or(c, attribute, SQL_OPT_TRACE_OFF) as u32)
    } else if attribute == TXN_ISOLATION {
        let declared: usize = match c.session {
            Some(session) => session.default_txn_isolation as usize,
            None => 0,
        };
        GetPlan::Word(kept_or(c, attribute, declared) as u32)
    } else if attribute == AUTO_IPD {
        GetPlan::Word(0)
    } else if attribute == CONNECTION_DEAD {
        GetPlan::Word(
            match c.session {
                Some(session) if session.connection_dead => SQL_CD_TRUE,
                _ => SQL_CD_FALSE,
            },
        )
    } else if attribute == ODBC_CURSORS {
        GetPlan::Long(kept_or(c, attribute, SQL_CUR_USE_DRIVER))
    } else if attribute == ASYNC_ENABLE {
        GetPlan::Long(kept_or(c, attribute, SQL_ASYNC_ENABLE_OFF))
    } else if attribute == CURRENT_CATALOG {
        GetPlan::Text(catalog_in_force(c))
    } else if is_defined(attribute) {
        GetPlan::Refuse(
            ErrorView::NotImplemented {
                feature: "SQLGetConnectAttrW attribute "@ + attribute_text(attribute),
            },
        )
    } else {
        GetPlan::Refuse(
            ErrorView::general(
                "SQLGetConnectAttrW: unknown attribute "@ + attribute_text(attribute),
                INVALID_ATTRIBUTE_OPTION_IDENTIFIER@,
            ),
        )
    }
}

/// What a value buffer receives.
pub enum AttrValue {
    /// A `SQLUINTEGER`.
    Word(u32),
    /// A `SQLULEN`.
    Long(usize),
    /// The start of a text, with its null terminator.
    Text(Vec<u16>),
}

/// What a read hands back to the application.
pub struct AttrAnswer {
    /// What the call returns.
    pub code: SqlReturn,
    /// What goes to the value buffer.
    pub value: Option<AttrValue>,
    /// What goes to the length buffer, in bytes.
    pub length: Option<i32>,
}

/// The failure for a buffer of negative length.
pub open spec fn bad_buffer(buffer_length: int) -> ErrorView {
    ErrorView::general(
        "Invalid buffer length: "@ + decimal(buffer_length),
        INVALID_STRING_OR_BUFFER_LENGTH@,
    )
}

impl AttrAnswer {
    /// This answers a read that comes to `plan`, on a handle whose diagnostics
    /// then are `queue`. `wanted` says whether there is a value buffer.
    pub open spec fn answers(
        self,
        plan: GetPlan,
        wanted: bool,
        buffer_length: int,
        queue: Seq<RecordView>,
    ) -> bool {
        match plan {
            GetPlan::Refuse(e) => self.refused(e, queue),
            GetPlan::Word(v) => {
                &&& self.code == SqlReturn::SUCCESS
                &&& self.value == (if wanted {
                    Some(AttrValue::Word(v))
                } else {
                    None
                })
                &&& self.length == Some(4i32)
                &&& queue.len() == 0
            },
            GetPlan::Long(v) => {
                &&& self.code == SqlReturn::SUCCESS
                &&& self.value == (if wanted {
                    Some(AttrValue::Long(v))
                } else {
                    None
                })
                &&& self.length == Some((usize::BITS / 8) as i32)
                &&& queue.len() == 0
            },
            GetPlan::Text(text) => if buffer_length < 0 {
                self.refused(bad_buffer(buffer_length), queue)
            } else {
                let units = encode16(text);
                let most = room(buffer_length);
                &&& self.code == (if wanted && kept(units.len() as int, most) < units.len() {
                    SqlReturn::SUCCESS_WITH_INFO
                } else {
                    SqlReturn::SUCCESS
                })
                &&& self.length == Some((small(units.len() as int) * 2) as i32)
                &&& queue == truncation_noted(Seq::empty(), self.code)
                &&& match (if wanted {
                    laid_out(units, most)
                } else {
                    None
                }) {
                    Some(w) => self.value matches Some(AttrValue::Text(v)) && v@ == w,
                    None => self.value is None,
                }
            },
        }
    }

    /// The read failed with `e`, which is the one record of `queue`.
    pub open spec fn refused(self, e: ErrorView, queue: Seq<RecordView>) -> bool {
        &&& self.code == e.sql_return()
        &&& self.value is None
        &&& self.length is None
        &&& queue == seq![record_of(e)]
    }
}

fn kept_number(conn: &ConnectionHandle, attribute: i32, default: usize) -> (r: usize)
    ensures
        r == kept_or(conn@, attribute, default),
{
    match conn.attrs.get(&attribute) {
        Some(v) => *v,
        None => default,
    }
}

fn word(wanted: bool, v: u32) -> (r: AttrAnswer)
    ensures
        r.answers(GetPlan::Word(v), wanted, 0, Seq::empty()),
{
    AttrAnswer {
        code: SqlReturn::SUCCESS,
        value: if wanted {
            Some(AttrValue::Word(v))
        } else {
            None
        },
        length: Some(4),
    }
}

fn long(wanted: bool, v: usize) -> (r: AttrAnswer)
    ensures
        r.answers(GetPlan::Long(v), wanted, 0, Seq::empty()),
{
    AttrAnswer {
        code: SqlReturn::SUCCESS,
        value: if wanted {
            Some(AttrValue::Long(v))
        } else {
            None
        },
        length: Some((usize::BITS / 8) as i32),
    }
}

/// The catalog in force.
fn current_catalog(conn: &ConnectionHandle) -> (r: String)
    ensures
        r@ == catalog_in_force(conn@),
{
    match &conn.catalog {
        Some(catalog) => catalog.clone(),
        None => match &conn.connection {
            Some(session) => match &session.current_catalog {
                Some(catalog) => catalog.clone(),
                None => String::new(),
            },
            None => String::new(),
        },
    }
}

fn show_attribute(before: &str, attribute: i32) -> (r: String)
    ensures
        r@ == before@ + attribute_text(attribute),
{
    let number = crate::text::decimal_of(attribute as i64);
    let shown = join3("ConnectionAttribute(", number.as_str(), ")");
    join2(before, shown.as_str())
}

/// The `01004` and `HY090` half of a read: a text for a buffer of
/// `buffer_length` bytes.
fn text_answer(conn: &mut ConnectionHandle, text: &str, wanted: bool, buffer_length: i32) -> (r:
    AttrAnswer)
    requires
        old(conn)@.queue == Seq::<RecordView>::empty(),
    ensures
        r.answers(GetPlan::Text(text@), wanted, buffer_length as int, final(conn)@.queue),
        final(conn)@ == (ConnectionView { queue: final(conn)@.queue, ..old(conn)@ }),
{
    if buffer_length < 0 {
        let number = crate::text::decimal_of(buffer_length as i64);
        let e = OdbcError::general(
            join2("Invalid buffer length: ", number.as_str()).as_str(),
            SqlState::invalid_string_or_buffer_length(),
        );
        let code = settle(&mut conn.diagnostics, Err(e));
        assert(conn@.queue == seq![record_of(bad_buffer(buffer_length as int))]);
        return AttrAnswer { code, value: None, length: None };
    }
    let written = write_utf16(text, wanted, room_in(buffer_length));
    let code = note_truncation(written.code, &mut conn.diagnostics);
    AttrAnswer {
        code,
        value: match written.units {
            Some(units) => Some(AttrValue::Text(units)),
            None => None,
        },
        length: Some(written.length as i32 * 2),
    }
}

/// `SQLGetConnectAttrW`: reads an attribute of a connection.
///
/// `wanted` says whether there is a value buffer, `buffer_length` how many
/// bytes it has; only a text looks at that.
pub fn sql_get_connect_attr_w(
    conn: Option<&mut ConnectionHandle>,
    attribute: i32,
    wanted: bool,
    buffer_length: i32,
) -> (r: AttrAnswer)
    ensures
        match conn {
            None => r.code == SqlReturn::INVALID_HANDLE && r.value is None && r.length is None,
            Some(c) => {
                &&& r.answers(
                    get_plan(c@, attribute),
                    wanted,
                    buffer_length as int,
                    final(c)@.queue,
                )
                &&& final(c)@ == (ConnectionView { queue: final(c)@.queue, ..c@ })
            },
        },
{
    let conn = match conn {
        None => {
            return AttrAnswer { code: SqlReturn::INVALID_HANDLE, value: None, length: None };
        },
        Some(c) => c,
    };
    conn.diagnostics.clear();
    if attribute == ACCESS_MODE {
        return word(wanted, kept_number(conn, attribute, SQL_MODE_READ_WRITE) as u32);
    }
    if attribute == AUTOCOMMIT {
        return word(wanted, kept_number(conn, attribute, SQL_AUTOCOMMIT_ON) as u32);
    }
    if attribute == LOGIN_TIMEOUT || attribute == CONNECTION_TIMEOUT || attribute == PACKET_SIZE
        || attribute == TRANSLATE_OPTION || attribute == METADATA_ID {
        return word(wanted, kept_number(conn, attribute, 0) as u32);
    }
    if attribute == TRACE {
        return word(wanted, kept_number(conn, attribute, SQL_OPT_TRACE_OFF) as u32);
    }
    if attribute == TXN_ISOLATION {
        let declared: usize = match &conn.connection {
            Some(session) => session.default_txn_isolation as usize,
            None => 0,
        };
        return word(wanted, kept_number(conn, attribute, declared) as u32);
    }
    if attribute == AUTO_IPD {
        return word(wanted, 0);
    }
    if attribute == CONNECTION_DEAD {
        let dead = match &conn.connection {
            Some(session) => session.connection_dead,
            None => false,
        };
        return word(
            wanted,
            if dead {
                SQL_CD_TRUE
            } else {
                SQL_CD_FALSE
            },
        );
    }
    if attribute == ODBC_CURSORS {
        return long(wanted, kept_number(conn, attribute, SQL_CUR_USE_DRIVER));
    }
    if attribute == ASYNC_ENABLE {
        return long(wanted, kept_number(conn, attribute, SQL_ASYNC_ENABLE_OFF));
    }
    if attribute == CURRENT_CATALOG {
        let catalog = current_catalog(conn);
        return text_answer(conn, catalog.as_str(), wanted, buffer_length);
    }
    let e = if defined(attribute) {
        OdbcError::not_implemented(
            show_attribute("SQLGetConnectAttrW attribute ", attribute).as_str(),
        )
    } else {
        OdbcError::general(
            show_attribute("SQLGetConnectAttrW: unknown attribute ", attribute).as_str(),
            SqlState::invalid_attribute_option_identifier(),
        )
    };
    let code = settle(&mut conn.diagnostics, Err(e));
    AttrAnswer { code, value: None, length: None }
}

// ---------------------------------------------------------------------------
// Attributes set before the connection was open
// ---------------------------------------------------------------------------

/// The attributes that have to reach the backend once there is a connection,
/// in the order in which they do.
#[derive(Clone, Copy, PartialEq, Eq, Structural, Debug)]
pub enum Pending {
    Autocommit,
    TxnIsolation,
    AccessMode,
    CurrentCatalog,
    Finished,
}

/// How many stages are left.
pub open spec fn stages_left(from: Pending) -> int {
    match from {
        Pending::Autocommit => 4,
        Pending::TxnIsolation => 3,
        Pending::AccessMode => 2,
        Pending::CurrentCatalog => 1,
        Pending::Finished => 0,
    }
}

/// The next request an open connection owes the attributes set before it was,
/// from `from` on, and what is owed after that; or why one cannot be met.
pub open spec fn next_pending(c: ConnectionView, from: Pending) -> Result<
    Option<(CallView, Pending)>,
    ErrorView,
>
    decreases stages_left(from),
{
    match from {
        Pending::Autocommit => if c.session is Some && c.attrs.dom().contains(AUTOCOMMIT) {
            Ok(
                Some(
                    (
                        CallView::SetAutocommit(c.attrs[AUTOCOMMIT] == SQL_AUTOCOMMIT_ON),
                        Pending::TxnIsolation,
                    ),
                ),
            )
        } else {
            next_pending(c, Pending::TxnIsolation)
        },
        Pending::TxnIsolation => if c.session is Some && c.attrs.dom().contains(TXN_ISOLATION) {
            let level = c.attrs[TXN_ISOLATION] as u32;
            match isolation_refusal(options_of(c.session), level) {
                Some(e) => Err(e),
                None => Ok(Some((CallView::SetTxnIsolation(level), Pending::AccessMode))),
            }
        } else {
            next_pending(c, Pending::AccessMode)
        },
        Pending::AccessMode => if c.session is Some && c.attrs.dom().contains(ACCESS_MODE) {
            Ok(
                Some(
                    (
                        CallView::SetAccessMode(c.attrs[ACCESS_MODE] == SQL_MODE_READ_ONLY),
                        Pending::CurrentCatalog,
                    ),
                ),
            )
        } else {
            next_pending(c, Pending::CurrentCatalog)
        },
        Pending::CurrentCatalog => match c.catalog {
            Some(catalog) if c.session is Some => Ok(
                Some((CallView::SetCurrentCatalog(catalog), Pending::Finished)),
            ),
            _ => Ok(None),
        },
        Pending::Finished => Ok(None),
    }
}

/// The next request an open connection owes the attributes set before it was.
/// What was set early was checked only as far as it can be without a
/// connection, so an isolation level is checked against the data source here.
pub fn apply_pending_connect_attrs(conn: &ConnectionHandle, from: Pending) -> (r: Result<
    Option<(BackendCall, Pending)>,
    OdbcError,
>)
    ensures
        match r {
            Err(e) => next_pending(conn@, from) == Err::<Option<(CallView, Pending)>, ErrorView>(
                e@,
            ),
            Ok(None) => next_pending(conn@, from) == Ok::<Option<(CallView, Pending)>, ErrorView>(
                None,
            ),
            Ok(Some((call, rest))) => next_pending(conn@, from) == Ok::<
                Option<(CallView, Pending)>,
                ErrorView,
            >(Some((call@, rest))),
        },
{
    proof {
        reveal_with_fuel(next_pending, 5);
    }
    let session = match &conn.connection {
        Some(session) => session,
        None => {
            return Ok(None);
        },
    };
    if from == Pending::Autocommit {
        if let Some(v) = conn.attrs.get(&AUTOCOMMIT) {
            return Ok(
                Some((BackendCall::SetAutocommit(*v == SQL_AUTOCOMMIT_ON), Pending::TxnIsolation)),
            );
        }
    }
    if from == Pending::Autocommit || from == Pending::TxnIsolation {
        if let Some(v) = conn.attrs.get(&TXN_ISOLATION) {
            let level: u32 = *v as u32;
            validate_txn_isolation(Some(session.txn_isolation_options), level)?;
            return Ok(Some((BackendCall::SetTxnIsolation(level), Pending::AccessMode)));
        }
    }
    if from == Pending::Autocommit || from == Pending::TxnIsolation || from == Pending::AccessMode {
        if let Some(v) = conn.attrs.get(&ACCESS_MODE) {
            return Ok(
                Some(
                    (
                        BackendCall::SetAccessMode(*v == SQL_MODE_READ_ONLY),
                        Pending::CurrentCatalog,
                    ),
                ),
            );
        }
    }
    if from != Pending::Finished {
        if let Some(catalog) = &conn.catalog {
            return Ok(
                Some((BackendCall::SetCurrentCatalog(catalog.clone()), Pending::Finished)),
            );
        }
    }
    Ok(None)
}

/// A timeout the application set, where it is one: a number that does not fit
/// is dropped, not cut.
pub open spec fn timeout_of(c: ConnectionView, attribute: i32) -> Option<u32> {
    if c.attrs.dom().contains(attribute) && c.attrs[attribute] <= u32::MAX {
        Some(c.attrs[attribute] as u32)
    } else {
        None
    }
}

fn read_timeout(conn: &ConnectionHandle, attribute: i32) -> (r: Option<u32>)
    ensures
        r == timeout_of(conn@, attribute),
{
    match conn.attrs.get(&attribute) {
        Some(v) => if *v as u64 <= u32::MAX as u64 {
            Some(*v as u32)
        } else {
            None
        },
        None => None,
    }
}

/// The parameters with the timeouts of the handle: they are set as attributes,
/// not in the connection string, and the backend sees only the parameters.
pub open spec fn with_timeouts(c: ConnectionView, p: ParamsView) -> ParamsView {
    ParamsView {
        login_timeout: timeout_of(c, LOGIN_TIMEOUT),
        connection_timeout: timeout_of(c, CONNECTION_TIMEOUT),
        ..p
    }
}

/// Copies the timeouts the backend may need into the parameters it is given.
pub fn carry_connect_timeouts(conn: &ConnectionHandle, params: &mut ConnectParams)
    ensures
        final(params)@ == with_timeouts(conn@, old(params)@),
{
    let login = read_timeout(conn, LOGIN_TIMEOUT);
    let connection = read_timeout(conn, CONNECTION_TIMEOUT);
    params.set_timeouts(login, connection);
}

// ---------------------------------------------------------------------------
// Laws
// ---------------------------------------------------------------------------

/// A number that was set is the number read, at the width of the attribute. A
/// `SQLUINTEGER` attribute reads back what fits in one.
pub proof fn law_kept_numbers_read_back(
    c: ConnectionView,
    pending: bool,
    attribute: i32,
    value: usize,
    text: Option<Seq<u16>>,
    length: int,
)
    requires
        set_plan(c, pending, attribute, value, text, length) == SetPlan::Store(value),
        value <= u32::MAX,
    ensures
        get_plan(stored(c, attribute, value), attribute) == (if attribute == ODBC_CURSORS
            || attribute == ASYNC_ENABLE {
            GetPlan::Long(value)
        } else {
            GetPlan::Word(value as u32)
        }),
{
}

/// What the backend agreed to is what is read: each of the four attributes it
/// is asked about reads back after its consent.
pub proof fn law_agreed_values_read_back(c: ConnectionView, call: CallView)
    ensures
        ({
            let after = set_answered(c, call, Ok(())).0;
            match call {
                CallView::SetAccessMode(read_only) => get_plan(after, ACCESS_MODE)
                    == GetPlan::Word(
                    if read_only {
                        1u32
                    } else {
                        0u32
                    },
                ),
                CallView::SetAutocommit(on) => get_plan(after, AUTOCOMMIT) == GetPlan::Word(
                    if on {
                        1u32
                    } else {
                        0u32
                    },
                ),
                CallView::SetTxnIsolation(level) => get_plan(after, TXN_ISOLATION)
                    == GetPlan::Word(level),
                CallView::SetCurrentCatalog(catalog) => get_plan(after, CURRENT_CATALOG)
                    == GetPlan::Text(catalog),
                _ => after == c,
            }
        }),
{
}

/// A value that is refused, by the driver or by the backend, leaves every
/// attribute as it was.
pub proof fn law_refused_values_are_not_kept(
    c: ConnectionView,
    attribute: i32,
    e: ErrorView,
    call: CallView,
    read: i32,
)
    ensures
        get_plan(set_step(c, attribute, SetPlan::Refuse(e)).0, read) == get_plan(c, read),
        get_plan(set_answered(c, call, Err(e)).0, read) == get_plan(c, read),
{
}

/// Every attribute that is kept, now or once the backend agrees, can be read.
pub proof fn law_every_kept_attribute_is_readable(
    c: ConnectionView,
    pending: bool,
    attribute: i32,
    value: usize,
    text: Option<Seq<u16>>,
    length: int,
)
    requires
        ({
            let plan = set_plan(c, pending, attribute, value, text, length);
            plan is Store || plan is StoreCatalog || plan is Ask
        }),
    ensures
        forall|later: ConnectionView| !(#[trigger] get_plan(later, attribute) is Refuse),
{
}

/// Every request from `from` on, where each is granted: none after the first
/// that cannot be made.
pub open spec fn requests_from(c: ConnectionView, from: Pending) -> Seq<CallView>
    decreases stages_left(from),
{
    match next_pending(c, from) {
        Ok(Some((call, rest))) => if stages_left(rest) < stages_left(from) {
            seq![call] + requests_from(c, rest)
        } else {
            seq![call]
        },
        _ => Seq::empty(),
    }
}

/// An attribute set before the connection reaches the backend when it opens:
/// the requests are those for the values that were set, in their order, and no
/// other. Only an isolation level the data source cannot run at ends them early.
pub proof fn law_early_values_reach_the_backend(c: ConnectionView)
    requires
        c.session is Some,
    ensures
        ({
            let autocommit = if c.attrs.dom().contains(AUTOCOMMIT) {
                seq![CallView::SetAutocommit(c.attrs[AUTOCOMMIT] == SQL_AUTOCOMMIT_ON)]
            } else {
                Seq::empty()
            };
            let isolation = if c.attrs.dom().contains(TXN_ISOLATION) {
                seq![CallView::SetTxnIsolation(c.attrs[TXN_ISOLATION] as u32)]
            } else {
                Seq::empty()
            };
            let access = if c.attrs.dom().contains(ACCESS_MODE) {
                seq![CallView::SetAccessMode(c.attrs[ACCESS_MODE] == SQL_MODE_READ_ONLY)]
            } else {
                Seq::empty()
            };
            let catalog = match c.catalog {
                Some(catalog) => seq![CallView::SetCurrentCatalog(catalog)],
                None => Seq::empty(),
            };
            let refusal = if c.attrs.dom().contains(TXN_ISOLATION) {
                isolation_refusal(options_of(c.session), c.attrs[TXN_ISOLATION] as u32)
            } else {
                None
            };
            match refusal {
                None => requests_from(c, Pending::Autocommit) == autocommit + isolation + access
                    + catalog,
                Some(e) => {
                    &&& requests_from(c, Pending::Autocommit) == autocommit
                    &&& next_pending(c, Pending::TxnIsolation) == Err::<
                        Option<(CallView, Pending)>,
                        ErrorView,
                    >(e)
                },
            }
        }),
{
    reveal_with_fuel(next_pending, 5);
    reveal_with_fuel(requests_from, 5);
    let catalog = match c.catalog {
        Some(catalog) => seq![CallView::SetCurrentCatalog(catalog)],
        None => Seq::empty(),
    };
    assert(requests_from(c, Pending::Finished) =~= Seq::<CallView>::empty());
    assert(requests_from(c, Pending::CurrentCatalog) =~= catalog);
    let access = if c.attrs.dom().contains(ACCESS_MODE) {
        seq![CallView::SetAccessMode(c.attrs[ACCESS_MODE] == SQL_MODE_READ_ONLY)]
    } else {
        Seq::empty()
    };
    assert(requests_from(c, Pending::AccessMode) =~= access + catalog);
    let isolation = if c.attrs.dom().contains(TXN_ISOLATION) {
        seq![CallView::SetTxnIsolation(c.attrs[TXN_ISOLATION] as u32)]
    } else {
        Seq::empty()
    };
    let autocommit = if c.attrs.dom().contains(AUTOCOMMIT) {
        seq![CallView::SetAutocommit(c.attrs[AUTOCOMMIT] == SQL_AUTOCOMMIT_ON)]
    } else {
        Seq::empty()
    };
    if c.attrs.dom().contains(TXN_ISOLATION) && isolation_refusal(
        options_of(c.session),
        c.attrs[TXN_ISOLATION] as u32,
    ) is Some {
        assert(requests_from(c, Pending::TxnIsolation) =~= Seq::<CallView>::empty());
        assert(requests_from(c, Pending::Autocommit) =~= autocommit);
    } else {
        assert(requests_from(c, Pending::TxnIsolation) =~= isolation + access + catalog);
        assert(requests_from(c, Pending::Autocommit) =~= autocommit + isolation + access
            + catalog);
    }
}

/// Setting an attribute on an open connection asks the backend for the value
/// given, and once it agrees that value is the one read.
pub proof fn law_a_value_agreed_to_is_the_value_given(
    c: ConnectionView,
    pending: bool,
    attribute: i32,
    value: usize,
    text: Option<Seq<u16>>,
    length: int,
)
    requires
        attribute == ACCESS_MODE || attribute == AUTOCOMMIT || attribute == TXN_ISOLATION,
        set_plan(c, pending, attribute, value, text, length) is Ask,
    ensures
        set_plan(c, pending, attribute, value, text, length) matches SetPlan::Ask(call) && {
            let (after, code) = set_answered(c, call, Ok(()));
            &&& code == SqlReturn::SUCCESS
            &&& value <= u32::MAX
            &&& get_plan(after, attribute) == GetPlan::Word(value as u32)
            &&& after.attrs.dom().contains(attribute) && after.attrs[attribute] == value
        },
{
}

/// The backend is told what was asked for: manual commit for 0 and automatic for
/// 1, reading and writing for 0 and reading alone for 1, and the isolation level
/// by its number.
pub proof fn law_the_backend_is_told_what_was_asked(
    c: ConnectionView,
    pending: bool,
    text: Option<Seq<u16>>,
    length: int,
    level: u32,
)
    requires
        c.session matches Some(session) && level & session.txn_isolation_options != 0,
        names_one_level(level),
        !c.txn_dirty,
    ensures
        ({
            let plan = |attribute: i32, value: usize|
                set_plan(c, pending, attribute, value, text, length);
            &&& plan(AUTOCOMMIT, 0) == SetPlan::Ask(CallView::SetAutocommit(false))
            &&& plan(AUTOCOMMIT, 1) == SetPlan::Ask(CallView::SetAutocommit(true))
            &&& plan(ACCESS_MODE, 0) == SetPlan::Ask(CallView::SetAccessMode(false))
            &&& plan(ACCESS_MODE, 1) == SetPlan::Ask(CallView::SetAccessMode(true))
            &&& plan(TXN_ISOLATION, level as usize) == SetPlan::Ask(
                CallView::SetTxnIsolation(level),
            )
        }),
{
}

/// A catalog that was passed is the one read: by its length in bytes or up to its
/// null terminator, at once before there is a connection, and afterwards once the
/// backend agrees to it.
pub proof fn law_a_catalog_reads_back(
    c: ConnectionView,
    name: Seq<char>,
    value: usize,
    behind: Seq<u16>,
    terminated: bool,
)
    requires
        terminated ==> !name.contains('\0') && encode16(name).len() < 1048576,
    ensures
        ({
            let units = encode16(name);
            let plan = if terminated {
                set_plan(
                    c,
                    false,
                    CURRENT_CATALOG,
                    value,
                    Some(units + seq![0u16] + behind),
                    -3,
                )
            } else {
                set_plan(
                    c,
                    false,
                    CURRENT_CATALOG,
                    value,
                    Some(units + behind),
                    2 * units.len() as int,
                )
            };
            if c.session is Some {
                &&& plan == SetPlan::Ask(CallView::SetCurrentCatalog(name))
                &&& get_plan(
                    set_answered(c, CallView::SetCurrentCatalog(name), Ok(())).0,
                    CURRENT_CATALOG,
                ) == GetPlan::Text(name)
            } else {
                &&& plan == SetPlan::StoreCatalog(name)
                &&& get_plan(set_step(c, CURRENT_CATALOG, plan).0, CURRENT_CATALOG)
                    == GetPlan::Text(name)
            }
        }),
{
    crate::utf16::law_a_text_passed_is_the_text_received(name, behind);
}

/// A catalog is not changed while a result set is pending, and not by a text that
/// is not there.
pub proof fn law_a_catalog_needs_a_text_and_no_result_set(
    c: ConnectionView,
    value: usize,
    text: Option<Seq<u16>>,
    length: int,
)
    ensures
        set_plan(c, true, CURRENT_CATALOG, value, text, length) matches SetPlan::Refuse(e)
            && e.sqlstate() == "24000"@,
        set_plan(c, false, CURRENT_CATALOG, value, None, length) matches SetPlan::Refuse(e)
            && e.sqlstate() == "HY009"@,
        length < 0 && length != -3 && text is Some ==> (set_plan(
            c,
            false,
            CURRENT_CATALOG,
            value,
            text,
            length,
        ) matches SetPlan::Refuse(e) && e.sqlstate() == "HY090"@),
{
}

/// A number that is kept touches the attribute it was set for and no other.
pub proof fn law_attributes_are_kept_apart(
    c: ConnectionView,
    attribute: i32,
    value: usize,
    other: i32,
)
    requires
        other != attribute,
    ensures
        get_plan(stored(c, attribute, value), other) == get_plan(c, other),
        stored(c, attribute, value).session == c.session,
        stored(c, attribute, value).catalog == c.catalog,
        stored(c, attribute, value).browse == c.browse,
        stored(c, attribute, value).queue == c.queue,
{
}

/// The attributes that take a few values only take just these, connected or not.
pub proof fn law_discrete_attributes_take_their_values_only(
    c: ConnectionView,
    pending: bool,
    value: usize,
    text: Option<Seq<u16>>,
    length: int,
)
    ensures
        ({
            let refused = |attribute: i32|
                set_plan(c, pending, attribute, value, text, length) is Refuse;
            let state = |attribute: i32|
                set_plan(c, pending, attribute, value, text, length)->Refuse_0.sqlstate();
            &&& refused(ACCESS_MODE) == (value > 1)
            &&& refused(AUTOCOMMIT) == (value > 1)
            &&& refused(TRACE) == (value > 1)
            &&& refused(ODBC_CURSORS) == (value > 2)
            &&& refused(ASYNC_ENABLE) == (value != 0)
            &&& value > 2 ==> state(ACCESS_MODE) == "HY024"@ && state(AUTOCOMMIT) == "HY024"@
                && state(TRACE) == "HY024"@ && state(ODBC_CURSORS) == "HY024"@ && state(
                ASYNC_ENABLE,
            ) == "HYC00"@
            &&& value <= 1 ==> set_plan(c, pending, TRACE, value, text, length) == SetPlan::Store(
                value,
            )
            &&& value <= 2 ==> set_plan(c, pending, ODBC_CURSORS, value, text, length)
                == SetPlan::Store(value)
        }),
{
}

/// Timeouts, packet sizes and the like are kept whatever their number; a packet
/// size only before there is a connection.
pub proof fn law_plain_numbers_are_kept(
    c: ConnectionView,
    pending: bool,
    attribute: i32,
    value: usize,
    text: Option<Seq<u16>>,
    length: int,
)
    requires
        attribute == LOGIN_TIMEOUT || attribute == CONNECTION_TIMEOUT || attribute
            == TRANSLATE_OPTION || attribute == METADATA_ID || attribute == PACKET_SIZE,
    ensures
        attribute != PACKET_SIZE || c.session is None ==> set_plan(
            c,
            pending,
            attribute,
            value,
            text,
            length,
        ) == SetPlan::Store(value),
        attribute == PACKET_SIZE && c.session is Some ==> (set_plan(
            c,
            pending,
            attribute,
            value,
            text,
            length,
        ) matches SetPlan::Refuse(e) && e.sqlstate() == "HY011"@),
{
}

/// An isolation level is taken just where no transaction is open, it is one bit,
/// and the data source, if there is one, can run at it.
pub proof fn law_an_isolation_level_is_one_that_the_source_has(
    c: ConnectionView,
    pending: bool,
    bit: u32,
    level: u32,
    text: Option<Seq<u16>>,
    length: int,
)
    requires
        bit < 32,
        level == 1u32 << bit,
    ensures
        ({
            let plan = set_plan(c, pending, TXN_ISOLATION, level as usize, text, length);
            let has_it = c.session matches Some(session) ==> (session.txn_isolation_options >> bit)
                & 1 == 1;
            &&& (plan is Refuse) == (c.txn_dirty || !has_it)
            &&& c.txn_dirty ==> plan->Refuse_0.sqlstate() == "HY011"@
            &&& !c.txn_dirty && !has_it ==> plan->Refuse_0.sqlstate() == "HY024"@
            &&& !(plan is Refuse) && c.session is None ==> plan == SetPlan::Store(level as usize)
        }),
{
    assert(bit < 32 && level == 1u32 << bit ==> level != 0 && level & ((level - 1) as u32) == 0)
        by (bit_vector);
    if let Some(session) = c.session {
        let options = session.txn_isolation_options;
        assert(bit < 32 && level == 1u32 << bit ==> (level & options == 0) == ((options >> bit) & 1
            == 0)) by (bit_vector);
        assert((options >> bit) & 1 == 0 || (options >> bit) & 1 == 1) by (bit_vector);
    }
}

/// A value with no bit or with more than one names no level and is refused.
pub proof fn law_several_levels_are_none(
    c: ConnectionView,
    pending: bool,
    level: u32,
    i: u32,
    j: u32,
    text: Option<Seq<u16>>,
    length: int,
)
    requires
        !c.txn_dirty,
        level == 0 || (i < j < 32 && (level >> i) & 1 == 1 && (level >> j) & 1 == 1),
    ensures
        set_plan(c, pending, TXN_ISOLATION, level as usize, text, length) matches SetPlan::Refuse(e)
            && e.sqlstate() == "HY024"@,
{
    if names_one_level(level) {
        law_one_level_is_one_bit(level, i, j);
    }
}

/// An open transaction ends when autocommit is switched on, and only then.
pub proof fn law_autocommit_ends_the_transaction(c: ConnectionView, attribute: i32, value: usize)
    ensures
        stored(c, attribute, value).txn_dirty == (c.txn_dirty && !(attribute == AUTOCOMMIT && value
            == 1)),
        set_answered(c, CallView::SetAutocommit(true), Ok(())).0.txn_dirty == false,
        set_answered(c, CallView::SetAutocommit(false), Ok(())).0.txn_dirty == c.txn_dirty,
{
}

/// What was never set reads as its default: automatic commit, reading and writing,
/// the driver's own cursors, and otherwise nothing; of the isolation level and the
/// catalog what the session has, where there is one.
pub proof fn law_what_was_never_set_reads_as_its_default(c: ConnectionView, attribute: i32)
    requires
        !c.attrs.dom().contains(attribute),
    ensures
        attribute == AUTOCOMMIT ==> get_plan(c, attribute) == GetPlan::Word(1),
        attribute == ACCESS_MODE || attribute == LOGIN_TIMEOUT || attribute == CONNECTION_TIMEOUT
            || attribute == PACKET_SIZE || attribute == TRANSLATE_OPTION || attribute == METADATA_ID
            || attribute == TRACE || attribute == AUTO_IPD ==> get_plan(c, attribute)
            == GetPlan::Word(0),
        attribute == ODBC_CURSORS ==> get_plan(c, attribute) == GetPlan::Long(2),
        attribute == ASYNC_ENABLE ==> get_plan(c, attribute) == GetPlan::Long(0),
        attribute == TXN_ISOLATION ==> get_plan(c, attribute) == GetPlan::Word(
            match c.session {
                Some(session) => session.default_txn_isolation,
                None => 0,
            },
        ),
        c.catalog is None ==> get_plan(c, CURRENT_CATALOG) == GetPlan::Text(
            match c.session {
                Some(session) => match session.current_catalog {
                    Some(name) => name,
                    None => Seq::empty(),
                },
                None => Seq::empty(),
            },
        ),
        get_plan(c, CONNECTION_DEAD) == GetPlan::Word(
            if c.session matches Some(session) && session.connection_dead {
                1
            } else {
                0
            },
        ),
{
}

/// An attribute that is not one of ODBC's is accepted and changes nothing, and
/// cannot be read.
pub proof fn law_foreign_attributes_are_accepted_and_not_kept(
    c: ConnectionView,
    pending: bool,
    attribute: i32,
    value: usize,
    text: Option<Seq<u16>>,
    length: int,
)
    requires
        !is_defined(attribute),
    ensures
        set_step(
            c,
            attribute,
            set_plan(c, pending, attribute, value, text, length),
        ) == (c, StepView::Done(SqlReturn::SUCCESS)),
        get_plan(c, attribute) matches GetPlan::Refuse(e) && e.sqlstate() == "HY092"@,
{
}

/// An attribute of ODBC's either is read or is not supported; it is never unknown.
pub proof fn law_defined_attributes_are_known(c: ConnectionView, attribute: i32)
    requires
        is_defined(attribute),
    ensures
        get_plan(c, attribute) matches GetPlan::Refuse(e) ==> e.sqlstate() == "HYC00"@,
{
}

/// A timeout that was set reaches the backend with the parameters, each under its
/// own name, and one that does not fit is dropped.
pub proof fn law_timeouts_reach_the_backend(
    c: ConnectionView,
    p: ParamsView,
    login: usize,
    connection: usize,
)
    ensures
        ({
            let fits = |n: usize|
                if n <= u32::MAX {
                    Some(n as u32)
                } else {
                    None::<u32>
                };
            let set = stored(stored(c, LOGIN_TIMEOUT, login), CONNECTION_TIMEOUT, connection);
            let with = with_timeouts(set, p);
            &&& with.login_timeout == fits(login)
            &&& with.connection_timeout == fits(connection)
            &&& with.pairs == p.pairs && with.sensitive == p.sensitive
        }),
        c.attrs == Map::<i32, usize>::empty() ==> with_timeouts(c, p).login_timeout is None
            && with_timeouts(c, p).connection_timeout is None,
{
}

/// A text that is read goes to the buffer with its terminator as far as it fits,
/// and its whole length in bytes is reported; a cut one leaves a record.
pub proof fn law_a_text_that_is_read_reports_its_whole_length(
    r: AttrAnswer,
    text: Seq<char>,
    buffer_length: int,
    queue: Seq<RecordView>,
)
    requires
        r.answers(GetPlan::Text(text), true, buffer_length, queue),
        2 <= buffer_length <= 65535,
        encode16(text).len() < 32767,
    ensures
        ({
            let all = encode16(text);
            &&& r.length == Some((2 * all.len()) as i32)
            &&& r.value matches Some(AttrValue::Text(v)) && {
                &&& 2 * v@.len() <= buffer_length
                &&& v@.last() == 0
                &&& v@.drop_last() == all.take(v@.len() - 1)
                &&& (r.code == SqlReturn::SUCCESS) == (v@.len() == all.len() + 1)
            }
            &&& (r.code == SqlReturn::SUCCESS) == (2 * (all.len() + 1) <= buffer_length)
            &&& r.code == SqlReturn::SUCCESS ==> queue.len() == 0
            &&& r.code != SqlReturn::SUCCESS ==> r.code == SqlReturn::SUCCESS_WITH_INFO
                && queue.len() == 1 && queue[0].sqlstate == "01004"@
        }),
{
    let all = encode16(text);
    let k = kept(all.len() as int, room(buffer_length));
    assert(all.take(k).push(0).drop_last() == all.take(k));
    assert(all.take(all.len() as int) == all);
}

/// A value that is refused, by the driver or by the backend, changes nothing and leaves
/// one record with the state of the refusal.
pub proof fn law_a_refused_value_leaves_a_record(
    c: ConnectionView,
    attribute: i32,
    call: CallView,
    message: Seq<char>,
    state: Seq<char>,
)
    ensures
        ({
            let e = ErrorView::general(message, state);
            let (after, step) = set_step(c, attribute, SetPlan::Refuse(e));
            let (late, code) = set_answered(c, call, Err(e));
            &&& step == StepView::Done(SqlReturn::ERROR)
            &&& code == SqlReturn::ERROR
            &&& late == after
            &&& after.queue.len() == c.queue.len() + 1
            &&& after.queue.take(c.queue.len() as int) == c.queue
            &&& after.queue.last().sqlstate == state
            &&& after == (ConnectionView { queue: after.queue, ..c })
        }),
{
    let e = ErrorView::general(message, state);
    let after = set_step(c, attribute, SetPlan::Refuse(e)).0;
    assert(after.queue.take(c.queue.len() as int) =~= c.queue);
}

/// What can not be set at all is refused with its own state.
pub proof fn law_what_cannot_be_set(
    c: ConnectionView,
    pending: bool,
    value: usize,
    text: Option<Seq<u16>>,
    length: int,
)
    ensures
        set_plan(c, pending, ENLIST_IN_DTC, value, text, length) matches SetPlan::Refuse(e)
            && e.sqlstate() == "HYC00"@,
        set_plan(c, pending, CONNECTION_DEAD, value, text, length) matches SetPlan::Refuse(e)
            && e.sqlstate() == "HY024"@,
        value > u32::MAX && !c.txn_dirty ==> (set_plan(
            c,
            pending,
            TXN_ISOLATION,
            value,
            text,
            length,
        ) matches SetPlan::Refuse(e) && e.sqlstate() == "HY024"@),
{
}

/// A number that was kept is written to the place given, with its size in bytes, and
/// only the size is reported where there is no place for it.
pub proof fn law_a_number_kept_is_the_number_written(
    c: ConnectionView,
    attribute: i32,
    value: u32,
    answer: AttrAnswer,
    wanted: bool,
    buffer_length: int,
    queue: Seq<RecordView>,
)
    requires
        attribute == ACCESS_MODE || attribute == AUTOCOMMIT || attribute == LOGIN_TIMEOUT
            || attribute == CONNECTION_TIMEOUT || attribute == PACKET_SIZE || attribute
            == TRANSLATE_OPTION || attribute == METADATA_ID || attribute == TRACE || attribute
            == TXN_ISOLATION || attribute == ODBC_CURSORS || attribute == ASYNC_ENABLE,
        answer.answers(
            get_plan(stored(c, attribute, value as usize), attribute),
            wanted,
            buffer_length,
            queue,
        ),
    ensures
        answer.code == SqlReturn::SUCCESS,
        queue.len() == 0,
        !wanted ==> answer.value is None,
        attribute != ODBC_CURSORS && attribute != ASYNC_ENABLE ==> {
            &&& answer.length == Some(4i32)
            &&& wanted ==> answer.value == Some(AttrValue::Word(value))
        },
        attribute == ODBC_CURSORS || attribute == ASYNC_ENABLE ==> {
            &&& answer.length is Some && answer.length->0 * 8 == usize::BITS
            &&& wanted ==> answer.value == Some(AttrValue::Long(value as usize))
        },
{
}

/// An attribute that cannot be read is answered with an error, nothing written, and one
/// record.
pub proof fn law_what_cannot_be_read(
    c: ConnectionView,
    attribute: i32,
    answer: AttrAnswer,
    wanted: bool,
    buffer_length: int,
    queue: Seq<RecordView>,
)
    requires
        !is_defined(attribute),
        answer.answers(get_plan(c, attribute), wanted, buffer_length, queue),
    ensures
        answer.code == SqlReturn::ERROR,
        answer.value is None,
        answer.length is None,
        queue.len() == 1,
        queue[0].sqlstate == "HY092"@,
{
}

} // verus!
