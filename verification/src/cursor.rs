//! Cursors and result sets: `SQLNumResultCols`, `SQLRowCount`,
//! `SQLMoreResults`, `SQLCloseCursor`, `SQLCancel`, cursor names, bulk
//! operations and `SQLSetPos`.

use vstd::prelude::*;

use crate::diagnostics::{record_of, settle, settled};
use crate::errors::{ErrorView, OdbcError};
use crate::handles::{
    BackendCall, CallView, StatementHandle, StatementView, Step, StepView, answer,
};
use crate::text::{
    ascii_upper, decimal, decimal_of, digits, is_ascii_text, join2, join3, quoted, quoted_of,
    same_text, to_uppercase, unsigned_of, uppercase_of,
};
use crate::types::{SqlReturn, SqlState};
use crate::types::sql_state::{
    DUPLICATE_CURSOR_NAME, FUNCTION_SEQUENCE_ERROR, INVALID_ATTRIBUTE_OPTION_IDENTIFIER,
    INVALID_CURSOR_NAME, INVALID_CURSOR_STATE, INVALID_USE_OF_NULL_POINTER,
    OPTIONAL_FEATURE_NOT_IMPLEMENTED,
};
use crate::utf16::{
    TextWrite, given_text, note_truncation, readable, truncation_noted, units_view,
    utf16_to_string, write_utf16,
};

verus! {

// ---------------------------------------------------------------------------
// What the result set holds
// ---------------------------------------------------------------------------

/// The failure for a statement without a result set.
pub open spec fn no_result_set() -> ErrorView {
    ErrorView::general(
        "No result set available; statement not executed"@,
        FUNCTION_SEQUENCE_ERROR@,
    )
}

/// What asking for the number of columns leaves and returns, and the number where there
/// is one.
pub open spec fn columns_step(s: StatementView) -> (StatementView, SqlReturn, Option<i16>) {
    match s.statement {
        None => (s.cleared().posted(no_result_set()), SqlReturn::ERROR, None),
        Some(data) => (s.cleared(), SqlReturn::SUCCESS, Some(data.column_count)),
    }
}

/// `SQLNumResultCols`: the number of columns goes to `column_count`, where the
/// application asked for it.
pub fn sql_num_result_cols(
    stmt: Option<&mut StatementHandle>,
    column_count: Option<&mut i16>,
) -> (r: SqlReturn)
    ensures
        match stmt {
            None => {
                &&& r == SqlReturn::INVALID_HANDLE
                &&& column_count matches Some(p) ==> *final(p) == *p
            },
            Some(s) => {
                let (after, code, count) = columns_step(s@);
                &&& r == code
                &&& final(s)@ == after
                &&& column_count matches Some(p) ==> *final(p) == (match count {
                    Some(n) => n,
                    None => *p,
                })
            },
        },
{
    match stmt {
        None => SqlReturn::INVALID_HANDLE,
        Some(s) => {
            s.diagnostics.clear();
            match s.statement {
                None => settle(
                    &mut s.diagnostics,
                    Err(
                        OdbcError::general(
                            "No result set available; statement not executed",
                            SqlState::function_sequence_error(),
                        ),
                    ),
                ),
                Some(data) => {
                    if let Some(p) = column_count {
                        *p = data.column_count;
                    }
                    SqlReturn::SUCCESS
                },
            }
        },
    }
}

/// The row count of a statement: 0 where nothing was executed, and -1 where the
/// count does not apply or does not fit.
pub open spec fn row_count(s: StatementView) -> isize {
    match s.statement {
        None => 0,
        Some(data) => match data.row_count {
            Some(n) if isize::MIN <= n <= isize::MAX => n as isize,
            _ => (-1) as isize,
        },
    }
}

/// The row count of a statement.
pub fn statement_row_count(stmt: &StatementHandle) -> (r: isize)
    ensures
        r == row_count(stmt@),
{
    match &stmt.statement {
        None => 0,
        Some(data) => match data.row_count {
            Some(n) => {
                if isize::MIN as i64 <= n && n <= isize::MAX as i64 {
                    n as isize
                } else {
                    -1
                }
            },
            None => -1,
        },
    }
}

/// `SQLRowCount`: the row count goes to `count`, where the application asked for
/// it.
pub fn sql_row_count(stmt: Option<&mut StatementHandle>, count: Option<&mut isize>) -> (r:
    SqlReturn)
    ensures
        match stmt {
            None => {
                &&& r == SqlReturn::INVALID_HANDLE
                &&& count matches Some(p) ==> *final(p) == *p
            },
            Some(s) => {
                &&& r == SqlReturn::SUCCESS
                &&& final(s)@ == s@.cleared()
                &&& count matches Some(p) ==> *final(p) == row_count(s@)
            },
        },
{
    match stmt {
        None => SqlReturn::INVALID_HANDLE,
        Some(s) => {
            s.diagnostics.clear();
            let n: isize = statement_row_count(s);
            if let Some(p) = count {
                *p = n;
            }
            SqlReturn::SUCCESS
        },
    }
}

// ---------------------------------------------------------------------------
// Leaving the result set
// ---------------------------------------------------------------------------

/// What a statement becomes when its result set goes, whatever the backend said
/// of closing its cursor: a failure is reported and changes nothing else.
pub open spec fn left_behind(
    s: StatementView,
    outcome: Result<(), ErrorView>,
    success: SqlReturn,
) -> (StatementView, SqlReturn) {
    let (queue, code) = settled(
        s.queue,
        match outcome {
            Ok(_) => Ok(success),
            Err(e) => Err(e),
        },
    );
    (StatementView { queue, ..s.discarded() }, code)
}

/// What `SQLMoreResults` does to a statement: there is never a next result, so
/// what there is goes. A statement that was not executed stays as it is, and the
/// backend is asked to close a cursor only where one is open.
pub open spec fn more_step(s: StatementView) -> (StatementView, StepView) {
    if s.cursor_open && s.statement is Some {
        (s.cleared(), StepView::Ask(CallView::CloseCursor))
    } else if s.cursor_open || s.executed {
        (s.cleared().discarded(), StepView::Done(SqlReturn::NO_DATA))
    } else {
        (s.cleared(), StepView::Done(SqlReturn::NO_DATA))
    }
}

fn leave(stmt: &mut StatementHandle, outcome: Result<(), OdbcError>, success: SqlReturn) -> (r:
    SqlReturn)
    ensures
        (final(stmt)@, r) == left_behind(old(stmt)@, answer(outcome), success),
{
    stmt.discard_result_set();
    let outcome = match outcome {
        Ok(_) => Ok(success),
        Err(e) => Err(e),
    };
    settle(&mut stmt.diagnostics, outcome)
}

/// `SQLMoreResults`. Where it asks for the cursor to be closed,
/// [`more_results_answered`] takes the answer.
pub fn sql_more_results(stmt: Option<&mut StatementHandle>) -> (r: Step)
    ensures
        match stmt {
            None => r@ == StepView::Done(SqlReturn::INVALID_HANDLE),
            Some(s) => (final(s)@, r@) == more_step(s@),
        },
{
    match stmt {
        None => Step::Done(SqlReturn::INVALID_HANDLE),
        Some(s) => {
            s.diagnostics.clear();
            if s.cursor_open && s.statement.is_some() {
                return Step::Ask(BackendCall::CloseCursor);
            }
            if s.cursor_open || s.executed {
                s.discard_result_set();
            }
            Step::Done(SqlReturn::NO_DATA)
        },
    }
}

/// The end of `SQLMoreResults`, once the backend has answered.
pub fn more_results_answered(stmt: &mut StatementHandle, outcome: Result<(), OdbcError>) -> (r:
    SqlReturn)
    ensures
        (final(stmt)@, r) == left_behind(old(stmt)@, answer(outcome), SqlReturn::NO_DATA),
{
    leave(stmt, outcome, SqlReturn::NO_DATA)
}

/// The failure for a statement without an open cursor.
pub open spec fn no_cursor() -> ErrorView {
    ErrorView::general("No cursor is open"@, INVALID_CURSOR_STATE@)
}

/// What `SQLCloseCursor` does to a statement.
pub open spec fn close_step(s: StatementView) -> (StatementView, StepView) {
    if !s.cursor_open {
        (s.cleared().posted(no_cursor()), StepView::Done(SqlReturn::ERROR))
    } else if s.statement is Some {
        (s.cleared(), StepView::Ask(CallView::CloseCursor))
    } else {
        (s.cleared().discarded(), StepView::Done(SqlReturn::SUCCESS))
    }
}

/// `SQLCloseCursor`. Where it asks for the cursor to be closed,
/// [`close_cursor_answered`] takes the answer.
pub fn sql_close_cursor(stmt: Option<&mut StatementHandle>) -> (r: Step)
    ensures
        match stmt {
            None => r@ == StepView::Done(SqlReturn::INVALID_HANDLE),
            Some(s) => (final(s)@, r@) == close_step(s@),
        },
{
    match stmt {
        None => Step::Done(SqlReturn::INVALID_HANDLE),
        Some(s) => {
            s.diagnostics.clear();
            if !s.cursor_open {
                return Step::Done(
                    settle(
                        &mut s.diagnostics,
                        Err(
                            OdbcError::general(
                                "No cursor is open",
                                SqlState::invalid_cursor_state(),
                            ),
                        ),
                    ),
                );
            }
            if s.statement.is_some() {
                return Step::Ask(BackendCall::CloseCursor);
            }
            s.discard_result_set();
            Step::Done(SqlReturn::SUCCESS)
        },
    }
}

/// The end of `SQLCloseCursor`, once the backend has answered.
pub fn close_cursor_answered(stmt: &mut StatementHandle, outcome: Result<(), OdbcError>) -> (r:
    SqlReturn)
    ensures
        (final(stmt)@, r) == left_behind(old(stmt)@, answer(outcome), SqlReturn::SUCCESS),
{
    leave(stmt, outcome, SqlReturn::SUCCESS)
}

// ---------------------------------------------------------------------------
// SQLCancel
// ---------------------------------------------------------------------------

/// What `SQLCancel` does to a statement that nobody else works on: its
/// diagnostics and the data it waits for are dropped.
pub open spec fn cancelled(s: StatementView) -> StatementView {
    StatementView { data_at_exec: false, ..s.cleared() }
}

/// The next step of a cancellation: the backend is told where there is something
/// to cancel.
pub open spec fn cancel_step(has_token: bool) -> StepView {
    if has_token {
        StepView::Ask(CallView::Cancel)
    } else {
        StepView::Done(SqlReturn::SUCCESS)
    }
}

/// `SQLCancel`. `known` says whether the handle is a live statement; the
/// statement is absent while another thread works on its connection, and is
/// then left alone. `has_token` says whether the backend has anything to cancel.
/// Where the backend is to be told, [`cancel_answered`] takes its answer.
pub fn sql_cancel(known: bool, stmt: Option<&mut StatementHandle>, has_token: bool) -> (r: Step)
    ensures
        r@ == (if known {
            cancel_step(has_token)
        } else {
            StepView::Done(SqlReturn::INVALID_HANDLE)
        }),
        stmt matches Some(s) ==> final(s)@ == (if known {
            cancelled(s@)
        } else {
            s@
        }),
{
    if !known {
        return Step::Done(SqlReturn::INVALID_HANDLE);
    }
    if let Some(s) = stmt {
        s.diagnostics.clear();
        s.data_at_exec = false;
    }
    if has_token {
        Step::Ask(BackendCall::Cancel)
    } else {
        Step::Done(SqlReturn::SUCCESS)
    }
}

/// What the backend's answer comes to: a backend that cannot cancel had nothing
/// to cancel.
pub open spec fn signalled(outcome: Result<(), ErrorView>) -> Result<(), ErrorView> {
    match outcome {
        Err(ErrorView::NotImplemented { feature: _ }) => Ok(()),
        _ => outcome,
    }
}

/// What the backend's answer to a cancellation comes to.
pub fn signal_cancel(outcome: Result<(), OdbcError>) -> (r: Result<(), OdbcError>)
    ensures
        answer(r) == signalled(answer(outcome)),
{
    match outcome {
        Ok(_) => Ok(()),
        Err(OdbcError::NotImplemented { feature: _ }) => Ok(()),
        Err(e) => Err(e),
    }
}

/// The end of `SQLCancel`, once the backend has answered. A failure leaves a
/// record on the statement, unless another thread works on it.
pub fn cancel_answered(stmt: Option<&mut StatementHandle>, outcome: Result<(), OdbcError>) -> (r:
    SqlReturn)
    ensures
        r == (match signalled(answer(outcome)) {
            Ok(_) => SqlReturn::SUCCESS,
            Err(_) => SqlReturn::ERROR,
        }),
        stmt matches Some(s) ==> final(s)@ == (match signalled(answer(outcome)) {
            Ok(_) => s@,
            Err(e) => StatementView { queue: s@.queue.push(record_of(e)), ..s@ },
        }),
{
    match signal_cancel(outcome) {
        Ok(_) => SqlReturn::SUCCESS,
        Err(e) => {
            if let Some(s) = stmt {
                s.diagnostics.push(&e);
            }
            SqlReturn::ERROR
        },
    }
}

// ---------------------------------------------------------------------------
// Cursor names
// ---------------------------------------------------------------------------

/// The longest cursor name, in characters, as `SQLGetInfo` reports it.
pub const SQL_MAX_CURSOR_NAME_LEN: u16 = 128;

/// `n` in decimal, with zeros in front up to four digits.
pub open spec fn four_digits(n: nat) -> Seq<char> {
    if n < 10 {
        "000"@ + digits(n, 10)
    } else if n < 100 {
        "00"@ + digits(n, 10)
    } else if n < 1000 {
        "0"@ + digits(n, 10)
    } else {
        digits(n, 10)
    }
}

/// The name made for the cursor of number `n`.
pub open spec fn generated_name(n: u32) -> Seq<char> {
    "SQL_CURSR"@ + four_digits(n as nat)
}

fn generate_name(n: u32) -> (r: String)
    ensures
        r@ == generated_name(n),
{
    let number = unsigned_of(n as usize);
    let padding = if n < 10 {
        "000"
    } else if n < 100 {
        "00"
    } else if n < 1000 {
        "0"
    } else {
        ""
    };
    let r = join3("SQL_CURSR", padding, number.as_str());
    proof {
        reveal_strlit("");
        assert(r@ == "SQL_CURSR"@ + (padding@ + number@));
        assert(padding@ + number@ == four_digits(n as nat));
    }
    r
}

/// The name of a statement's cursor, made from `counter` where it has none.
pub open spec fn cursor_name(s: StatementView, counter: u32) -> Seq<char> {
    match s.cursor_name {
        Some(name) => name,
        None => generated_name(counter),
    }
}

/// What reading the name of a cursor leaves: the statement has the name from then on, and
/// a number that went into it is used up.
pub open spec fn name_read(s: StatementView, counter: u32, code: SqlReturn) -> (
    StatementView,
    u32,
) {
    (
        StatementView {
            queue: truncation_noted(Seq::empty(), code),
            cursor_name: Some(cursor_name(s, counter)),
            ..s
        },
        if s.cursor_name is Some {
            counter
        } else if counter == u32::MAX {
            0
        } else {
            (counter + 1) as u32
        },
    )
}

/// `SQLGetCursorNameW`: the name of the cursor, for a buffer of `buffer_length`
/// units where `wanted`. A statement without a name is given one, with the
/// number that `counter` holds, which then moves on.
pub fn sql_get_cursor_name_w(
    stmt: Option<&mut StatementHandle>,
    counter: &mut u32,
    wanted: bool,
    buffer_length: i16,
) -> (r: (SqlReturn, Option<TextWrite>))
    ensures
        match stmt {
            None => {
                &&& r == (SqlReturn::INVALID_HANDLE, None::<TextWrite>)
                &&& *final(counter) == *old(counter)
            },
            Some(s) => {
                &&& r.1 matches Some(write)
                &&& write.delivers(
                    cursor_name(s@, *old(counter)),
                    wanted,
                    buffer_length as int,
                )
                &&& r.0 == write.code
                &&& (final(s)@, *final(counter)) == name_read(s@, *old(counter), write.code)
            },
        },
{
    match stmt {
        None => (SqlReturn::INVALID_HANDLE, None),
        Some(s) => {
            s.diagnostics.clear();
            let name = match &s.cursor_name {
                Some(name) => name.clone(),
                None => {
                    let made = generate_name(*counter);
                    *counter = if *counter == u32::MAX {
                        0
                    } else {
                        *counter + 1
                    };
                    made
                },
            };
            let write = write_utf16(name.as_str(), wanted, buffer_length);
            s.cursor_name = Some(name);
            let code = note_truncation(write.code, &mut s.diagnostics);
            (code, Some(write))
        },
    }
}

/// The failure for a name that is absent or cannot be read.
pub open spec fn no_name() -> ErrorView {
    ErrorView::general("Cursor name pointer is null"@, INVALID_USE_OF_NULL_POINTER@)
}

/// The failure for a name that is too long.
pub open spec fn long_name(chars: int) -> ErrorView {
    ErrorView::general(
        "Cursor name is "@ + decimal(chars) + (" characters; this driver reports a maximum of "@
            + decimal(SQL_MAX_CURSOR_NAME_LEN as int) + " for SQL_MAX_CURSOR_NAME_LEN"@),
        INVALID_CURSOR_NAME@,
    )
}

/// The failure for a name that begins as the generated ones do.
pub open spec fn reserved_name(quoted: Seq<char>) -> ErrorView {
    ErrorView::general(
        "Cursor name "@ + quoted
            + " uses a prefix reserved for driver-generated names (SQLCUR, SQL_CUR)"@,
        INVALID_CURSOR_NAME@,
    )
}

/// The failure for a name that another statement of the connection has.
pub open spec fn duplicate_name(quoted: Seq<char>) -> ErrorView {
    ErrorView::general(
        "Cursor name "@ + quoted + " is already in use on this connection"@,
        DUPLICATE_CURSOR_NAME@,
    )
}

/// Whether a name in upper case begins with a reserved prefix.
pub open spec fn is_reserved(upper: Seq<char>) -> bool {
    "SQLCUR"@.is_prefix_of(upper) || "SQL_CUR"@.is_prefix_of(upper)
}

/// Whether `name` is one of `taken`, letter for letter.
pub open spec fn is_taken(name: Seq<char>, taken: Seq<&str>) -> bool {
    exists|i: int| 0 <= i < taken.len() && (#[trigger] taken[i])@ == name
}

/// Why a statement cannot have `name`, if so. `upper` is the name in upper case
/// and `quoted` the name in quotes; `busy` says whether the statement was
/// executed, and `taken` holds the names of the connection's other statements.
pub open spec fn name_refusal(
    name: Seq<char>,
    upper: Seq<char>,
    quoted: Seq<char>,
    busy: bool,
    taken: Seq<&str>,
) -> Option<ErrorView> {
    if name.len() == 0 {
        Some(ErrorView::general("Cursor name must not be empty"@, INVALID_CURSOR_NAME@))
    } else if name.len() > SQL_MAX_CURSOR_NAME_LEN {
        Some(long_name(name.len() as int))
    } else if is_reserved(upper) {
        Some(reserved_name(quoted))
    } else if busy {
        Some(
            ErrorView::general(
                "Cannot set a cursor name once the statement has been executed"@,
                INVALID_CURSOR_STATE@,
            ),
        )
    } else if is_taken(name, taken) {
        Some(duplicate_name(quoted))
    } else {
        None
    }
}

fn starts_with(text: &str, prefix: &str) -> (r: bool)
    ensures
        r == prefix@.is_prefix_of(text@),
{
    let n: usize = prefix.unicode_len();
    if text.unicode_len() < n {
        return false;
    }
    for i in 0..n
        invariant
            n == prefix@.len(),
            n <= text@.len(),
            prefix@.take(i as int) == text@.take(i as int),
    {
        if text.get_char(i) != prefix.get_char(i) {
            assert(prefix@.is_prefix_of(text@) ==> prefix@[i as int] == text@[i as int]);
            return false;
        }
        assert(prefix@.take(i + 1) == prefix@.take(i as int).push(prefix@[i as int]));
        assert(text@.take(i + 1) == text@.take(i as int).push(text@[i as int]));
    }
    assert(prefix@.take(n as int) == prefix@);
    true
}

/// Checks a cursor name, given its upper case and its quoted form.
pub fn check_cursor_name(
    name: &str,
    upper: &str,
    quoted: &str,
    busy: bool,
    taken: &[&str],
) -> (r: Result<(), OdbcError>)
    ensures
        match r {
            Ok(_) => name_refusal(name@, upper@, quoted@, busy, taken@) is None,
            Err(e) => name_refusal(name@, upper@, quoted@, busy, taken@) == Some(e@),
        },
{
    let length: usize = name.unicode_len();
    if length == 0 {
        return Err(
            OdbcError::general("Cursor name must not be empty", SqlState::invalid_cursor_name()),
        );
    }
    if length > SQL_MAX_CURSOR_NAME_LEN as usize {
        let chars = unsigned_of(length);
        let most = unsigned_of(SQL_MAX_CURSOR_NAME_LEN as usize);
        let limit = join3(
            " characters; this driver reports a maximum of ",
            most.as_str(),
            " for SQL_MAX_CURSOR_NAME_LEN",
        );
        return Err(
            OdbcError::general(
                join3("Cursor name is ", chars.as_str(), limit.as_str()).as_str(),
                SqlState::invalid_cursor_name(),
            ),
        );
    }
    if starts_with(upper, "SQLCUR") || starts_with(upper, "SQL_CUR") {
        return Err(
            OdbcError::general(
                join3(
                    "Cursor name ",
                    quoted,
                    " uses a prefix reserved for driver-generated names (SQLCUR, SQL_CUR)",
                ).as_str(),
                SqlState::invalid_cursor_name(),
            ),
        );
    }
    if busy {
        return Err(
            OdbcError::general(
                "Cannot set a cursor name once the statement has been executed",
                SqlState::invalid_cursor_state(),
            ),
        );
    }
    for i in 0..taken.len()
        invariant
            forall|j: int| 0 <= j < i ==> (#[trigger] taken@[j])@ != name@,
            name@.len() != 0,
            name@.len() <= SQL_MAX_CURSOR_NAME_LEN,
            !is_reserved(upper@),
            !busy,
    {
        if same_text(taken[i], name) {
            assert(taken@[i as int]@ == name@);
            return Err(
                OdbcError::general(
                    join3("Cursor name ", quoted, " is already in use on this connection").as_str(),
                    SqlState::duplicate_cursor_name(),
                ),
            );
        }
    }
    Ok(())
}

/// What `SQLSetCursorNameW` does to a statement and returns, given what became
/// of the name that the application passed.
pub open spec fn set_name_step(
    s: StatementView,
    given: Result<Seq<char>, ErrorView>,
    taken: Seq<&str>,
) -> (StatementView, SqlReturn) {
    match given {
        Err(_) => (s.cleared().posted(no_name()), SqlReturn::ERROR),
        Ok(name) => match name_refusal(
            name,
            uppercase_of(name),
            quoted_of(name),
            s.cursor_open || s.executed,
            taken,
        ) {
            Some(e) => (s.cleared().posted(e), SqlReturn::ERROR),
            None => (
                StatementView { cursor_name: Some(name), ..s.cleared() },
                SqlReturn::SUCCESS,
            ),
        },
    }
}

/// `SQLSetCursorNameW`. `taken` holds the cursor names of the connection's other
/// statements. A name that the driver could generate is always refused.
pub fn sql_set_cursor_name_w(
    stmt: Option<&mut StatementHandle>,
    name: Option<&[u16]>,
    name_length: i16,
    taken: &[&str],
) -> (r: SqlReturn)
    requires
        readable(name, name_length as int),
    ensures
        match stmt {
            None => r == SqlReturn::INVALID_HANDLE,
            Some(s) => {
                &&& (final(s)@, r) == set_name_step(
                    s@,
                    given_text(units_view(name), name_length as int),
                    taken@,
                )
                &&& forall|n: u32|
                    given_text(units_view(name), name_length as int) == Ok::<
                        Seq<char>,
                        ErrorView,
                    >(#[trigger] generated_name(n)) ==> r == SqlReturn::ERROR && final(s)@
                        == s@.cleared().posted(reserved_name(quoted_of(generated_name(n))))
            },
        },
{
    let s = match stmt {
        None => {
            return SqlReturn::INVALID_HANDLE;
        },
        Some(s) => s,
    };
    s.diagnostics.clear();
    let name = match utf16_to_string(name, name_length as i32) {
        Ok(name) => name,
        Err(_) => {
            return settle(
                &mut s.diagnostics,
                Err(
                    OdbcError::general(
                        "Cursor name pointer is null",
                        SqlState::invalid_use_of_null_pointer(),
                    ),
                ),
            );
        },
    };
    let upper = to_uppercase(name.as_str());
    let in_quotes = quoted(name.as_str());
    proof {
        assert forall|n: u32| name@ == #[trigger] generated_name(n) implies name_refusal(
            name@,
            upper@,
            in_quotes@,
            s.cursor_open || s.executed,
            taken@,
        ) == Some(reserved_name(in_quotes@)) by {
            law_generated_names_are_reserved(
                n,
                in_quotes@,
                s.cursor_open || s.executed,
                taken@,
            );
        }
    }
    let busy = s.cursor_open || s.executed;
    match check_cursor_name(name.as_str(), upper.as_str(), in_quotes.as_str(), busy, taken) {
        Err(e) => settle(&mut s.diagnostics, Err(e)),
        Ok(_) => {
            s.cursor_name = Some(name);
            SqlReturn::SUCCESS
        },
    }
}

// ---------------------------------------------------------------------------
// Operations that forward-only cursors do not have
// ---------------------------------------------------------------------------

/// `SQL_ADD`.
pub const SQL_ADD: i16 = 4;

/// `SQL_UPDATE_BY_BOOKMARK`.
pub const SQL_UPDATE_BY_BOOKMARK: i16 = 5;

/// `SQL_DELETE_BY_BOOKMARK`.
pub const SQL_DELETE_BY_BOOKMARK: i16 = 6;

/// `SQL_FETCH_BY_BOOKMARK`.
pub const SQL_FETCH_BY_BOOKMARK: i16 = 7;

/// `SQL_POSITION`.
pub const SQL_POSITION: u16 = 0;

/// `SQL_REFRESH`.
pub const SQL_REFRESH: u16 = 1;

/// `SQL_UPDATE`.
pub const SQL_UPDATE: u16 = 2;

/// `SQL_DELETE`.
pub const SQL_DELETE: u16 = 3;

/// `SQL_LOCK_NO_CHANGE`.
pub const SQL_LOCK_NO_CHANGE: u16 = 0;

/// `SQL_LOCK_EXCLUSIVE`.
pub const SQL_LOCK_EXCLUSIVE: u16 = 1;

/// `SQL_LOCK_UNLOCK`.
pub const SQL_LOCK_UNLOCK: u16 = 2;

/// Whether there is such a bulk operation.
pub open spec fn is_bulk_operation(n: i16) -> bool {
    n == SQL_ADD || n == SQL_UPDATE_BY_BOOKMARK || n == SQL_DELETE_BY_BOOKMARK || n
        == SQL_FETCH_BY_BOOKMARK
}

/// Whether there is such a positioned operation.
pub open spec fn is_positioned_operation(n: u16) -> bool {
    n == SQL_POSITION || n == SQL_REFRESH || n == SQL_UPDATE || n == SQL_DELETE
}

/// Whether there is such a lock type.
pub open spec fn is_lock_type(n: u16) -> bool {
    n == SQL_LOCK_NO_CHANGE || n == SQL_LOCK_EXCLUSIVE || n == SQL_LOCK_UNLOCK
}

/// The failure for an operation or lock type that there is not.
pub open spec fn unknown_option(what: Seq<char>, n: int) -> ErrorView {
    ErrorView::general(what + decimal(n), INVALID_ATTRIBUTE_OPTION_IDENTIFIER@)
}

/// The failure for an operation that is not supported.
pub open spec fn not_supported(message: Seq<char>) -> ErrorView {
    ErrorView::general(message, OPTIONAL_FEATURE_NOT_IMPLEMENTED@)
}

/// Why `SQLBulkOperations` fails.
pub open spec fn bulk_refusal(operation: i16) -> ErrorView {
    if is_bulk_operation(operation) {
        not_supported(
            "SQLBulkOperations is not supported; this driver uses forward-only cursors without bookmark support"@,
        )
    } else {
        unknown_option("Unknown bulk operation: "@, operation as int)
    }
}

/// Why `SQLSetPos` fails.
pub open spec fn position_refusal(operation: u16, lock_type: u16) -> ErrorView {
    if !is_positioned_operation(operation) {
        unknown_option("Unknown SQLSetPos operation: "@, operation as int)
    } else if !is_lock_type(lock_type) {
        unknown_option("Unknown SQLSetPos lock type: "@, lock_type as int)
    } else {
        not_supported("SQLSetPos is not supported; this driver uses forward-only cursors"@)
    }
}

fn unknown(what: &str, n: i64) -> (r: OdbcError)
    ensures
        r@ == unknown_option(what@, n as int),
{
    let number = decimal_of(n);
    OdbcError::general(
        join2(what, number.as_str()).as_str(),
        SqlState::invalid_attribute_option_identifier(),
    )
}

/// `SQLBulkOperations`, which always fails: there are no bookmarks.
pub fn sql_bulk_operations(stmt: Option<&mut StatementHandle>, operation: i16) -> (r: SqlReturn)
    ensures
        match stmt {
            None => r == SqlReturn::INVALID_HANDLE,
            Some(s) => r == SqlReturn::ERROR && final(s)@ == s@.cleared().posted(
                bulk_refusal(operation),
            ),
        },
{
    match stmt {
        None => SqlReturn::INVALID_HANDLE,
        Some(s) => {
            s.diagnostics.clear();
            let e = if operation == SQL_ADD || operation == SQL_UPDATE_BY_BOOKMARK || operation
                == SQL_DELETE_BY_BOOKMARK || operation == SQL_FETCH_BY_BOOKMARK {
                OdbcError::general(
                    "SQLBulkOperations is not supported; this driver uses forward-only cursors without bookmark support",
                    SqlState::optional_feature_not_implemented(),
                )
            } else {
                unknown("Unknown bulk operation: ", operation as i64)
            };
            settle(&mut s.diagnostics, Err(e))
        },
    }
}

/// `SQLSetPos`, which always fails: a cursor has no rowset to position in,
/// whatever the row number.
pub fn sql_set_pos(
    stmt: Option<&mut StatementHandle>,
    row_number: u64,
    operation: u16,
    lock_type: u16,
) -> (r: SqlReturn)
    ensures
        match stmt {
            None => r == SqlReturn::INVALID_HANDLE,
            Some(s) => r == SqlReturn::ERROR && final(s)@ == s@.cleared().posted(
                position_refusal(operation, lock_type),
            ),
        },
{
    match stmt {
        None => SqlReturn::INVALID_HANDLE,
        Some(s) => {
            s.diagnostics.clear();
            let e = if operation != SQL_POSITION && operation != SQL_REFRESH && operation
                != SQL_UPDATE && operation != SQL_DELETE {
                unknown("Unknown SQLSetPos operation: ", operation as i64)
            } else if lock_type != SQL_LOCK_NO_CHANGE && lock_type != SQL_LOCK_EXCLUSIVE
                && lock_type != SQL_LOCK_UNLOCK {
                unknown("Unknown SQLSetPos lock type: ", lock_type as i64)
            } else {
                OdbcError::general(
                    "SQLSetPos is not supported; this driver uses forward-only cursors",
                    SqlState::optional_feature_not_implemented(),
                )
            };
            settle(&mut s.diagnostics, Err(e))
        },
    }
}

// ---------------------------------------------------------------------------
// Laws
// ---------------------------------------------------------------------------

/// The digits of a number of up to ten digits are that many characters from
/// `0` to `9`.
proof fn lemma_digits_are_digits(n: nat)
    ensures
        digits(n, 10).len() >= 1,
        n <= u32::MAX ==> digits(n, 10).len() <= 10,
        forall|i: int| 0 <= i < digits(n, 10).len() ==> '0' <= #[trigger] digits(n, 10)[i] <= '9',
    decreases n,
{
    if n >= 10 {
        lemma_digits_are_digits(n / 10);
        if n <= u32::MAX {
            reveal_with_fuel(pow10, 11);
            lemma_digit_count(n, 10);
        }
    }
}

proof fn lemma_digit_count(n: nat, k: nat)
    requires
        k >= 1,
        n < pow10(k),
    ensures
        digits(n, 10).len() <= k,
    decreases k,
{
    reveal_with_fuel(pow10, 2);
    if n >= 10 {
        assert(k > 1);
        lemma_digit_count(n / 10, (k - 1) as nat);
    }
}

spec fn pow10(k: nat) -> nat
    decreases k,
{
    if k == 0 {
        1
    } else {
        10 * pow10((k - 1) as nat)
    }
}

/// A name that the driver generates begins with a prefix that applications
/// cannot use.
pub proof fn law_generated_names_are_reserved(
    n: u32,
    quoted: Seq<char>,
    busy: bool,
    taken: Seq<&str>,
)
    ensures
        is_ascii_text(generated_name(n)),
        name_refusal(
            generated_name(n),
            generated_name(n).map_values(|c: char| ascii_upper(c)),
            quoted,
            busy,
            taken,
        ) == Some(reserved_name(quoted)),
{
    let name = generated_name(n);
    let upper = name.map_values(|c: char| ascii_upper(c));
    reveal_strlit("SQL_CURSR");
    reveal_strlit("SQL_CUR");
    reveal_strlit("000");
    reveal_strlit("00");
    reveal_strlit("0");
    lemma_digits_are_digits(n as nat);
    assert("SQL_CUR"@ == upper.take(7));
    assert("SQL_CUR"@.is_prefix_of(upper));
}

/// A number is known by its digits, with zeros in front or without.
spec fn number_of(s: Seq<char>) -> int
    decreases s.len(),
{
    if s.len() == 0 {
        0
    } else {
        10 * number_of(s.drop_last()) + (s.last() as int - '0' as int)
    }
}

proof fn lemma_number_of_digits(zeros: Seq<char>, n: nat)
    requires
        forall|i: int| 0 <= i < zeros.len() ==> zeros[i] == '0',
    ensures
        number_of(zeros + digits(n, 10)) == n,
    decreases n,
{
    let s = zeros + digits(n, 10);
    if n < 10 {
        assert(s.drop_last() == zeros);
        lemma_number_of_zeros(zeros);
    } else {
        assert(s.drop_last() == zeros + digits(n / 10, 10));
        lemma_number_of_digits(zeros, n / 10);
    }
}

proof fn lemma_number_of_zeros(zeros: Seq<char>)
    requires
        forall|i: int| 0 <= i < zeros.len() ==> zeros[i] == '0',
    ensures
        number_of(zeros) == 0,
    decreases zeros.len(),
{
    if zeros.len() > 0 {
        lemma_number_of_zeros(zeros.drop_last());
    }
}

proof fn lemma_number_of_four_digits(n: nat)
    ensures
        number_of(four_digits(n)) == n,
{
    reveal_strlit("000");
    reveal_strlit("00");
    reveal_strlit("0");
    lemma_number_of_digits("000"@, n);
    lemma_number_of_digits("00"@, n);
    lemma_number_of_digits("0"@, n);
    lemma_number_of_digits(Seq::empty(), n);
    assert(Seq::<char>::empty() + digits(n, 10) == digits(n, 10));
}

/// The names that the driver generates from different numbers are different.
pub proof fn law_generated_names_are_distinct(a: u32, b: u32)
    requires
        a != b,
    ensures
        generated_name(a) != generated_name(b),
{
    let prefix = "SQL_CURSR"@;
    lemma_number_of_four_digits(a as nat);
    lemma_number_of_four_digits(b as nat);
    if generated_name(a) == generated_name(b) {
        assert(four_digits(a as nat) == generated_name(a).skip(prefix.len() as int));
        assert(four_digits(b as nat) == generated_name(b).skip(prefix.len() as int));
    }
}

/// A name that was accepted is the name of the cursor, and no other statement of
/// the connection has it.
pub proof fn law_accepted_names_are_kept_and_unique(
    s: StatementView,
    given: Result<Seq<char>, ErrorView>,
    taken: Seq<&str>,
    counter: u32,
)
    ensures
        ({
            let (after, code) = set_name_step(s, given, taken);
            if code == SqlReturn::SUCCESS {
                &&& given matches Ok(name)
                &&& cursor_name(after, counter) == name
                &&& !is_taken(name, taken)
                &&& !s.cursor_open && !s.executed
            } else {
                &&& code == SqlReturn::ERROR
                &&& cursor_name(after, counter) == cursor_name(s, counter)
            }
        }),
{
}

/// Names are compared letter for letter: one that differs in case only is
/// another name.
pub proof fn law_names_differing_in_case_are_distinct(
    name: Seq<char>,
    upper: Seq<char>,
    quoted: Seq<char>,
    other: &str,
)
    requires
        other@ != name,
        name_refusal(name, upper, quoted, false, Seq::<&str>::empty()) is None,
    ensures
        name_refusal(name, upper, quoted, false, seq![other]) is None,
{
}

/// Whatever the backend says of closing its cursor, the result set is gone, a
/// prepared statement stays prepared, and another call finds no cursor.
pub proof fn law_the_result_set_goes_either_way(
    s: StatementView,
    outcome: Result<(), ErrorView>,
    success: SqlReturn,
)
    ensures
        ({
            let (after, code) = left_behind(s, outcome, success);
            &&& after.statement is None && !after.cursor_open && !after.executed
            &&& after.prepared_sql == s.prepared_sql
            &&& after.cursor_name == s.cursor_name
            &&& (outcome is Ok ==> code == success && after.queue == s.queue)
            &&& close_step(after).1 == StepView::Done(SqlReturn::ERROR)
            &&& more_step(after) == (after.cleared(), StepView::Done(SqlReturn::NO_DATA))
        }),
{
}

/// `SQLMoreResults` leaves a statement that was not executed as it is.
pub proof fn law_more_results_keeps_a_prepared_statement(s: StatementView)
    requires
        !s.cursor_open,
        !s.executed,
    ensures
        more_step(s) == (s.cleared(), StepView::Done(SqlReturn::NO_DATA)),
{
}

/// A cursor keeps its name: what was read once, given by the application or made by
/// the driver, is read again, whatever number would come next.
pub proof fn law_a_cursor_keeps_its_name(s: StatementView, counter: u32, later: u32)
    ensures
        ({
            let name = cursor_name(s, counter);
            &&& cursor_name(StatementView { cursor_name: Some(name), ..s }, later) == name
            &&& s.cursor_name matches Some(own) ==> name == own
            &&& s.cursor_name is None ==> name == generated_name(counter)
        }),
{
}

/// A name that the driver makes is `SQL_CURSR` and a number of at least four digits.
pub proof fn law_how_generated_names_look(n: u32)
    ensures
        ({
            let name = generated_name(n);
            let number = name.skip(9);
            &&& name.take(9) == "SQL_CURSR"@
            &&& number.len() >= 4
            &&& n < 10000 ==> number.len() == 4
            &&& forall|i: int| 0 <= i < number.len() ==> '0' <= #[trigger] number[i] <= '9'
            &&& crate::text::value_of(number) == n
        }),
{
    let name = generated_name(n);
    reveal_strlit("SQL_CURSR");
    reveal_strlit("000");
    reveal_strlit("00");
    reveal_strlit("0");
    lemma_digits_are_digits(n as nat);
    lemma_number_of_four_digits(n as nat);
    lemma_same_value(four_digits(n as nat));
    assert(name.take(9) =~= "SQL_CURSR"@);
    assert(name.skip(9) =~= four_digits(n as nat));
    lemma_digit_lengths(n as nat);
}

proof fn lemma_same_value(s: Seq<char>)
    ensures
        crate::text::value_of(s) == number_of(s),
    decreases s.len(),
{
    if s.len() > 0 {
        lemma_same_value(s.drop_last());
    }
}

proof fn lemma_digit_lengths(n: nat)
    ensures
        n < 10 ==> digits(n, 10).len() == 1,
        10 <= n < 100 ==> digits(n, 10).len() == 2,
        100 <= n < 1000 ==> digits(n, 10).len() == 3,
        1000 <= n < 10000 ==> digits(n, 10).len() == 4,
        n >= 1000 ==> digits(n, 10).len() >= 4,
    decreases n,
{
    if n >= 10 {
        lemma_digit_lengths(n / 10);
    }
}

/// A name is accepted just where it is not empty, has at most 128 characters, does
/// not start as the driver's own do in any case, the statement was not executed, and
/// no other statement of the connection has it.
pub proof fn law_which_names_are_accepted(
    name: Seq<char>,
    quoted: Seq<char>,
    busy: bool,
    taken: Seq<&str>,
)
    ensures
        ({
            let upper = name.map_values(|c: char| ascii_upper(c));
            let own = (upper.len() >= 6 && upper.take(6) == "SQLCUR"@) || (upper.len() >= 7
                && upper.take(7) == "SQL_CUR"@);
            let refusal = name_refusal(name, upper, quoted, busy, taken);
            let other = exists|i: int| 0 <= i < taken.len() && (#[trigger] taken[i])@ == name;
            &&& (refusal is None) == (1 <= name.len() <= 128 && !own && !busy && !other)
            &&& name.len() == 0 || name.len() > 128 || own ==> (refusal matches Some(e)
                && e.sqlstate() == "34000"@)
            &&& 1 <= name.len() <= 128 && !own && busy ==> (refusal matches Some(e)
                && e.sqlstate() == "24000"@)
            &&& 1 <= name.len() <= 128 && !own && !busy && other ==> (refusal matches Some(e)
                && e.sqlstate() == "3C000"@)
        }),
{
    let upper = name.map_values(|c: char| ascii_upper(c));
    reveal_strlit("SQLCUR");
    reveal_strlit("SQL_CUR");
    if "SQLCUR"@.is_prefix_of(upper) {
        assert(upper.take(6) =~= "SQLCUR"@);
    }
    if upper.len() >= 6 && upper.take(6) == "SQLCUR"@ {
        assert("SQLCUR"@.is_prefix_of(upper));
    }
    if "SQL_CUR"@.is_prefix_of(upper) {
        assert(upper.take(7) =~= "SQL_CUR"@);
    }
    if upper.len() >= 7 && upper.take(7) == "SQL_CUR"@ {
        assert("SQL_CUR"@.is_prefix_of(upper));
    }
}

/// A name that is set is changed and nothing else of the statement; a name that
/// cannot be read is refused as absent.
pub proof fn law_setting_a_name_changes_nothing_else(
    s: StatementView,
    given: Result<Seq<char>, ErrorView>,
    taken: Seq<&str>,
)
    ensures
        ({
            let (after, code) = set_name_step(s, given, taken);
            &&& after == (StatementView {
                queue: after.queue,
                cursor_name: after.cursor_name,
                ..s
            })
            &&& code == SqlReturn::SUCCESS ==> after.queue.len() == 0
            &&& code != SqlReturn::SUCCESS ==> after.queue.len() == 1
            &&& given is Err ==> code == SqlReturn::ERROR && after.queue[0].sqlstate == "HY009"@
        }),
{
}

/// The row count is the number that the backend reports, -1 where it reports none,
/// and 0 where there is no statement.
pub proof fn law_the_row_count_is_the_backends(s: StatementView)
    ensures
        s.statement is None ==> row_count(s) == 0,
        s.statement matches Some(data) ==> (data.row_count matches Some(n) ==> (isize::MIN <= n
            <= isize::MAX ==> row_count(s) == n)),
        s.statement matches Some(data) ==> (data.row_count is None ==> row_count(s) == -1),
{
}

/// A cursor is closed just where one is open: the backend is asked where it has a
/// statement, and without a cursor the call fails with `24000`.
pub proof fn law_only_an_open_cursor_is_closed(s: StatementView)
    ensures
        !s.cursor_open ==> close_step(s).1 == StepView::Done(SqlReturn::ERROR) && close_step(
            s,
        ).0.queue.len() == 1 && close_step(s).0.queue[0].sqlstate == "24000"@ && close_step(s).0
            == (StatementView { queue: close_step(s).0.queue, ..s }),
        s.cursor_open && s.statement is Some ==> close_step(s) == (
            s.cleared(),
            StepView::Ask(CallView::CloseCursor),
        ),
        s.cursor_open && s.statement is None ==> close_step(s).1 == StepView::Done(
            SqlReturn::SUCCESS,
        ) && !close_step(s).0.cursor_open,
{
}

/// There is never another result: an open cursor is closed, an executed statement
/// loses its result, and the answer is that there is no data.
pub proof fn law_there_is_never_another_result(s: StatementView, outcome: Result<(), ErrorView>)
    ensures
        more_step(s).1 == (if s.cursor_open && s.statement is Some {
            StepView::Ask(CallView::CloseCursor)
        } else {
            StepView::Done(SqlReturn::NO_DATA)
        }),
        (s.cursor_open || s.executed) && !(s.cursor_open && s.statement is Some) ==> more_step(
            s,
        ).0.statement is None && !more_step(s).0.executed && !more_step(s).0.cursor_open,
        left_behind(s, Ok(()), SqlReturn::NO_DATA).1 == SqlReturn::NO_DATA,
        outcome matches Err(e) ==> (!(e is InvalidHandle) ==> left_behind(
            s,
            outcome,
            SqlReturn::NO_DATA,
        ).1 == e.sql_return() && left_behind(s, outcome, SqlReturn::NO_DATA).0.queue
            == s.queue.push(record_of(e))),
{
}

/// A cancelled statement no longer waits for data, and keeps all but that and its
/// diagnostics; a backend that cannot cancel is no failure, and any other failure is
/// one.
pub proof fn law_what_a_cancellation_does(s: StatementView, e: ErrorView, feature: Seq<char>)
    ensures
        cancelled(s) == (StatementView { queue: Seq::empty(), data_at_exec: false, ..s }),
        cancel_step(true) == StepView::Ask(CallView::Cancel),
        cancel_step(false) == StepView::Done(SqlReturn::SUCCESS),
        signalled(Ok(())) == Ok::<(), ErrorView>(()),
        signalled(Err(ErrorView::NotImplemented { feature })) == Ok::<(), ErrorView>(()),
        !(e is NotImplemented) ==> signalled(Err(e)) == Err::<(), ErrorView>(e),
{
}

/// Bulk and positioned operations are not supported where there are such, and
/// unknown where there are not.
pub proof fn law_operations_that_there_are_not(bulk: i16, operation: u16, lock_type: u16)
    ensures
        bulk_refusal(bulk).sqlstate() == (if 4 <= bulk <= 7 {
            "HYC00"@
        } else {
            "HY092"@
        }),
        position_refusal(operation, lock_type).sqlstate() == (if operation <= 3 && lock_type <= 2 {
            "HYC00"@
        } else {
            "HY092"@
        }),
{
}

/// The number of columns is the one of the statement that was executed; without one there
/// is none, and a record says so.
pub proof fn law_columns_are_counted_where_there_is_a_statement(s: StatementView)
    ensures
        ({
            let (after, code, count) = columns_step(s);
            &&& (code == SqlReturn::SUCCESS) == (s.statement is Some)
            &&& s.statement matches Some(data) ==> count == Some(data.column_count)
                && after.queue.len() == 0
            &&& s.statement is None ==> count is None && code == SqlReturn::ERROR
                && after.queue.len() == 1 && after.queue[0].sqlstate == "HY010"@
            &&& after == (StatementView { queue: after.queue, ..s })
        }),
{
}

/// Two statements without names that are asked one after the other get different names,
/// and asking again gives the same name and uses up no number.
pub proof fn law_names_are_made_once(
    s: StatementView,
    t: StatementView,
    counter: u32,
    code: SqlReturn,
)
    requires
        s.cursor_name is None,
        t.cursor_name is None,
    ensures
        ({
            let (named, next) = name_read(s, counter, code);
            let (again, same) = name_read(named, next, code);
            &&& named.cursor_name is Some
            &&& again.cursor_name == named.cursor_name
            &&& same == next
            &&& next != counter
            &&& name_read(t, next, code).0.cursor_name != named.cursor_name
            &&& named == (StatementView {
                queue: named.queue,
                cursor_name: named.cursor_name,
                ..s
            })
            &&& code == SqlReturn::SUCCESS ==> named.queue.len() == 0
        }),
{
    let (named, next) = name_read(s, counter, code);
    law_generated_names_are_distinct(counter, next);
}

} // verus!
