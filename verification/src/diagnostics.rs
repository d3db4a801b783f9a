//! The per-handle queue of diagnostic records that `SQLGetDiagRecW` and
//! `SQLGetDiagFieldW` read from.

use vstd::prelude::*;

use crate::errors::{Cause, ErrorView, OdbcError};
use crate::types::{SqlReturn, SqlState};

verus! {

/// A single diagnostic record as returned by `SQLGetDiagRec`.
pub struct DiagnosticRecord {
    pub sqlstate: SqlState,
    pub native_error: i32,
    pub message: String,
}

/// What the contracts say of a record.
#[verifier::ext_equal]
pub struct RecordView {
    pub sqlstate: Seq<char>,
    pub native_error: int,
    pub message: Seq<char>,
}

impl View for DiagnosticRecord {
    type V = RecordView;

    open spec fn view(&self) -> RecordView {
        RecordView {
            sqlstate: self.sqlstate@,
            native_error: self.native_error as int,
            message: self.message@,
        }
    }
}

/// The suffix a causal chain adds to a message: each link after a colon.
pub open spec fn chain_text(causes: Seq<Seq<char>>) -> Seq<char>
    decreases causes.len(),
{
    if causes.len() == 0 {
        Seq::empty()
    } else {
        ": "@ + causes[0] + chain_text(causes.drop_first())
    }
}

/// The record an error leaves: its state, its native code, and its message
/// with the whole causal chain behind it.
pub open spec fn record_of(e: ErrorView) -> RecordView {
    RecordView {
        sqlstate: e.sqlstate(),
        native_error: e.native_error(),
        message: e.display() + chain_text(e.causes()),
    }
}

/// A first-in first-out queue of diagnostic records.
pub struct DiagnosticQueue {
    records: Vec<DiagnosticRecord>,
}

impl View for DiagnosticQueue {
    type V = Seq<RecordView>;

    closed spec fn view(&self) -> Seq<RecordView> {
        self.records@.map_values(|r: DiagnosticRecord| r@)
    }
}

impl DiagnosticQueue {
    /// An empty queue.
    pub fn new() -> (r: DiagnosticQueue)
        ensures
            r@ == Seq::<RecordView>::empty(),
    {
        DiagnosticQueue { records: Vec::new() }
    }

    /// Drops every record, as each ODBC call does on entry.
    pub fn clear(&mut self)
        ensures
            final(self)@ == Seq::<RecordView>::empty(),
    {
        self.records.clear();
    }

    /// Appends the record `error` leaves.
    pub fn push(&mut self, error: &OdbcError)
        ensures
            final(self)@ == old(self)@.push(record_of(error@)),
    {
        let mut message = error.to_string();
        let mut cause: Option<&Cause> = error.cause();
        let ghost mut rest: Seq<Seq<char>> = error@.causes();
        loop
            invariant
                message@ + chain_text(rest) == error@.display() + chain_text(error@.causes()),
                match cause {
                    Some(c) => c@ == rest,
                    None => rest.len() == 0,
                },
            ensures
                message@ == error@.display() + chain_text(error@.causes()),
            decreases rest.len(),
        {
            match cause {
                Some(link) => {
                    let next = link.source();
                    let text = link.to_string();
                    proof {
                        assert(message@ + chain_text(rest) == message@ + ": "@ + rest[0]
                            + chain_text(rest.drop_first()));
                        rest = rest.drop_first();
                    }
                    message.append(": ");
                    message.append(text.as_str());
                    cause = next;
                },
                None => {
                    assert(message@ + chain_text(rest) == message@);
                    break;
                },
            }
        }
        self.records.push(
            DiagnosticRecord {
                sqlstate: error.sqlstate(),
                native_error: error.native_error(),
                message,
            },
        );
        assert(self@ == old(self)@.push(record_of(error@)));
    }

    /// The record at the 0-based `index`.
    pub fn get(&self, index: usize) -> (r: Option<&DiagnosticRecord>)
        ensures
            match r {
                Some(record) => index < self@.len() && record@ == self@[index as int],
                None => index >= self@.len(),
            },
    {
        if index < self.records.len() {
            Some(&self.records[index])
        } else {
            None
        }
    }

    /// The number of records.
    pub fn len(&self) -> (r: usize)
        ensures
            r == self@.len(),
    {
        self.records.len()
    }

    /// Whether there is no record.
    pub fn is_empty(&self) -> (r: bool)
        ensures
            r == (self@.len() == 0),
    {
        self.records.len() == 0
    }
}

impl Default for DiagnosticQueue {
    fn default() -> (r: DiagnosticQueue)
        ensures
            r@ == Seq::<RecordView>::empty(),
    {
        DiagnosticQueue::new()
    }
}

/// What a call hands back and leaves in its queue, given the outcome of its
/// body: a failure is posted and mapped to its return code, and a bad handle
/// has no queue to post to.
pub open spec fn settled(
    queue: Seq<RecordView>,
    outcome: Result<SqlReturn, ErrorView>,
) -> (Seq<RecordView>, SqlReturn) {
    match outcome {
        Ok(code) => (queue, code),
        Err(ErrorView::InvalidHandle) => (queue, SqlReturn::INVALID_HANDLE),
        Err(e) => (queue.push(record_of(e)), e.sql_return()),
    }
}

/// The outcome of a call's body, with the error by its view.
pub open spec fn outcome_view(r: Result<SqlReturn, OdbcError>) -> Result<SqlReturn, ErrorView> {
    match r {
        Ok(code) => Ok(code),
        Err(e) => Err(e@),
    }
}

/// Posts the failure of a call's body, and gives the call's return code.
pub fn settle(queue: &mut DiagnosticQueue, outcome: Result<SqlReturn, OdbcError>) -> (r: SqlReturn)
    ensures
        (final(queue)@, r) == settled(old(queue)@, outcome_view(outcome)),
{
    match outcome {
        Ok(code) => code,
        Err(OdbcError::InvalidHandle) => SqlReturn::INVALID_HANDLE,
        Err(e) => {
            queue.push(&e);
            e.sql_return()
        },
    }
}

/// Records come out in the order in which they went in, and a later one does
/// not disturb an earlier one.
pub proof fn law_queue_is_first_in_first_out(queue: Seq<RecordView>, a: ErrorView, b: ErrorView)
    ensures
        queue.push(record_of(a)).push(record_of(b))[queue.len() as int] == record_of(a),
        queue.push(record_of(a)).push(record_of(b))[queue.len() as int + 1] == record_of(b),
        forall|i: int|
            0 <= i < queue.len() ==> queue.push(record_of(a)).push(record_of(b))[i] == queue[i],
{
}

/// The record of a general error holds its state, its code and its message, with
/// each cause behind a colon.
pub proof fn law_a_record_holds_its_error(
    message: Seq<char>,
    sqlstate: Seq<char>,
    code: int,
    outer: Seq<char>,
    inner: Seq<char>,
)
    ensures
        ({
            let e = ErrorView::general(message, sqlstate).with_native_error(code);
            let colon = seq![':', ' '];
            &&& record_of(e) == (RecordView { sqlstate, native_error: code, message })
            &&& record_of(e.with_source(seq![outer, inner])) == (RecordView {
                sqlstate,
                native_error: code,
                message: message + colon + outer + colon + inner,
            })
        }),
{
    let e = ErrorView::general(message, sqlstate).with_native_error(code);
    let chain = seq![outer, inner];
    reveal_strlit(": ");
    reveal_with_fuel(chain_text, 3);
    assert(": "@ =~= seq![':', ' ']);
    assert(message + Seq::<char>::empty() =~= message);
    assert(chain.drop_first() =~= seq![inner]);
    assert(seq![inner].drop_first() =~= Seq::<Seq<char>>::empty());
    assert(message + (": "@ + outer + (": "@ + inner + Seq::<char>::empty())) =~= message + ": "@
        + outer + ": "@ + inner);
}

/// A failure is posted behind what was there, an invalid handle is not, and a
/// success posts nothing.
pub proof fn law_failures_are_posted(queue: Seq<RecordView>, e: ErrorView, code: SqlReturn)
    ensures
        settled(queue, Ok(code)) == (queue, code),
        settled(queue, Err(ErrorView::InvalidHandle)) == (queue, SqlReturn::INVALID_HANDLE),
        !(e is InvalidHandle) ==> settled(queue, Err(e)).0.len() == queue.len() + 1
            && settled(queue, Err(e)).0.drop_last() == queue && settled(queue, Err(e)).0.last()
            == record_of(e) && settled(queue, Err(e)).1 == e.sql_return(),
{
    let q = settled(queue, Err(e)).0;
    if !(e is InvalidHandle) {
        assert(q.drop_last() =~= queue);
    }
}

} // verus!
