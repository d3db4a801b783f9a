//! What the driver keeps for each handle it hands out.

use std::collections::BTreeMap;

use vstd::prelude::*;

use crate::descriptor::{Descriptor, DescriptorView};
use crate::diagnostics::{DiagnosticQueue, RecordView};
use crate::errors::{ErrorView, OdbcError};
use crate::params::{ConnectParams, ParamsView};
use crate::types::SqlReturn;
use crate::types::descriptor_field::DescriptorRole;

verus! {

/// A text that may be absent, by its characters.
pub open spec fn text_of(t: Option<String>) -> Option<Seq<char>> {
    match t {
        Some(s) => Some(s@),
        None => None,
    }
}

/// What the backend reports of a live connection.
pub struct Session {
    /// The isolation levels the data source can run at, one bit each.
    pub txn_isolation_options: u32,
    /// The isolation level it runs at unless told otherwise.
    pub default_txn_isolation: u32,
    /// Whether the link is known to be lost.
    pub connection_dead: bool,
    /// The catalog the session uses.
    pub current_catalog: Option<String>,
}

/// What the contracts say of a session.
#[verifier::ext_equal]
pub struct SessionView {
    pub txn_isolation_options: u32,
    pub default_txn_isolation: u32,
    pub connection_dead: bool,
    pub current_catalog: Option<Seq<char>>,
}

impl View for Session {
    type V = SessionView;

    open spec fn view(&self) -> SessionView {
        SessionView {
            txn_isolation_options: self.txn_isolation_options,
            default_txn_isolation: self.default_txn_isolation,
            connection_dead: self.connection_dead,
            current_catalog: text_of(self.current_catalog),
        }
    }
}

/// A connection handle.
pub struct ConnectionHandle {
    pub diagnostics: DiagnosticQueue,
    /// The live connection, by what the backend reports of it.
    pub connection: Option<Session>,
    /// The integer-valued attributes the application set.
    pub attrs: BTreeMap<i32, usize>,
    /// The catalog the application set.
    pub catalog: Option<String>,
    /// Whether work was done under manual commit and not ended yet.
    pub txn_dirty: bool,
    /// What `SQLBrowseConnect` has gathered so far.
    pub browse_request: Option<ConnectParams>,
}

/// What the contracts say of a connection handle.
#[verifier::ext_equal]
pub struct ConnectionView {
    pub queue: Seq<RecordView>,
    pub session: Option<SessionView>,
    pub attrs: Map<i32, usize>,
    pub catalog: Option<Seq<char>>,
    pub txn_dirty: bool,
    pub browse: Option<ParamsView>,
}

impl View for ConnectionHandle {
    type V = ConnectionView;

    open spec fn view(&self) -> ConnectionView {
        ConnectionView {
            queue: self.diagnostics@,
            session: match self.connection {
                Some(s) => Some(s@),
                None => None,
            },
            attrs: self.attrs@,
            catalog: text_of(self.catalog),
            txn_dirty: self.txn_dirty,
            browse: match self.browse_request {
                Some(p) => Some(p@),
                None => None,
            },
        }
    }
}

impl ConnectionView {
    /// A handle just allocated.
    pub open spec fn fresh() -> ConnectionView {
        ConnectionView {
            queue: Seq::empty(),
            session: None,
            attrs: Map::empty(),
            catalog: None,
            txn_dirty: false,
            browse: None,
        }
    }

    /// This handle with its diagnostics cleared.
    pub open spec fn cleared(self) -> ConnectionView {
        ConnectionView { queue: Seq::empty(), ..self }
    }

    /// This handle with the record of `e` posted on it.
    pub open spec fn posted(self, e: ErrorView) -> ConnectionView {
        ConnectionView { queue: crate::diagnostics::settled(self.queue, Err(e)).0, ..self }
    }
}

impl ConnectionHandle {
    /// A handle just allocated: not connected, nothing set.
    pub fn new() -> (r: ConnectionHandle)
        ensures
            r@ == ConnectionView::fresh(),
    {
        ConnectionHandle {
            diagnostics: DiagnosticQueue::new(),
            connection: None,
            attrs: BTreeMap::new(),
            catalog: None,
            txn_dirty: false,
            browse_request: None,
        }
    }
}

/// The ODBC version an application asked for.
#[derive(Clone, Copy, PartialEq, Eq, Structural, Debug)]
pub enum OdbcVersion {
    /// `SQL_OV_ODBC3`.
    Odbc3,
    /// `SQL_OV_ODBC3_80`.
    Odbc3_80,
}

/// An environment handle.
pub struct EnvironmentHandle {
    pub diagnostics: DiagnosticQueue,
    pub odbc_version: OdbcVersion,
}

/// What the contracts say of an environment handle.
#[verifier::ext_equal]
pub struct EnvironmentView {
    pub queue: Seq<RecordView>,
    pub odbc_version: OdbcVersion,
}

impl View for EnvironmentHandle {
    type V = EnvironmentView;

    open spec fn view(&self) -> EnvironmentView {
        EnvironmentView { queue: self.diagnostics@, odbc_version: self.odbc_version }
    }
}

impl EnvironmentHandle {
    /// A handle just allocated.
    pub fn new() -> (r: EnvironmentHandle)
        ensures
            r@ == (EnvironmentView { queue: Seq::empty(), odbc_version: OdbcVersion::Odbc3 }),
    {
        EnvironmentHandle {
            diagnostics: DiagnosticQueue::new(),
            odbc_version: OdbcVersion::Odbc3,
        }
    }
}

/// What the backend reports of a statement it prepared or executed.
#[derive(Clone, Copy)]
pub struct StatementData {
    /// The number of columns of its result set, 0 where it has none.
    pub column_count: i16,
    /// The number of rows it affected, where that applies to it.
    pub row_count: Option<i64>,
}

/// A statement handle.
pub struct StatementHandle {
    pub diagnostics: DiagnosticQueue,
    /// The statement at the backend, by what it reports of it.
    pub statement: Option<StatementData>,
    /// Whether a result set is open.
    pub cursor_open: bool,
    /// Whether the statement was executed.
    pub executed: bool,
    pub cursor_name: Option<String>,
    pub prepared_sql: Option<String>,
    /// Whether a parameter waits for its data.
    pub data_at_exec: bool,
    /// The statement attributes the application set, those that are header
    /// fields of a descriptor among them.
    pub attrs: BTreeMap<i32, usize>,
    pub app_row_desc: Descriptor,
    pub app_param_desc: Descriptor,
    pub imp_row_desc: Descriptor,
    pub imp_param_desc: Descriptor,
}

/// What the contracts say of a statement handle.
#[verifier::ext_equal]
pub struct StatementView {
    pub queue: Seq<RecordView>,
    pub statement: Option<StatementData>,
    pub cursor_open: bool,
    pub executed: bool,
    pub cursor_name: Option<Seq<char>>,
    pub prepared_sql: Option<Seq<char>>,
    pub data_at_exec: bool,
    pub attrs: Map<i32, usize>,
    pub ard: DescriptorView,
    pub apd: DescriptorView,
    pub ird: DescriptorView,
    pub ipd: DescriptorView,
}

impl View for StatementHandle {
    type V = StatementView;

    open spec fn view(&self) -> StatementView {
        StatementView {
            queue: self.diagnostics@,
            statement: self.statement,
            cursor_open: self.cursor_open,
            executed: self.executed,
            cursor_name: text_of(self.cursor_name),
            prepared_sql: text_of(self.prepared_sql),
            data_at_exec: self.data_at_exec,
            attrs: self.attrs@,
            ard: self.app_row_desc@,
            apd: self.app_param_desc@,
            ird: self.imp_row_desc@,
            ipd: self.imp_param_desc@,
        }
    }
}

impl StatementView {
    /// A handle just allocated.
    pub open spec fn fresh() -> StatementView {
        let blank = DescriptorView { queue: Seq::empty(), records: Map::empty() };
        StatementView {
            queue: Seq::empty(),
            statement: None,
            cursor_open: false,
            executed: false,
            cursor_name: None,
            prepared_sql: None,
            data_at_exec: false,
            attrs: Map::empty(),
            ard: blank,
            apd: blank,
            ird: blank,
            ipd: blank,
        }
    }

    /// This handle with its diagnostics cleared.
    pub open spec fn cleared(self) -> StatementView {
        StatementView { queue: Seq::empty(), ..self }
    }

    /// This handle with the record of `e` posted on it.
    pub open spec fn posted(self, e: ErrorView) -> StatementView {
        StatementView { queue: crate::diagnostics::settled(self.queue, Err(e)).0, ..self }
    }

    /// This handle with its result set gone: back to allocated, or to prepared
    /// where there is a prepared statement.
    pub open spec fn discarded(self) -> StatementView {
        StatementView { statement: None, cursor_open: false, executed: false, ..self }
    }

    /// One of the four descriptors.
    pub open spec fn descriptor(self, role: DescriptorRole) -> DescriptorView {
        match role {
            DescriptorRole::Ard => self.ard,
            DescriptorRole::Apd => self.apd,
            DescriptorRole::Ird => self.ird,
            DescriptorRole::Ipd => self.ipd,
        }
    }

    /// This handle with one of the four descriptors replaced.
    pub open spec fn with_descriptor(self, role: DescriptorRole, d: DescriptorView) -> StatementView {
        match role {
            DescriptorRole::Ard => StatementView { ard: d, ..self },
            DescriptorRole::Apd => StatementView { apd: d, ..self },
            DescriptorRole::Ird => StatementView { ird: d, ..self },
            DescriptorRole::Ipd => StatementView { ipd: d, ..self },
        }
    }

    /// This handle with the diagnostics of one descriptor replaced.
    pub open spec fn with_descriptor_queue(
        self,
        role: DescriptorRole,
        queue: Seq<RecordView>,
    ) -> StatementView {
        self.with_descriptor(role, DescriptorView { queue, ..self.descriptor(role) })
    }
}

impl StatementHandle {
    /// A handle just allocated.
    pub fn new() -> (r: StatementHandle)
        ensures
            r@ == StatementView::fresh(),
    {
        StatementHandle {
            diagnostics: DiagnosticQueue::new(),
            statement: None,
            cursor_open: false,
            executed: false,
            cursor_name: None,
            prepared_sql: None,
            data_at_exec: false,
            attrs: BTreeMap::new(),
            app_row_desc: Descriptor::new(),
            app_param_desc: Descriptor::new(),
            imp_row_desc: Descriptor::new(),
            imp_param_desc: Descriptor::new(),
        }
    }

    /// Drops the result set, whether or not the backend could close it.
    pub fn discard_result_set(&mut self)
        ensures
            final(self)@ == old(self)@.discarded(),
    {
        self.statement = None;
        self.cursor_open = false;
        self.executed = false;
    }

    /// One of the four descriptors.
    pub fn descriptor(&self, role: DescriptorRole) -> (r: &Descriptor)
        ensures
            r@ == self@.descriptor(role),
    {
        match role {
            DescriptorRole::Ard => &self.app_row_desc,
            DescriptorRole::Apd => &self.app_param_desc,
            DescriptorRole::Ird => &self.imp_row_desc,
            DescriptorRole::Ipd => &self.imp_param_desc,
        }
    }

    /// One of the four descriptors, to change it.
    pub fn descriptor_mut(&mut self, role: DescriptorRole) -> (r: &mut Descriptor)
        ensures
            r@ == old(self)@.descriptor(role),
            final(self)@ == old(self)@.with_descriptor(role, final(r)@),
    {
        match role {
            DescriptorRole::Ard => &mut self.app_row_desc,
            DescriptorRole::Apd => &mut self.app_param_desc,
            DescriptorRole::Ird => &mut self.imp_row_desc,
            DescriptorRole::Ipd => &mut self.imp_param_desc,
        }
    }
}

/// A request to the backend.
pub enum BackendCall {
    /// Close the connection.
    Disconnect,
    /// Commit each statement by itself, or leave it to the application.
    SetAutocommit(bool),
    /// Run at this isolation level.
    SetTxnIsolation(u32),
    /// Enter or leave read-only mode.
    SetAccessMode(bool),
    /// Use this catalog.
    SetCurrentCatalog(String),
    /// Release what the statement's cursor holds.
    CloseCursor,
    /// Interrupt the statement.
    Cancel,
}

/// What the contracts say of a request.
#[verifier::ext_equal]
pub enum CallView {
    Disconnect,
    SetAutocommit(bool),
    SetTxnIsolation(u32),
    SetAccessMode(bool),
    SetCurrentCatalog(Seq<char>),
    CloseCursor,
    Cancel,
}

impl View for BackendCall {
    type V = CallView;

    open spec fn view(&self) -> CallView {
        match self {
            BackendCall::Disconnect => CallView::Disconnect,
            BackendCall::SetAutocommit(on) => CallView::SetAutocommit(*on),
            BackendCall::SetTxnIsolation(level) => CallView::SetTxnIsolation(*level),
            BackendCall::SetAccessMode(read_only) => CallView::SetAccessMode(*read_only),
            BackendCall::SetCurrentCatalog(c) => CallView::SetCurrentCatalog(c@),
            BackendCall::CloseCursor => CallView::CloseCursor,
            BackendCall::Cancel => CallView::Cancel,
        }
    }
}

/// How far a call has come: done, or waiting for the backend's answer.
pub enum Step {
    Done(SqlReturn),
    Ask(BackendCall),
}

/// What the contracts say of a step.
#[verifier::ext_equal]
pub enum StepView {
    Done(SqlReturn),
    Ask(CallView),
}

impl View for Step {
    type V = StepView;

    open spec fn view(&self) -> StepView {
        match self {
            Step::Done(code) => StepView::Done(*code),
            Step::Ask(call) => StepView::Ask(call@),
        }
    }
}

/// The answer to a request, with the failure by its view.
pub open spec fn answer(r: Result<(), OdbcError>) -> Result<(), ErrorView> {
    match r {
        Ok(_) => Ok(()),
        Err(e) => Err(e@),
    }
}

/// A record that is posted on a handle, or diagnostics that are cleared, change
/// nothing else of it.
pub proof fn law_diagnostics_are_all_that_posting_changes(
    c: ConnectionView,
    s: StatementView,
    e: ErrorView,
)
    requires
        !(e is InvalidHandle),
    ensures
        c.posted(e) == (ConnectionView {
            queue: c.queue.push(crate::diagnostics::record_of(e)),
            ..c
        }),
        s.posted(e) == (StatementView {
            queue: s.queue.push(crate::diagnostics::record_of(e)),
            ..s
        }),
        c.cleared() == (ConnectionView { queue: Seq::empty(), ..c }),
        s.cleared() == (StatementView { queue: Seq::empty(), ..s }),
{
}

/// The four descriptors of a statement are its own and separate: the one that is
/// replaced is the one that is found, and the others stay.
pub proof fn law_the_descriptors_are_separate(
    s: StatementView,
    role: DescriptorRole,
    other: DescriptorRole,
    d: DescriptorView,
)
    ensures
        s.with_descriptor(role, d).descriptor(role) == d,
        other != role ==> s.with_descriptor(role, d).descriptor(other) == s.descriptor(other),
        s.with_descriptor(role, s.descriptor(role)) == s,
        s.descriptor(DescriptorRole::Ard) == s.ard,
        s.descriptor(DescriptorRole::Apd) == s.apd,
        s.descriptor(DescriptorRole::Ird) == s.ird,
        s.descriptor(DescriptorRole::Ipd) == s.ipd,
{
}

/// A result set that goes takes nothing with it but the statement at the backend
/// and what says that there is one.
pub proof fn law_what_a_discarded_result_set_leaves(s: StatementView)
    ensures
        s.discarded() == (StatementView {
            statement: None,
            cursor_open: false,
            executed: false,
            ..s
        }),
{
}

/// On a new connection no attribute was set, nothing is open and nothing is pending.
pub proof fn law_a_new_connection_has_nothing(attribute: i32)
    ensures
        ({
            let c = ConnectionView::fresh();
            &&& !c.attrs.dom().contains(attribute)
            &&& c.session is None && c.catalog is None && c.browse is None
            &&& !c.txn_dirty
            &&& c.queue.len() == 0
        }),
{
}

/// On a new statement nothing was prepared, executed, named or bound, on any of its
/// descriptors.
pub proof fn law_a_new_statement_has_nothing(role: DescriptorRole, n: u16, attribute: i32)
    ensures
        ({
            let s = StatementView::fresh();
            &&& !s.descriptor(role).records.dom().contains(n)
            &&& s.descriptor(role).queue.len() == 0
            &&& !s.attrs.dom().contains(attribute)
            &&& s.statement is None && s.cursor_name is None && s.prepared_sql is None
            &&& !s.cursor_open && !s.executed && !s.data_at_exec
            &&& s.queue.len() == 0
        }),
{
}

} // verus!
