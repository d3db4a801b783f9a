//! [`OdbcError`] and its mapping to SQLSTATEs and return codes.

use vstd::prelude::*;

use crate::types::{SqlReturn, SqlState};
use crate::types::sql_state::{
    CONNECTION_NOT_OPEN, FRACTIONAL_TRUNCATION, GENERAL_ERROR, INVALID_CURSOR_STATE,
    OPTIONAL_FEATURE_NOT_IMPLEMENTED, STRING_DATA_RIGHT_TRUNCATED,
};

verus! {

/// One link of the chain of failures behind an error: its message, and the
/// failure that caused it in turn.
#[derive(Debug)]
pub struct Cause {
    message: String,
    source: Option<Box<Cause>>,
}

impl View for Cause {
    type V = Seq<Seq<char>>;

    /// The messages of the chain, outermost first.
    closed spec fn view(&self) -> Seq<Seq<char>> {
        self.chain()
    }
}

impl Cause {
    pub closed spec fn chain(&self) -> Seq<Seq<char>>
        decreases self,
    {
        match self.source {
            Some(inner) => seq![self.message@] + inner.chain(),
            None => seq![self.message@],
        }
    }

    /// A chain of one link.
    pub fn new(message: &str) -> (r: Cause)
        ensures
            r@ == seq![message@],
    {
        Cause { message: message.to_owned(), source: None }
    }

    /// The link `message` in front of the chain `source`.
    pub fn caused_by(message: &str, source: Cause) -> (r: Cause)
        ensures
            r@ == seq![message@] + source@,
    {
        Cause { message: message.to_owned(), source: Some(Box::new(source)) }
    }

    /// The message of this link.
    pub fn to_string(&self) -> (r: String)
        ensures
            r@ == self@[0],
    {
        self.message.clone()
    }

    /// The rest of the chain.
    pub fn source(&self) -> (r: Option<&Cause>)
        ensures
            self@.len() > 0,
            r is None <==> self@.len() == 1,
            r matches Some(inner) ==> inner@ == self@.drop_first(),
    {
        match &self.source {
            Some(inner) => {
                proof {
                    inner.chain_is_not_empty();
                    assert(self@.drop_first() == inner@);
                }
                Some(&**inner)
            },
            None => None,
        }
    }

    pub proof fn chain_is_not_empty(&self)
        ensures
            self@.len() > 0,
    {
    }
}

/// What the contracts say of an [`OdbcError`]: its variant with every text as
/// a sequence of characters, and the causal chain as the messages along it.
#[verifier::ext_equal]
pub enum ErrorView {
    InvalidHandle,
    NotImplemented { feature: Seq<char> },
    NotConnected,
    NoResultSet,
    StringTruncated,
    FractionalTruncation,
    General {
        message: Seq<char>,
        sqlstate: Seq<char>,
        native_error: int,
        causes: Seq<Seq<char>>,
    },
    Panic { message: Seq<char> },
    MissingParameter { name: Seq<char> },
}

impl ErrorView {
    /// A [`OdbcError::General`] with no native code and no cause.
    pub open spec fn general(message: Seq<char>, sqlstate: Seq<char>) -> ErrorView {
        ErrorView::General { message, sqlstate, native_error: 0, causes: Seq::empty() }
    }

    /// The SQLSTATE reported for the error.
    pub open spec fn sqlstate(self) -> Seq<char> {
        match self {
            ErrorView::InvalidHandle => GENERAL_ERROR@,
            ErrorView::NotImplemented { .. } => OPTIONAL_FEATURE_NOT_IMPLEMENTED@,
            ErrorView::NotConnected => CONNECTION_NOT_OPEN@,
            ErrorView::NoResultSet => INVALID_CURSOR_STATE@,
            ErrorView::StringTruncated => STRING_DATA_RIGHT_TRUNCATED@,
            ErrorView::FractionalTruncation => FRACTIONAL_TRUNCATION@,
            ErrorView::General { sqlstate, .. } => sqlstate,
            ErrorView::Panic { .. } => GENERAL_ERROR@,
            ErrorView::MissingParameter { .. } => GENERAL_ERROR@,
        }
    }

    /// The data source's own code, 0 where there is none.
    pub open spec fn native_error(self) -> int {
        match self {
            ErrorView::General { native_error, .. } => native_error,
            _ => 0,
        }
    }

    /// The messages of the causal chain, outermost first.
    pub open spec fn causes(self) -> Seq<Seq<char>> {
        match self {
            ErrorView::General { causes, .. } => causes,
            _ => Seq::empty(),
        }
    }

    /// What the failing call returns.
    pub open spec fn sql_return(self) -> SqlReturn {
        match self {
            ErrorView::InvalidHandle => SqlReturn::INVALID_HANDLE,
            ErrorView::StringTruncated => SqlReturn::SUCCESS_WITH_INFO,
            ErrorView::FractionalTruncation => SqlReturn::SUCCESS_WITH_INFO,
            _ => SqlReturn::ERROR,
        }
    }

    /// The error's own message, without its causes.
    pub open spec fn display(self) -> Seq<char> {
        match self {
            ErrorView::InvalidHandle => "Invalid handle"@,
            ErrorView::NotImplemented { feature } => feature + " is not implemented"@,
            ErrorView::NotConnected => "Connection not established"@,
            ErrorView::NoResultSet => "No result set available"@,
            ErrorView::StringTruncated => "String data truncated"@,
            ErrorView::FractionalTruncation => "Fractional truncation"@,
            ErrorView::General { message, .. } => message,
            ErrorView::Panic { message } => "Panic in driver: "@ + message,
            ErrorView::MissingParameter { name } => "Missing required parameter: "@ + name,
        }
    }

    /// This error with `code` as its native code; only a general error has one.
    pub open spec fn with_native_error(self, code: int) -> ErrorView {
        match self {
            ErrorView::General { message, sqlstate, causes, .. } => ErrorView::General {
                message,
                sqlstate,
                native_error: code,
                causes,
            },
            _ => self,
        }
    }

    /// This error with `chain` as its causes; only a general error has any.
    pub open spec fn with_source(self, chain: Seq<Seq<char>>) -> ErrorView {
        match self {
            ErrorView::General { message, sqlstate, native_error, .. } => ErrorView::General {
                message,
                sqlstate,
                native_error,
                causes: chain,
            },
            _ => self,
        }
    }
}

/// The failures the driver reports, each with its SQLSTATE and return code.
///
/// Further failure modes may be added: match with a wildcard arm.
#[non_exhaustive]
#[derive(Debug)]
pub enum OdbcError {
    /// The handle is not one the driver handed out, or was freed. It posts no
    /// diagnostic record.
    InvalidHandle,
    /// An optional feature the driver does not provide (`HYC00`).
    NotImplemented {
        /// The feature named in the message.
        feature: String,
    },
    /// An operation that needs a live connection found none (`08003`).
    NotConnected,
    /// A cursor operation with no result set open (`24000`).
    NoResultSet,
    /// A string was cut to fit the application's buffer (`01004`).
    StringTruncated,
    /// Fractional digits were dropped (`01S07`).
    FractionalTruncation,
    /// Any other failure, with the SQLSTATE its origin determined.
    General {
        /// The message the application reads.
        message: String,
        /// The SQLSTATE reported.
        sqlstate: SqlState,
        /// The data source's own code, 0 where there is none.
        native_error: i32,
        /// The failure behind this one.
        cause: Option<Cause>,
    },
    /// A panic caught at the interface (`HY000`).
    Panic {
        /// The panic's message.
        message: String,
    },
    /// A required connection parameter was absent (`HY000`).
    MissingParameter {
        /// The parameter's name.
        name: String,
    },
}

impl View for OdbcError {
    type V = ErrorView;

    open spec fn view(&self) -> ErrorView {
        match self {
            OdbcError::InvalidHandle => ErrorView::InvalidHandle,
            OdbcError::NotImplemented { feature } => ErrorView::NotImplemented {
                feature: feature@,
            },
            OdbcError::NotConnected => ErrorView::NotConnected,
            OdbcError::NoResultSet => ErrorView::NoResultSet,
            OdbcError::StringTruncated => ErrorView::StringTruncated,
            OdbcError::FractionalTruncation => ErrorView::FractionalTruncation,
            OdbcError::General { message, sqlstate, native_error, cause } => ErrorView::General {
                message: message@,
                sqlstate: sqlstate@,
                native_error: *native_error as int,
                causes: match cause {
                    Some(c) => c@,
                    None => Seq::empty(),
                },
            },
            OdbcError::Panic { message } => ErrorView::Panic { message: message@ },
            OdbcError::MissingParameter { name } => ErrorView::MissingParameter { name: name@ },
        }
    }
}

impl OdbcError {
    /// A failure with its own message and SQLSTATE, no native code and no cause.
    pub fn general(message: &str, sqlstate: SqlState) -> (r: OdbcError)
        ensures
            r@ == ErrorView::general(message@, sqlstate@),
    {
        OdbcError::General { message: message.to_owned(), sqlstate, native_error: 0, cause: None }
    }

    /// An optional feature the driver does not provide.
    pub fn not_implemented(feature: &str) -> (r: OdbcError)
        ensures
            r@ == (ErrorView::NotImplemented { feature: feature@ }),
    {
        OdbcError::NotImplemented { feature: feature.to_owned() }
    }

    /// Records the data source's own code; the other variants have none.
    #[must_use]
    pub fn with_native_error(self, code: i32) -> (r: OdbcError)
        ensures
            r@ == self@.with_native_error(code as int),
    {
        match self {
            OdbcError::General { message, sqlstate, native_error: _, cause } => {
                OdbcError::General { message, sqlstate, native_error: code, cause }
            },
            other => other,
        }
    }

    /// Records the failure behind this one; the other variants have none.
    #[must_use]
    pub fn with_source(self, source: Cause) -> (r: OdbcError)
        ensures
            r@ == self@.with_source(source@),
    {
        match self {
            OdbcError::General { message, sqlstate, native_error, cause: _ } => {
                OdbcError::General { message, sqlstate, native_error, cause: Some(source) }
            },
            other => other,
        }
    }

    /// The failure behind this one.
    pub fn cause(&self) -> (r: Option<&Cause>)
        ensures
            match r {
                Some(c) => c@ == self@.causes() && c@.len() > 0,
                None => self@.causes() == Seq::<Seq<char>>::empty(),
            },
    {
        match self {
            OdbcError::General { cause, .. } => match cause {
                Some(c) => {
                    proof {
                        c.chain_is_not_empty();
                    }
                    Some(c)
                },
                None => None,
            },
            _ => None,
        }
    }

    /// The data source's own code, 0 where there is none.
    pub fn native_error(&self) -> (r: i32)
        ensures
            r == self@.native_error(),
    {
        match self {
            OdbcError::General { native_error, .. } => *native_error,
            _ => 0,
        }
    }

    /// The SQLSTATE the diagnostic record carries.
    pub fn sqlstate(&self) -> (r: SqlState)
        ensures
            r@ == self@.sqlstate(),
    {
        match self {
            OdbcError::InvalidHandle => SqlState::general_error(),
            OdbcError::NotImplemented { .. } => SqlState::optional_feature_not_implemented(),
            OdbcError::NotConnected => SqlState::connection_not_open(),
            OdbcError::NoResultSet => SqlState::invalid_cursor_state(),
            OdbcError::StringTruncated => SqlState::string_data_right_truncated(),
            OdbcError::FractionalTruncation => SqlState::fractional_truncation(),
            OdbcError::General { sqlstate, .. } => *sqlstate,
            OdbcError::Panic { .. } => SqlState::general_error(),
            OdbcError::MissingParameter { .. } => SqlState::general_error(),
        }
    }

    /// What the failing call returns.
    pub fn sql_return(&self) -> (r: SqlReturn)
        ensures
            r == self@.sql_return(),
    {
        match self {
            OdbcError::InvalidHandle => SqlReturn::INVALID_HANDLE,
            OdbcError::StringTruncated | OdbcError::FractionalTruncation => {
                SqlReturn::SUCCESS_WITH_INFO
            },
            _ => SqlReturn::ERROR,
        }
    }

    /// The error's own message, without its causes.
    pub fn to_string(&self) -> (r: String)
        ensures
            r@ == self@.display(),
    {
        match self {
            OdbcError::InvalidHandle => "Invalid handle".to_owned(),
            OdbcError::NotImplemented { feature } => feature.clone().concat(" is not implemented"),
            OdbcError::NotConnected => "Connection not established".to_owned(),
            OdbcError::NoResultSet => "No result set available".to_owned(),
            OdbcError::StringTruncated => "String data truncated".to_owned(),
            OdbcError::FractionalTruncation => "Fractional truncation".to_owned(),
            OdbcError::General { message, .. } => message.clone(),
            OdbcError::Panic { message } => "Panic in driver: ".to_owned().concat(
                message.as_str(),
            ),
            OdbcError::MissingParameter { name } => "Missing required parameter: ".to_owned().concat(
                name.as_str(),
            ),
        }
    }
}

/// The native code and the causal chain do not disturb one another: the two
/// builders give the same error in either order.
pub proof fn law_error_builders_commute(e: ErrorView, code: int, chain: Seq<Seq<char>>)
    ensures
        e.with_native_error(code).with_source(chain) == e.with_source(chain).with_native_error(
            code,
        ),
        e.with_native_error(code).causes() == e.causes(),
        e.with_source(chain).native_error() == e.native_error(),
{
}

/// A failure that did not come from the data source has no native code and no
/// cause, whatever a builder was given.
pub proof fn law_only_general_errors_carry_details(e: ErrorView, code: int, chain: Seq<Seq<char>>)
    requires
        !(e is General),
    ensures
        e.with_native_error(code).native_error() == 0,
        e.with_source(chain).causes() == Seq::<Seq<char>>::empty(),
{
}

/// What a call returns for a failure goes by its state: a warning, of class `01`,
/// is no error, and an invalid handle has a code of its own. What the data source
/// reports is an error whatever its state.
pub proof fn law_only_warnings_succeed(e: ErrorView)
    ensures
        e.sql_return() != SqlReturn::SUCCESS,
        !(e is General) && !(e is InvalidHandle) ==> (e.sql_return()
            == SqlReturn::SUCCESS_WITH_INFO) == (e.sqlstate()[0] == '0' && e.sqlstate()[1] == '1'),
        e is General ==> e.sql_return() == SqlReturn::ERROR,
        (e.sql_return() == SqlReturn::INVALID_HANDLE) == (e is InvalidHandle),
{
    reveal_strlit("HYC00");
    reveal_strlit("08003");
    reveal_strlit("24000");
    reveal_strlit("01004");
    reveal_strlit("01S07");
    reveal_strlit("HY000");
}

/// A general error is what it was made of.
pub proof fn law_a_general_error_is_what_it_was_made_of(
    message: Seq<char>,
    sqlstate: Seq<char>,
    code: int,
    chain: Seq<Seq<char>>,
)
    ensures
        ({
            let e = ErrorView::general(message, sqlstate);
            let f = e.with_native_error(code).with_source(chain);
            &&& e.sqlstate() == sqlstate && e.display() == message
            &&& e.native_error() == 0 && e.causes().len() == 0
            &&& f.sqlstate() == sqlstate && f.display() == message
            &&& f.native_error() == code && f.causes() == chain
        }),
{
}

/// Each kind of failure has a state of its own class, whatever it carries: what is not
/// there to be called is optional, a missing connection or cursor says so, and what was cut
/// is a warning.
pub proof fn law_each_failure_has_its_state(e: ErrorView)
    ensures
        e is NotImplemented ==> e.sqlstate() == "HYC00"@,
        e is NotConnected ==> e.sqlstate() == "08003"@,
        e is NoResultSet ==> e.sqlstate() == "24000"@,
        e is StringTruncated ==> e.sqlstate() == "01004"@,
        e is FractionalTruncation ==> e.sqlstate() == "01S07"@,
        e is InvalidHandle || e is Panic || e is MissingParameter ==> e.sqlstate() == "HY000"@,
{
}

} // verus!
