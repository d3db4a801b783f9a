//! Return codes and the ODBC constants the driver logic reads.

use vstd::prelude::*;

pub mod connection_attribute;
pub mod descriptor_field;
pub mod sql_state;

pub use sql_state::SqlState;

verus! {

/// What an ODBC function returns to the application.
#[allow(non_camel_case_types)]
#[derive(Clone, Copy, PartialEq, Eq, Structural, Debug)]
pub enum SqlReturn {
    SUCCESS,
    SUCCESS_WITH_INFO,
    NO_DATA,
    NEED_DATA,
    ERROR,
    INVALID_HANDLE,
}

impl SqlReturn {
    /// The number the C interface returns.
    pub open spec fn spec_code(self) -> int {
        match self {
            SqlReturn::SUCCESS => 0,
            SqlReturn::SUCCESS_WITH_INFO => 1,
            SqlReturn::NO_DATA => 100,
            SqlReturn::NEED_DATA => 99,
            SqlReturn::ERROR => -1,
            SqlReturn::INVALID_HANDLE => -2,
        }
    }

    /// The number the C interface returns.
    pub fn code(self) -> (r: i16)
        ensures
            r == self.spec_code(),
    {
        match self {
            SqlReturn::SUCCESS => 0,
            SqlReturn::SUCCESS_WITH_INFO => 1,
            SqlReturn::NO_DATA => 100,
            SqlReturn::NEED_DATA => 99,
            SqlReturn::ERROR => -1,
            SqlReturn::INVALID_HANDLE => -2,
        }
    }
}

/// A code tells one outcome from every other, and an application tells success from
/// failure by it: zero and one are successes, negative codes are failures.
pub proof fn law_codes_tell_outcomes_apart(a: SqlReturn, b: SqlReturn)
    ensures
        a.spec_code() == b.spec_code() ==> a == b,
        (0 <= a.spec_code() <= 1) == (a == SqlReturn::SUCCESS || a == SqlReturn::SUCCESS_WITH_INFO),
        (a.spec_code() < 0) == (a == SqlReturn::ERROR || a == SqlReturn::INVALID_HANDLE),
        a.spec_code() == 0 ==> a == SqlReturn::SUCCESS,
        a.spec_code() == -1 ==> a == SqlReturn::ERROR,
        (a.spec_code() == 100) == (a == SqlReturn::NO_DATA),
        (a.spec_code() == 99) == (a == SqlReturn::NEED_DATA),
{
}

} // verus!
