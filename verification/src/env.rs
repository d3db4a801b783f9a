//! Environment attributes: `SQLSetEnvAttr` and `SQLGetEnvAttr`.

use vstd::prelude::*;

use crate::diagnostics::{RecordView, settle, settled};
use crate::errors::{ErrorView, OdbcError};
use crate::handles::{EnvironmentHandle, EnvironmentView, OdbcVersion};
use crate::text::{decimal, decimal_of, join2};
use crate::types::{SqlReturn, SqlState};
use crate::types::sql_state::{FUNCTION_SEQUENCE_ERROR, INVALID_ATTRIBUTE_VALUE};

verus! {

/// `SQL_ATTR_ODBC_VERSION`.
pub const SQL_ATTR_ODBC_VERSION: i32 = 200;

/// `SQL_ATTR_OUTPUT_NTS`.
pub const SQL_ATTR_OUTPUT_NTS: i32 = 10001;

/// `SQL_TRUE`.
pub const SQL_TRUE: i32 = 1;

/// The number of a version.
pub open spec fn version_number(version: OdbcVersion) -> i32 {
    match version {
        OdbcVersion::Odbc3 => 3,
        OdbcVersion::Odbc3_80 => 380,
    }
}

/// The version that a number stands for.
pub open spec fn version_of(n: i32) -> Option<OdbcVersion> {
    if n == 3 {
        Some(OdbcVersion::Odbc3)
    } else if n == 380 {
        Some(OdbcVersion::Odbc3_80)
    } else {
        None
    }
}

/// The failure for an environment that already has connections.
pub open spec fn too_late() -> ErrorView {
    ErrorView::general(
        "Cannot set environment attribute: connections already allocated"@,
        FUNCTION_SEQUENCE_ERROR@,
    )
}

/// The failure for a number that is no version.
pub open spec fn bad_version(n: int) -> ErrorView {
    ErrorView::general("Invalid ODBC version value: "@ + decimal(n), INVALID_ATTRIBUTE_VALUE@)
}

/// The failure for something this driver does not do.
pub open spec fn unsupported(feature: Seq<char>) -> ErrorView {
    ErrorView::NotImplemented { feature }
}

/// The version after an attribute was set, or why it was not. The value is the
/// low half of the pointer-sized argument.
pub open spec fn set_attr(
    version: OdbcVersion,
    has_connections: bool,
    attribute: i32,
    value: usize,
) -> Result<OdbcVersion, ErrorView> {
    if has_connections {
        Err(too_late())
    } else if attribute == SQL_ATTR_ODBC_VERSION {
        match version_of(value as i32) {
            Some(v) => Ok(v),
            None => Err(bad_version(value as i32 as int)),
        }
    } else if attribute == SQL_ATTR_OUTPUT_NTS {
        if value as i32 == SQL_TRUE {
            Ok(version)
        } else {
            Err(unsupported("SQL_ATTR_OUTPUT_NTS = SQL_FALSE"@))
        }
    } else {
        Err(unsupported("SQLSetEnvAttr attribute "@ + decimal(attribute as int)))
    }
}

/// The value of an attribute, or why there is none.
pub open spec fn get_attr(version: OdbcVersion, attribute: i32) -> Result<i32, ErrorView> {
    if attribute == SQL_ATTR_ODBC_VERSION {
        Ok(version_number(version))
    } else if attribute == SQL_ATTR_OUTPUT_NTS {
        Ok(SQL_TRUE)
    } else {
        Err(unsupported("SQLGetEnvAttr attribute "@ + decimal(attribute as int)))
    }
}

/// What the place for the value of an attribute holds after it was asked for.
pub open spec fn value_written(version: OdbcVersion, attribute: i32, before: i32) -> i32 {
    match get_attr(version, attribute) {
        Ok(v) => v,
        Err(_) => before,
    }
}

/// What the place for the length of an attribute holds after it was asked for.
pub open spec fn length_written(version: OdbcVersion, attribute: i32, before: i32) -> i32 {
    match get_attr(version, attribute) {
        Ok(_) => 4,
        Err(_) => before,
    }
}

/// What `SQLSetEnvAttr` does to the environment and returns.
pub open spec fn set_env_step(
    e: EnvironmentView,
    has_connections: bool,
    attribute: i32,
    value: usize,
) -> (EnvironmentView, SqlReturn) {
    match set_attr(e.odbc_version, has_connections, attribute, value) {
        Ok(odbc_version) => (
            EnvironmentView { queue: Seq::empty(), odbc_version },
            SqlReturn::SUCCESS,
        ),
        Err(err) => {
            let (queue, code) = settled(Seq::empty(), Err(err));
            (EnvironmentView { queue, ..e }, code)
        },
    }
}

/// What `SQLGetEnvAttr` does to the environment and returns.
pub open spec fn get_env_step(e: EnvironmentView, attribute: i32) -> (EnvironmentView, SqlReturn) {
    let (queue, code) = settled(
        Seq::empty(),
        match get_attr(e.odbc_version, attribute) {
            Ok(_) => Ok(SqlReturn::SUCCESS),
            Err(err) => Err(err),
        },
    );
    (EnvironmentView { queue, ..e }, code)
}

/// The version that a number stands for.
pub fn attr_odbc_version_from_raw(n: i32) -> (r: Option<OdbcVersion>)
    ensures
        r == version_of(n),
{
    if n == 3 {
        Some(OdbcVersion::Odbc3)
    } else if n == 380 {
        Some(OdbcVersion::Odbc3_80)
    } else {
        None
    }
}

fn set(env: &mut EnvironmentHandle, has_connections: bool, attribute: i32, value: usize) -> (r:
    Result<SqlReturn, OdbcError>)
    ensures
        final(env)@.queue == old(env)@.queue,
        match r {
            Ok(code) => code == SqlReturn::SUCCESS && set_attr(
                old(env)@.odbc_version,
                has_connections,
                attribute,
                value,
            ) == Ok::<OdbcVersion, ErrorView>(final(env)@.odbc_version),
            Err(e) => final(env)@ == old(env)@ && set_attr(
                old(env)@.odbc_version,
                has_connections,
                attribute,
                value,
            ) == Err::<OdbcVersion, ErrorView>(e@),
        },
{
    if has_connections {
        return Err(
            OdbcError::general(
                "Cannot set environment attribute: connections already allocated",
                SqlState::function_sequence_error(),
            ),
        );
    }
    if attribute == SQL_ATTR_ODBC_VERSION {
        let number: i32 = value as i32;
        match attr_odbc_version_from_raw(number) {
            Some(version) => {
                env.odbc_version = version;
                Ok(SqlReturn::SUCCESS)
            },
            None => {
                let text = decimal_of(number as i64);
                Err(
                    OdbcError::general(
                        join2("Invalid ODBC version value: ", text.as_str()).as_str(),
                        SqlState::invalid_attribute_value(),
                    ),
                )
            },
        }
    } else if attribute == SQL_ATTR_OUTPUT_NTS {
        if value as i32 == SQL_TRUE {
            Ok(SqlReturn::SUCCESS)
        } else {
            Err(OdbcError::not_implemented("SQL_ATTR_OUTPUT_NTS = SQL_FALSE"))
        }
    } else {
        let number = decimal_of(attribute as i64);
        Err(
            OdbcError::not_implemented(
                join2("SQLSetEnvAttr attribute ", number.as_str()).as_str(),
            ),
        )
    }
}

/// `SQLSetEnvAttr`. `has_connections` says whether a connection is allocated on
/// the environment; `value` is the pointer argument as a number.
pub fn sql_set_env_attr(
    env: Option<&mut EnvironmentHandle>,
    has_connections: bool,
    attribute: i32,
    value: usize,
) -> (r: SqlReturn)
    ensures
        match env {
            None => r == SqlReturn::INVALID_HANDLE,
            Some(e) => (final(e)@, r) == set_env_step(e@, has_connections, attribute, value),
        },
{
    match env {
        None => SqlReturn::INVALID_HANDLE,
        Some(e) => {
            e.diagnostics.clear();
            let outcome = set(e, has_connections, attribute, value);
            settle(&mut e.diagnostics, outcome)
        },
    }
}

/// The value of an attribute.
fn get(env: &EnvironmentHandle, attribute: i32) -> (r: Result<i32, OdbcError>)
    ensures
        match r {
            Ok(v) => get_attr(env@.odbc_version, attribute) == Ok::<i32, ErrorView>(v),
            Err(e) => get_attr(env@.odbc_version, attribute) == Err::<i32, ErrorView>(e@),
        },
{
    if attribute == SQL_ATTR_ODBC_VERSION {
        match env.odbc_version {
            OdbcVersion::Odbc3 => Ok(3),
            OdbcVersion::Odbc3_80 => Ok(380),
        }
    } else if attribute == SQL_ATTR_OUTPUT_NTS {
        Ok(SQL_TRUE)
    } else {
        let number = decimal_of(attribute as i64);
        Err(
            OdbcError::not_implemented(
                join2("SQLGetEnvAttr attribute ", number.as_str()).as_str(),
            ),
        )
    }
}

/// `SQLGetEnvAttr`: the value goes to `value`, and its size in bytes to
/// `string_length`, where the application asked for them.
pub fn sql_get_env_attr(
    env: Option<&mut EnvironmentHandle>,
    attribute: i32,
    value: Option<&mut i32>,
    string_length: Option<&mut i32>,
) -> (r: SqlReturn)
    ensures
        match env {
            None => {
                &&& r == SqlReturn::INVALID_HANDLE
                &&& value matches Some(p) ==> *final(p) == *p
                &&& string_length matches Some(p) ==> *final(p) == *p
            },
            Some(e) => {
                &&& (final(e)@, r) == get_env_step(e@, attribute)
                &&& value matches Some(p) ==> *final(p) == value_written(
                    e@.odbc_version,
                    attribute,
                    *p,
                )
                &&& string_length matches Some(p) ==> *final(p) == length_written(
                    e@.odbc_version,
                    attribute,
                    *p,
                )
            },
        },
{
    match env {
        None => SqlReturn::INVALID_HANDLE,
        Some(e) => {
            e.diagnostics.clear();
            match get(e, attribute) {
                Ok(v) => {
                    if let Some(p) = value {
                        *p = v;
                    }
                    if let Some(p) = string_length {
                        *p = 4;
                    }
                    SqlReturn::SUCCESS
                },
                Err(err) => settle(&mut e.diagnostics, Err(err)),
            }
        },
    }
}

/// A version that was set is the one that is read, and nothing but a version
/// can be set.
pub proof fn law_versions_read_back(e: EnvironmentView, value: usize)
    ensures
        ({
            let (after, code) = set_env_step(e, false, SQL_ATTR_ODBC_VERSION, value);
            if version_of(value as i32) is Some {
                &&& code == SqlReturn::SUCCESS
                &&& get_attr(after.odbc_version, SQL_ATTR_ODBC_VERSION) == Ok::<i32, ErrorView>(
                    value as i32,
                )
            } else {
                &&& code == SqlReturn::ERROR
                &&& after.odbc_version == e.odbc_version
            }
        }),
{
}

/// With a connection allocated nothing can be set.
pub proof fn law_attributes_are_fixed_by_the_first_connection(
    e: EnvironmentView,
    attribute: i32,
    value: usize,
)
    ensures
        set_env_step(e, true, attribute, value).1 == SqlReturn::ERROR,
        set_env_step(e, true, attribute, value).0.odbc_version == e.odbc_version,
{
}

/// Each call starts with an empty queue: what it leaves does not depend on the
/// records of an earlier one.
pub proof fn law_calls_clear_earlier_diagnostics(
    e: EnvironmentView,
    queue: Seq<RecordView>,
    has_connections: bool,
    attribute: i32,
    value: usize,
)
    ensures
        set_env_step(EnvironmentView { queue, ..e }, has_connections, attribute, value)
            == set_env_step(e, has_connections, attribute, value),
        get_env_step(EnvironmentView { queue, ..e }, attribute) == get_env_step(e, attribute),
{
}

/// Versions 3 and 3.80 can be set and no other, and the number set is the one
/// read.
pub proof fn law_the_versions_are_three_and_three_eighty(e: EnvironmentView, value: usize)
    ensures
        ({
            let n = value as i32;
            let (after, code) = set_env_step(e, false, SQL_ATTR_ODBC_VERSION, value);
            &&& (code == SqlReturn::SUCCESS) == (n == 3 || n == 380)
            &&& code == SqlReturn::SUCCESS ==> get_attr(
                after.odbc_version,
                SQL_ATTR_ODBC_VERSION,
            ) == Ok::<i32, ErrorView>(n)
        }),
{
}

/// Texts always end in a null: that can be asked for and is what is read, and
/// nothing else can be set by it.
pub proof fn law_texts_always_end_in_a_null(e: EnvironmentView, value: usize)
    ensures
        get_attr(e.odbc_version, SQL_ATTR_OUTPUT_NTS) == Ok::<i32, ErrorView>(1),
        ({
            let (after, code) = set_env_step(e, false, SQL_ATTR_OUTPUT_NTS, value);
            &&& (code == SqlReturn::SUCCESS) == (value as i32 == 1)
            &&& after.odbc_version == e.odbc_version
        }),
{
}

/// An attribute that is neither of the two is refused, in reading and in setting,
/// and leaves one record.
pub proof fn law_other_attributes_are_refused(e: EnvironmentView, attribute: i32, value: usize)
    requires
        attribute != SQL_ATTR_ODBC_VERSION,
        attribute != SQL_ATTR_OUTPUT_NTS,
    ensures
        ({
            let (after, code) = set_env_step(e, false, attribute, value);
            &&& code == SqlReturn::ERROR
            &&& after.odbc_version == e.odbc_version
            &&& after.queue.len() == 1
            &&& after.queue[0].sqlstate == "HYC00"@
        }),
        get_env_step(e, attribute).1 == SqlReturn::ERROR,
        get_env_step(e, attribute).0.queue.len() == 1,
        get_env_step(e, attribute).0.queue[0].sqlstate == "HYC00"@,
{
}

/// A version that was set is the number written, with a length of four bytes; an
/// attribute that there is none of leaves both places as they were.
pub proof fn law_an_attribute_is_written_to_its_place(
    e: EnvironmentView,
    value: usize,
    attribute: i32,
    before: i32,
)
    requires
        value == 3 || value == 380,
    ensures
        ({
            let version = set_env_step(e, false, SQL_ATTR_ODBC_VERSION, value).0.odbc_version;
            &&& value_written(version, SQL_ATTR_ODBC_VERSION, before) == value
            &&& length_written(version, SQL_ATTR_ODBC_VERSION, before) == 4
            &&& value_written(version, SQL_ATTR_OUTPUT_NTS, before) == 1
            &&& length_written(version, SQL_ATTR_OUTPUT_NTS, before) == 4
        }),
        attribute != SQL_ATTR_ODBC_VERSION && attribute != SQL_ATTR_OUTPUT_NTS ==> value_written(
            e.odbc_version,
            attribute,
            before,
        ) == before && length_written(e.odbc_version, attribute, before) == before,
{
}

} // verus!
