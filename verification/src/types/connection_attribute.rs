//! The connection attributes ODBC defines, by their numbers.

use vstd::prelude::*;

verus! {

/// `SQL_ATTR_ASYNC_ENABLE`.
pub const ASYNC_ENABLE: i32 = 4;

/// `SQL_ATTR_ACCESS_MODE`.
pub const ACCESS_MODE: i32 = 101;

/// `SQL_ATTR_AUTOCOMMIT`.
pub const AUTOCOMMIT: i32 = 102;

/// `SQL_ATTR_LOGIN_TIMEOUT`.
pub const LOGIN_TIMEOUT: i32 = 103;

/// `SQL_ATTR_TRACE`.
pub const TRACE: i32 = 104;

/// `SQL_ATTR_TRACEFILE`.
pub const TRACEFILE: i32 = 105;

/// `SQL_ATTR_TRANSLATE_LIB`.
pub const TRANSLATE_LIB: i32 = 106;

/// `SQL_ATTR_TRANSLATE_OPTION`.
pub const TRANSLATE_OPTION: i32 = 107;

/// `SQL_ATTR_TXN_ISOLATION`.
pub const TXN_ISOLATION: i32 = 108;

/// `SQL_ATTR_CURRENT_CATALOG`.
pub const CURRENT_CATALOG: i32 = 109;

/// `SQL_ATTR_ODBC_CURSORS`.
pub const ODBC_CURSORS: i32 = 110;

/// `SQL_ATTR_QUIET_MODE`.
pub const QUIET_MODE: i32 = 111;

/// `SQL_ATTR_PACKET_SIZE`.
pub const PACKET_SIZE: i32 = 112;

/// `SQL_ATTR_CONNECTION_TIMEOUT`.
pub const CONNECTION_TIMEOUT: i32 = 113;

/// `SQL_ATTR_DISCONNECT_BEHAVIOUR`.
pub const DISCONNECT_BEHAVIOUR: i32 = 114;

/// `SQL_ATTR_RESET_CONNECTION`.
pub const RESET_CONNECTION: i32 = 116;

/// `SQL_ATTR_ASYNC_DBC_FUNCTIONS_ENABLE`.
pub const ASYNC_DBC_FUNCTIONS_ENABLE: i32 = 117;

/// `SQL_ATTR_DBC_INFO_TOKEN`.
pub const DBC_INFO_TOKEN: i32 = 118;

/// `SQL_ATTR_ASYNC_DBC_EVENT`.
pub const ASYNC_DBC_EVENT: i32 = 119;

/// `SQL_ATTR_ENLIST_IN_DTC`.
pub const ENLIST_IN_DTC: i32 = 1207;

/// `SQL_ATTR_ENLIST_IN_XA`.
pub const ENLIST_IN_XA: i32 = 1208;

/// `SQL_ATTR_CONNECTION_DEAD`.
pub const CONNECTION_DEAD: i32 = 1209;

/// `SQL_ATTR_AUTO_IPD`.
pub const AUTO_IPD: i32 = 10001;

/// `SQL_ATTR_METADATA_ID`.
pub const METADATA_ID: i32 = 10014;

/// Whether ODBC defines a connection attribute of this number.
pub open spec fn is_defined(attribute: i32) -> bool {
    ||| attribute == ASYNC_ENABLE
    ||| attribute == ACCESS_MODE
    ||| attribute == AUTOCOMMIT
    ||| attribute == LOGIN_TIMEOUT
    ||| attribute == TRACE
    ||| attribute == TRACEFILE
    ||| attribute == TRANSLATE_LIB
    ||| attribute == TRANSLATE_OPTION
    ||| attribute == TXN_ISOLATION
    ||| attribute == CURRENT_CATALOG
    ||| attribute == ODBC_CURSORS
    ||| attribute == QUIET_MODE
    ||| attribute == PACKET_SIZE
    ||| attribute == CONNECTION_TIMEOUT
    ||| attribute == DISCONNECT_BEHAVIOUR
    ||| attribute == RESET_CONNECTION
    ||| attribute == ASYNC_DBC_FUNCTIONS_ENABLE
    ||| attribute == DBC_INFO_TOKEN
    ||| attribute == ASYNC_DBC_EVENT
    ||| attribute == ENLIST_IN_DTC
    ||| attribute == ENLIST_IN_XA
    ||| attribute == CONNECTION_DEAD
    ||| attribute == AUTO_IPD
    ||| attribute == METADATA_ID
}

/// Whether ODBC defines a connection attribute of this number.
pub fn defined(attribute: i32) -> (r: bool)
    ensures
        r == is_defined(attribute),
{
    attribute == ASYNC_ENABLE || attribute == ACCESS_MODE || attribute == AUTOCOMMIT
        || attribute == LOGIN_TIMEOUT || attribute == TRACE || attribute == TRACEFILE
        || attribute == TRANSLATE_LIB || attribute == TRANSLATE_OPTION
        || attribute == TXN_ISOLATION || attribute == CURRENT_CATALOG
        || attribute == ODBC_CURSORS || attribute == QUIET_MODE || attribute == PACKET_SIZE
        || attribute == CONNECTION_TIMEOUT || attribute == DISCONNECT_BEHAVIOUR
        || attribute == RESET_CONNECTION || attribute == ASYNC_DBC_FUNCTIONS_ENABLE
        || attribute == DBC_INFO_TOKEN || attribute == ASYNC_DBC_EVENT
        || attribute == ENLIST_IN_DTC || attribute == ENLIST_IN_XA
        || attribute == CONNECTION_DEAD || attribute == AUTO_IPD || attribute == METADATA_ID
}

/// The numbers that ODBC gives to connection attributes.
pub proof fn law_which_numbers_are_attributes(attribute: i32)
    ensures
        is_defined(attribute) == (attribute == 4 || (101 <= attribute <= 119 && attribute != 115)
            || 1207 <= attribute <= 1209 || attribute == 10001 || attribute == 10014),
{
}

} // verus!
