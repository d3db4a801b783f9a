//! The SQLSTATEs the driver reports, and the type that carries one.

use vstd::prelude::*;

verus! {

/// `HY000`: an error no more specific state describes.
pub const GENERAL_ERROR: &'static str = "HY000";

/// `HYC00`: an optional feature the driver does not provide.
pub const OPTIONAL_FEATURE_NOT_IMPLEMENTED: &'static str = "HYC00";

/// `08003`: an operation that needs a connection found none.
pub const CONNECTION_NOT_OPEN: &'static str = "08003";

/// `08002`: a connect on a handle that is already connected.
pub const CONNECTION_IN_USE: &'static str = "08002";

/// `08S01`: the link to the data source failed.
pub const COMMUNICATION_LINK_FAILURE: &'static str = "08S01";

/// `24000`: the cursor is not in a state that allows the call.
pub const INVALID_CURSOR_STATE: &'static str = "24000";

/// `01004`: a string was cut to fit the application's buffer.
pub const STRING_DATA_RIGHT_TRUNCATED: &'static str = "01004";

/// `01S07`: fractional digits were dropped.
pub const FRACTIONAL_TRUNCATION: &'static str = "01S07";

/// `01S02`: a value was replaced by a similar one.
pub const OPTION_VALUE_CHANGED: &'static str = "01S02";

/// `42000`: text that does not parse.
pub const SYNTAX_ERROR_OR_ACCESS_VIOLATION: &'static str = "42000";

/// `HY010`: a call made out of order.
pub const FUNCTION_SEQUENCE_ERROR: &'static str = "HY010";

/// `34000`: a cursor name the driver does not accept.
pub const INVALID_CURSOR_NAME: &'static str = "34000";

/// `3C000`: a cursor name already in use on the connection.
pub const DUPLICATE_CURSOR_NAME: &'static str = "3C000";

/// `3D000`: a catalog the data source does not know.
pub const INVALID_CATALOG_NAME: &'static str = "3D000";

/// `HY009`: a null pointer where a value is required.
pub const INVALID_USE_OF_NULL_POINTER: &'static str = "HY009";

/// `HY090`: a length argument that is not a length.
pub const INVALID_STRING_OR_BUFFER_LENGTH: &'static str = "HY090";

/// `HY024`: a value the attribute does not take.
pub const INVALID_ATTRIBUTE_VALUE: &'static str = "HY024";

/// `HY011`: an attribute that cannot be set in this state.
pub const ATTRIBUTE_CANNOT_BE_SET_NOW: &'static str = "HY011";

/// `HY092`: an identifier that names no attribute or option.
pub const INVALID_ATTRIBUTE_OPTION_IDENTIFIER: &'static str = "HY092";

/// `HY091`: an identifier that names no field of the descriptor.
pub const INVALID_DESCRIPTOR_FIELD_IDENTIFIER: &'static str = "HY091";

/// `07009`: a record number out of range.
pub const INVALID_DESCRIPTOR_INDEX: &'static str = "07009";

/// `HY007`: a row descriptor read before it was populated.
pub const ASSOCIATED_STATEMENT_NOT_PREPARED: &'static str = "HY007";

/// `HY016`: a write to an implementation row descriptor.
pub const CANNOT_MODIFY_IRD: &'static str = "HY016";

/// `HY021`: a record that fails the consistency check.
pub const INCONSISTENT_DESCRIPTOR_INFORMATION: &'static str = "HY021";

/// `HY003`: an unknown C data type.
pub const INVALID_APPLICATION_BUFFER_TYPE: &'static str = "HY003";

/// A five-character SQLSTATE.
#[derive(Clone, Copy, Debug)]
pub struct SqlState {
    code: &'static str,
}

impl View for SqlState {
    type V = Seq<char>;

    closed spec fn view(&self) -> Seq<char> {
        self.code@
    }
}

impl SqlState {
    /// The state whose characters are `code`.
    pub fn new(code: &'static str) -> (r: SqlState)
        ensures
            r@ == code@,
    {
        SqlState { code }
    }

    /// The state's characters.
    pub fn as_str(&self) -> (r: &'static str)
        ensures
            r@ == self@,
    {
        self.code
    }

    /// `HY000`: an error no more specific state describes.
    pub fn general_error() -> (r: SqlState)
        ensures
            r@ == GENERAL_ERROR@,
    {
        SqlState { code: GENERAL_ERROR }
    }

    /// `HYC00`: an optional feature the driver does not provide.
    pub fn optional_feature_not_implemented() -> (r: SqlState)
        ensures
            r@ == OPTIONAL_FEATURE_NOT_IMPLEMENTED@,
    {
        SqlState { code: OPTIONAL_FEATURE_NOT_IMPLEMENTED }
    }

    /// `08003`: an operation that needs a connection found none.
    pub fn connection_not_open() -> (r: SqlState)
        ensures
            r@ == CONNECTION_NOT_OPEN@,
    {
        SqlState { code: CONNECTION_NOT_OPEN }
    }

    /// `08002`: a connect on a handle that is already connected.
    pub fn connection_in_use() -> (r: SqlState)
        ensures
            r@ == CONNECTION_IN_USE@,
    {
        SqlState { code: CONNECTION_IN_USE }
    }

    /// `08S01`: the link to the data source failed.
    pub fn communication_link_failure() -> (r: SqlState)
        ensures
            r@ == COMMUNICATION_LINK_FAILURE@,
    {
        SqlState { code: COMMUNICATION_LINK_FAILURE }
    }

    /// `24000`: the cursor is not in a state that allows the call.
    pub fn invalid_cursor_state() -> (r: SqlState)
        ensures
            r@ == INVALID_CURSOR_STATE@,
    {
        SqlState { code: INVALID_CURSOR_STATE }
    }

    /// `01004`: a string was cut to fit the application's buffer.
    pub fn string_data_right_truncated() -> (r: SqlState)
        ensures
            r@ == STRING_DATA_RIGHT_TRUNCATED@,
    {
        SqlState { code: STRING_DATA_RIGHT_TRUNCATED }
    }

    /// `01S07`: fractional digits were dropped.
    pub fn fractional_truncation() -> (r: SqlState)
        ensures
            r@ == FRACTIONAL_TRUNCATION@,
    {
        SqlState { code: FRACTIONAL_TRUNCATION }
    }

    /// `01S02`: a value was replaced by a similar one.
    pub fn option_value_changed() -> (r: SqlState)
        ensures
            r@ == OPTION_VALUE_CHANGED@,
    {
        SqlState { code: OPTION_VALUE_CHANGED }
    }

    /// `42000`: text that does not parse.
    pub fn syntax_error_or_access_violation() -> (r: SqlState)
        ensures
            r@ == SYNTAX_ERROR_OR_ACCESS_VIOLATION@,
    {
        SqlState { code: SYNTAX_ERROR_OR_ACCESS_VIOLATION }
    }

    /// `HY010`: a call made out of order.
    pub fn function_sequence_error() -> (r: SqlState)
        ensures
            r@ == FUNCTION_SEQUENCE_ERROR@,
    {
        SqlState { code: FUNCTION_SEQUENCE_ERROR }
    }

    /// `34000`: a cursor name the driver does not accept.
    pub fn invalid_cursor_name() -> (r: SqlState)
        ensures
            r@ == INVALID_CURSOR_NAME@,
    {
        SqlState { code: INVALID_CURSOR_NAME }
    }

    /// `3C000`: a cursor name already in use on the connection.
    pub fn duplicate_cursor_name() -> (r: SqlState)
        ensures
            r@ == DUPLICATE_CURSOR_NAME@,
    {
        SqlState { code: DUPLICATE_CURSOR_NAME }
    }

    /// `3D000`: a catalog the data source does not know.
    pub fn invalid_catalog_name() -> (r: SqlState)
        ensures
            r@ == INVALID_CATALOG_NAME@,
    {
        SqlState { code: INVALID_CATALOG_NAME }
    }

    /// `HY009`: a null pointer where a value is required.
    pub fn invalid_use_of_null_pointer() -> (r: SqlState)
        ensures
            r@ == INVALID_USE_OF_NULL_POINTER@,
    {
        SqlState { code: INVALID_USE_OF_NULL_POINTER }
    }

    /// `HY090`: a length argument that is not a length.
    pub fn invalid_string_or_buffer_length() -> (r: SqlState)
        ensures
            r@ == INVALID_STRING_OR_BUFFER_LENGTH@,
    {
        SqlState { code: INVALID_STRING_OR_BUFFER_LENGTH }
    }

    /// `HY024`: a value the attribute does not take.
    pub fn invalid_attribute_value() -> (r: SqlState)
        ensures
            r@ == INVALID_ATTRIBUTE_VALUE@,
    {
        SqlState { code: INVALID_ATTRIBUTE_VALUE }
    }

    /// `HY011`: an attribute that cannot be set in this state.
    pub fn attribute_cannot_be_set_now() -> (r: SqlState)
        ensures
            r@ == ATTRIBUTE_CANNOT_BE_SET_NOW@,
    {
        SqlState { code: ATTRIBUTE_CANNOT_BE_SET_NOW }
    }

    /// `HY092`: an identifier that names no attribute or option.
    pub fn invalid_attribute_option_identifier() -> (r: SqlState)
        ensures
            r@ == INVALID_ATTRIBUTE_OPTION_IDENTIFIER@,
    {
        SqlState { code: INVALID_ATTRIBUTE_OPTION_IDENTIFIER }
    }

    /// `HY091`: an identifier that names no field of the descriptor.
    pub fn invalid_descriptor_field_identifier() -> (r: SqlState)
        ensures
            r@ == INVALID_DESCRIPTOR_FIELD_IDENTIFIER@,
    {
        SqlState { code: INVALID_DESCRIPTOR_FIELD_IDENTIFIER }
    }

    /// `07009`: a record number out of range.
    pub fn invalid_descriptor_index() -> (r: SqlState)
        ensures
            r@ == INVALID_DESCRIPTOR_INDEX@,
    {
        SqlState { code: INVALID_DESCRIPTOR_INDEX }
    }

    /// `HY007`: a row descriptor read before it was populated.
    pub fn associated_statement_not_prepared() -> (r: SqlState)
        ensures
            r@ == ASSOCIATED_STATEMENT_NOT_PREPARED@,
    {
        SqlState { code: ASSOCIATED_STATEMENT_NOT_PREPARED }
    }

    /// `HY016`: a write to an implementation row descriptor.
    pub fn cannot_modify_ird() -> (r: SqlState)
        ensures
            r@ == CANNOT_MODIFY_IRD@,
    {
        SqlState { code: CANNOT_MODIFY_IRD }
    }

    /// `HY021`: a record that fails the consistency check.
    pub fn inconsistent_descriptor_information() -> (r: SqlState)
        ensures
            r@ == INCONSISTENT_DESCRIPTOR_INFORMATION@,
    {
        SqlState { code: INCONSISTENT_DESCRIPTOR_INFORMATION }
    }

    /// `HY003`: an unknown C data type.
    pub fn invalid_application_buffer_type() -> (r: SqlState)
        ensures
            r@ == INVALID_APPLICATION_BUFFER_TYPE@,
    {
        SqlState { code: INVALID_APPLICATION_BUFFER_TYPE }
    }
}

} // verus!
