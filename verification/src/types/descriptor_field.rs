//! The descriptor fields ODBC defines, and where each of them may be read and
//! written.

use vstd::prelude::*;

verus! {

/// Which of a statement's four descriptors one is.
#[derive(Clone, Copy, PartialEq, Eq, Structural, Debug)]
pub enum DescriptorRole {
    /// The application row descriptor.
    Ard,
    /// The application parameter descriptor.
    Apd,
    /// The implementation row descriptor.
    Ird,
    /// The implementation parameter descriptor.
    Ipd,
}

/// A descriptor field.
#[derive(Clone, Copy, PartialEq, Eq, Structural, Debug)]
pub enum Desc {
    Count,
    Type,
    Length,
    OctetLengthPtr,
    Precision,
    Scale,
    DatetimeIntervalCode,
    Nullable,
    IndicatorPtr,
    DataPtr,
    Name,
    Unnamed,
    OctetLength,
    AllocType,
    ArraySize,
    ArrayStatusPtr,
    AutoUniqueValue,
    BaseColumnName,
    BaseTableName,
    BindOffsetPtr,
    BindType,
    CaseSensitive,
    CatalogName,
    ConciseType,
    DatetimeIntervalPrecision,
    DisplaySize,
    FixedPrecScale,
    Label,
    LiteralPrefix,
    LiteralSuffix,
    LocalTypeName,
    MaximumScale,
    MinimumScale,
    NumPrecRadix,
    ParameterType,
    RowsProcessedPtr,
    RowVer,
    SchemaName,
    Searchable,
    TypeName,
    TableName,
    Unsigned,
    Updatable,
}

/// What may be done with a field of a descriptor.
#[derive(Clone, Copy, PartialEq, Eq, Structural, Debug)]
pub enum FieldAccess {
    ReadWrite,
    ReadOnly,
    Undefined,
}

impl Desc {
    /// The number of the field.
    pub open spec fn spec_number(self) -> int {
        match self {
            Desc::Count => 1001,
            Desc::Type => 1002,
            Desc::Length => 1003,
            Desc::OctetLengthPtr => 1004,
            Desc::Precision => 1005,
            Desc::Scale => 1006,
            Desc::DatetimeIntervalCode => 1007,
            Desc::Nullable => 1008,
            Desc::IndicatorPtr => 1009,
            Desc::DataPtr => 1010,
            Desc::Name => 1011,
            Desc::Unnamed => 1012,
            Desc::OctetLength => 1013,
            Desc::AllocType => 1099,
            Desc::ArraySize => 20,
            Desc::ArrayStatusPtr => 21,
            Desc::AutoUniqueValue => 11,
            Desc::BaseColumnName => 22,
            Desc::BaseTableName => 23,
            Desc::BindOffsetPtr => 24,
            Desc::BindType => 25,
            Desc::CaseSensitive => 12,
            Desc::CatalogName => 17,
            Desc::ConciseType => 2,
            Desc::DatetimeIntervalPrecision => 26,
            Desc::DisplaySize => 6,
            Desc::FixedPrecScale => 9,
            Desc::Label => 18,
            Desc::LiteralPrefix => 27,
            Desc::LiteralSuffix => 28,
            Desc::LocalTypeName => 29,
            Desc::MaximumScale => 30,
            Desc::MinimumScale => 31,
            Desc::NumPrecRadix => 32,
            Desc::ParameterType => 33,
            Desc::RowsProcessedPtr => 34,
            Desc::RowVer => 35,
            Desc::SchemaName => 16,
            Desc::Searchable => 13,
            Desc::TypeName => 14,
            Desc::TableName => 15,
            Desc::Unsigned => 8,
            Desc::Updatable => 10,
        }
    }

    /// The number of the field.
    pub fn number(self) -> (r: i16)
        ensures
            r == self.spec_number(),
    {
        match self {
            Desc::Count => 1001,
            Desc::Type => 1002,
            Desc::Length => 1003,
            Desc::OctetLengthPtr => 1004,
            Desc::Precision => 1005,
            Desc::Scale => 1006,
            Desc::DatetimeIntervalCode => 1007,
            Desc::Nullable => 1008,
            Desc::IndicatorPtr => 1009,
            Desc::DataPtr => 1010,
            Desc::Name => 1011,
            Desc::Unnamed => 1012,
            Desc::OctetLength => 1013,
            Desc::AllocType => 1099,
            Desc::ArraySize => 20,
            Desc::ArrayStatusPtr => 21,
            Desc::AutoUniqueValue => 11,
            Desc::BaseColumnName => 22,
            Desc::BaseTableName => 23,
            Desc::BindOffsetPtr => 24,
            Desc::BindType => 25,
            Desc::CaseSensitive => 12,
            Desc::CatalogName => 17,
            Desc::ConciseType => 2,
            Desc::DatetimeIntervalPrecision => 26,
            Desc::DisplaySize => 6,
            Desc::FixedPrecScale => 9,
            Desc::Label => 18,
            Desc::LiteralPrefix => 27,
            Desc::LiteralSuffix => 28,
            Desc::LocalTypeName => 29,
            Desc::MaximumScale => 30,
            Desc::MinimumScale => 31,
            Desc::NumPrecRadix => 32,
            Desc::ParameterType => 33,
            Desc::RowsProcessedPtr => 34,
            Desc::RowVer => 35,
            Desc::SchemaName => 16,
            Desc::Searchable => 13,
            Desc::TypeName => 14,
            Desc::TableName => 15,
            Desc::Unsigned => 8,
            Desc::Updatable => 10,
        }
    }

    /// The name of the field in messages.
    pub open spec fn spec_name(self) -> Seq<char> {
        match self {
            Desc::Count => "Count"@,
            Desc::Type => "Type"@,
            Desc::Length => "Length"@,
            Desc::OctetLengthPtr => "OctetLengthPtr"@,
            Desc::Precision => "Precision"@,
            Desc::Scale => "Scale"@,
            Desc::DatetimeIntervalCode => "DatetimeIntervalCode"@,
            Desc::Nullable => "Nullable"@,
            Desc::IndicatorPtr => "IndicatorPtr"@,
            Desc::DataPtr => "DataPtr"@,
            Desc::Name => "Name"@,
            Desc::Unnamed => "Unnamed"@,
            Desc::OctetLength => "OctetLength"@,
            Desc::AllocType => "AllocType"@,
            Desc::ArraySize => "ArraySize"@,
            Desc::ArrayStatusPtr => "ArrayStatusPtr"@,
            Desc::AutoUniqueValue => "AutoUniqueValue"@,
            Desc::BaseColumnName => "BaseColumnName"@,
            Desc::BaseTableName => "BaseTableName"@,
            Desc::BindOffsetPtr => "BindOffsetPtr"@,
            Desc::BindType => "BindType"@,
            Desc::CaseSensitive => "CaseSensitive"@,
            Desc::CatalogName => "CatalogName"@,
            Desc::ConciseType => "ConciseType"@,
            Desc::DatetimeIntervalPrecision => "DatetimeIntervalPrecision"@,
            Desc::DisplaySize => "DisplaySize"@,
            Desc::FixedPrecScale => "FixedPrecScale"@,
            Desc::Label => "Label"@,
            Desc::LiteralPrefix => "LiteralPrefix"@,
            Desc::LiteralSuffix => "LiteralSuffix"@,
            Desc::LocalTypeName => "LocalTypeName"@,
            Desc::MaximumScale => "MaximumScale"@,
            Desc::MinimumScale => "MinimumScale"@,
            Desc::NumPrecRadix => "NumPrecRadix"@,
            Desc::ParameterType => "ParameterType"@,
            Desc::RowsProcessedPtr => "RowsProcessedPtr"@,
            Desc::RowVer => "RowVer"@,
            Desc::SchemaName => "SchemaName"@,
            Desc::Searchable => "Searchable"@,
            Desc::TypeName => "TypeName"@,
            Desc::TableName => "TableName"@,
            Desc::Unsigned => "Unsigned"@,
            Desc::Updatable => "Updatable"@,
        }
    }

    /// The name of the field in messages.
    pub fn name(self) -> (r: &'static str)
        ensures
            r@ == self.spec_name(),
    {
        match self {
            Desc::Count => "Count",
            Desc::Type => "Type",
            Desc::Length => "Length",
            Desc::OctetLengthPtr => "OctetLengthPtr",
            Desc::Precision => "Precision",
            Desc::Scale => "Scale",
            Desc::DatetimeIntervalCode => "DatetimeIntervalCode",
            Desc::Nullable => "Nullable",
            Desc::IndicatorPtr => "IndicatorPtr",
            Desc::DataPtr => "DataPtr",
            Desc::Name => "Name",
            Desc::Unnamed => "Unnamed",
            Desc::OctetLength => "OctetLength",
            Desc::AllocType => "AllocType",
            Desc::ArraySize => "ArraySize",
            Desc::ArrayStatusPtr => "ArrayStatusPtr",
            Desc::AutoUniqueValue => "AutoUniqueValue",
            Desc::BaseColumnName => "BaseColumnName",
            Desc::BaseTableName => "BaseTableName",
            Desc::BindOffsetPtr => "BindOffsetPtr",
            Desc::BindType => "BindType",
            Desc::CaseSensitive => "CaseSensitive",
            Desc::CatalogName => "CatalogName",
            Desc::ConciseType => "ConciseType",
            Desc::DatetimeIntervalPrecision => "DatetimeIntervalPrecision",
            Desc::DisplaySize => "DisplaySize",
            Desc::FixedPrecScale => "FixedPrecScale",
            Desc::Label => "Label",
            Desc::LiteralPrefix => "LiteralPrefix",
            Desc::LiteralSuffix => "LiteralSuffix",
            Desc::LocalTypeName => "LocalTypeName",
            Desc::MaximumScale => "MaximumScale",
            Desc::MinimumScale => "MinimumScale",
            Desc::NumPrecRadix => "NumPrecRadix",
            Desc::ParameterType => "ParameterType",
            Desc::RowsProcessedPtr => "RowsProcessedPtr",
            Desc::RowVer => "RowVer",
            Desc::SchemaName => "SchemaName",
            Desc::Searchable => "Searchable",
            Desc::TypeName => "TypeName",
            Desc::TableName => "TableName",
            Desc::Unsigned => "Unsigned",
            Desc::Updatable => "Updatable",
        }
    }
}

impl DescriptorRole {
    /// The name of the role in messages.
    pub open spec fn spec_name(self) -> Seq<char> {
        match self {
            DescriptorRole::Ard => "Ard"@,
            DescriptorRole::Apd => "Apd"@,
            DescriptorRole::Ird => "Ird"@,
            DescriptorRole::Ipd => "Ipd"@,
        }
    }

    /// The name of the role in messages.
    pub fn name(self) -> (r: &'static str)
        ensures
            r@ == self.spec_name(),
    {
        match self {
            DescriptorRole::Ard => "Ard",
            DescriptorRole::Apd => "Apd",
            DescriptorRole::Ird => "Ird",
            DescriptorRole::Ipd => "Ipd",
        }
    }
}

/// The field of a number, where there is one.
pub open spec fn spec_desc_from_raw(raw: int) -> Option<Desc> {
    if raw == 2 {
        Some(Desc::ConciseType)
    } else if raw == 6 {
        Some(Desc::DisplaySize)
    } else if raw == 8 {
        Some(Desc::Unsigned)
    } else if raw == 9 {
        Some(Desc::FixedPrecScale)
    } else if raw == 10 {
        Some(Desc::Updatable)
    } else if raw == 11 {
        Some(Desc::AutoUniqueValue)
    } else if raw == 12 {
        Some(Desc::CaseSensitive)
    } else if raw == 13 {
        Some(Desc::Searchable)
    } else if raw == 14 {
        Some(Desc::TypeName)
    } else if raw == 15 {
        Some(Desc::TableName)
    } else if raw == 16 {
        Some(Desc::SchemaName)
    } else if raw == 17 {
        Some(Desc::CatalogName)
    } else if raw == 18 {
        Some(Desc::Label)
    } else if raw == 20 {
        Some(Desc::ArraySize)
    } else if raw == 21 {
        Some(Desc::ArrayStatusPtr)
    } else if raw == 22 {
        Some(Desc::BaseColumnName)
    } else if raw == 23 {
        Some(Desc::BaseTableName)
    } else if raw == 24 {
        Some(Desc::BindOffsetPtr)
    } else if raw == 25 {
        Some(Desc::BindType)
    } else if raw == 26 {
        Some(Desc::DatetimeIntervalPrecision)
    } else if raw == 27 {
        Some(Desc::LiteralPrefix)
    } else if raw == 28 {
        Some(Desc::LiteralSuffix)
    } else if raw == 29 {
        Some(Desc::LocalTypeName)
    } else if raw == 30 {
        Some(Desc::MaximumScale)
    } else if raw == 31 {
        Some(Desc::MinimumScale)
    } else if raw == 32 {
        Some(Desc::NumPrecRadix)
    } else if raw == 33 {
        Some(Desc::ParameterType)
    } else if raw == 34 {
        Some(Desc::RowsProcessedPtr)
    } else if raw == 35 {
        Some(Desc::RowVer)
    } else if raw == 1001 {
        Some(Desc::Count)
    } else if raw == 1002 {
        Some(Desc::Type)
    } else if raw == 1003 {
        Some(Desc::Length)
    } else if raw == 1004 {
        Some(Desc::OctetLengthPtr)
    } else if raw == 1005 {
        Some(Desc::Precision)
    } else if raw == 1006 {
        Some(Desc::Scale)
    } else if raw == 1007 {
        Some(Desc::DatetimeIntervalCode)
    } else if raw == 1008 {
        Some(Desc::Nullable)
    } else if raw == 1009 {
        Some(Desc::IndicatorPtr)
    } else if raw == 1010 {
        Some(Desc::DataPtr)
    } else if raw == 1011 {
        Some(Desc::Name)
    } else if raw == 1012 {
        Some(Desc::Unnamed)
    } else if raw == 1013 {
        Some(Desc::OctetLength)
    } else if raw == 1099 {
        Some(Desc::AllocType)
    } else {
        None
    }
}

/// The field of a number, where there is one.
pub fn desc_from_raw(raw: i16) -> (r: Option<Desc>)
    ensures
        r == spec_desc_from_raw(raw as int),
{
    match raw {
        2 => Some(Desc::ConciseType),
        6 => Some(Desc::DisplaySize),
        8 => Some(Desc::Unsigned),
        9 => Some(Desc::FixedPrecScale),
        10 => Some(Desc::Updatable),
        11 => Some(Desc::AutoUniqueValue),
        12 => Some(Desc::CaseSensitive),
        13 => Some(Desc::Searchable),
        14 => Some(Desc::TypeName),
        15 => Some(Desc::TableName),
        16 => Some(Desc::SchemaName),
        17 => Some(Desc::CatalogName),
        18 => Some(Desc::Label),
        20 => Some(Desc::ArraySize),
        21 => Some(Desc::ArrayStatusPtr),
        22 => Some(Desc::BaseColumnName),
        23 => Some(Desc::BaseTableName),
        24 => Some(Desc::BindOffsetPtr),
        25 => Some(Desc::BindType),
        26 => Some(Desc::DatetimeIntervalPrecision),
        27 => Some(Desc::LiteralPrefix),
        28 => Some(Desc::LiteralSuffix),
        29 => Some(Desc::LocalTypeName),
        30 => Some(Desc::MaximumScale),
        31 => Some(Desc::MinimumScale),
        32 => Some(Desc::NumPrecRadix),
        33 => Some(Desc::ParameterType),
        34 => Some(Desc::RowsProcessedPtr),
        35 => Some(Desc::RowVer),
        1001 => Some(Desc::Count),
        1002 => Some(Desc::Type),
        1003 => Some(Desc::Length),
        1004 => Some(Desc::OctetLengthPtr),
        1005 => Some(Desc::Precision),
        1006 => Some(Desc::Scale),
        1007 => Some(Desc::DatetimeIntervalCode),
        1008 => Some(Desc::Nullable),
        1009 => Some(Desc::IndicatorPtr),
        1010 => Some(Desc::DataPtr),
        1011 => Some(Desc::Name),
        1012 => Some(Desc::Unnamed),
        1013 => Some(Desc::OctetLength),
        1099 => Some(Desc::AllocType),
        _ => None,
    }
}

/// What may be done with a field, as ODBC's tables of descriptor fields have
/// it. The data pointer of an implementation parameter descriptor can be set,
/// though not read back: setting it forces a consistency check.
pub open spec fn spec_field_access(role: DescriptorRole, field: Desc) -> FieldAccess {
    let (ard, apd, ird, ipd) = match field {
        Desc::Count
        | Desc::Type
        | Desc::Length
        | Desc::Precision
        | Desc::Scale
        | Desc::DatetimeIntervalCode
        | Desc::OctetLength
        | Desc::ConciseType
        | Desc::DatetimeIntervalPrecision
        | Desc::NumPrecRadix => (
            FieldAccess::ReadWrite,
            FieldAccess::ReadWrite,
            FieldAccess::ReadOnly,
            FieldAccess::ReadWrite,
        ),
        Desc::OctetLengthPtr
        | Desc::IndicatorPtr
        | Desc::ArraySize
        | Desc::BindOffsetPtr
        | Desc::BindType => (
            FieldAccess::ReadWrite,
            FieldAccess::ReadWrite,
            FieldAccess::Undefined,
            FieldAccess::Undefined,
        ),
        Desc::Nullable
        | Desc::CaseSensitive
        | Desc::FixedPrecScale
        | Desc::LocalTypeName
        | Desc::RowVer
        | Desc::TypeName
        | Desc::Unsigned => (
            FieldAccess::Undefined,
            FieldAccess::Undefined,
            FieldAccess::ReadOnly,
            FieldAccess::ReadOnly,
        ),
        Desc::DataPtr => (
            FieldAccess::ReadWrite,
            FieldAccess::ReadWrite,
            FieldAccess::Undefined,
            FieldAccess::ReadWrite,
        ),
        Desc::Name | Desc::Unnamed => (
            FieldAccess::Undefined,
            FieldAccess::Undefined,
            FieldAccess::ReadOnly,
            FieldAccess::ReadWrite,
        ),
        Desc::AllocType => (
            FieldAccess::ReadOnly,
            FieldAccess::ReadOnly,
            FieldAccess::ReadOnly,
            FieldAccess::ReadOnly,
        ),
        Desc::ArrayStatusPtr => (
            FieldAccess::ReadWrite,
            FieldAccess::ReadWrite,
            FieldAccess::ReadWrite,
            FieldAccess::ReadWrite,
        ),
        Desc::AutoUniqueValue
        | Desc::BaseColumnName
        | Desc::BaseTableName
        | Desc::CatalogName
        | Desc::DisplaySize
        | Desc::Label
        | Desc::LiteralPrefix
        | Desc::LiteralSuffix
        | Desc::SchemaName
        | Desc::Searchable
        | Desc::TableName
        | Desc::Updatable => (
            FieldAccess::Undefined,
            FieldAccess::Undefined,
            FieldAccess::ReadOnly,
            FieldAccess::Undefined,
        ),
        Desc::MaximumScale | Desc::MinimumScale => (
            FieldAccess::Undefined,
            FieldAccess::Undefined,
            FieldAccess::Undefined,
            FieldAccess::Undefined,
        ),
        Desc::ParameterType => (
            FieldAccess::Undefined,
            FieldAccess::Undefined,
            FieldAccess::Undefined,
            FieldAccess::ReadWrite,
        ),
        Desc::RowsProcessedPtr => (
            FieldAccess::Undefined,
            FieldAccess::Undefined,
            FieldAccess::ReadWrite,
            FieldAccess::ReadWrite,
        ),
    };
    match role {
        DescriptorRole::Ard => ard,
        DescriptorRole::Apd => apd,
        DescriptorRole::Ird => ird,
        DescriptorRole::Ipd => ipd,
    }
}

/// What may be done with a field of a descriptor.
pub fn field_access(role: DescriptorRole, field: Desc) -> (r: FieldAccess)
    ensures
        r == spec_field_access(role, field),
{
    let (ard, apd, ird, ipd) = match field {
        Desc::Count
        | Desc::Type
        | Desc::Length
        | Desc::Precision
        | Desc::Scale
        | Desc::DatetimeIntervalCode
        | Desc::OctetLength
        | Desc::ConciseType
        | Desc::DatetimeIntervalPrecision
        | Desc::NumPrecRadix => (
            FieldAccess::ReadWrite,
            FieldAccess::ReadWrite,
            FieldAccess::ReadOnly,
            FieldAccess::ReadWrite,
        ),
        Desc::OctetLengthPtr
        | Desc::IndicatorPtr
        | Desc::ArraySize
        | Desc::BindOffsetPtr
        | Desc::BindType => (
            FieldAccess::ReadWrite,
            FieldAccess::ReadWrite,
            FieldAccess::Undefined,
            FieldAccess::Undefined,
        ),
        Desc::Nullable
        | Desc::CaseSensitive
        | Desc::FixedPrecScale
        | Desc::LocalTypeName
        | Desc::RowVer
        | Desc::TypeName
        | Desc::Unsigned => (
            FieldAccess::Undefined,
            FieldAccess::Undefined,
            FieldAccess::ReadOnly,
            FieldAccess::ReadOnly,
        ),
        Desc::DataPtr => (
            FieldAccess::ReadWrite,
            FieldAccess::ReadWrite,
            FieldAccess::Undefined,
            FieldAccess::ReadWrite,
        ),
        Desc::Name | Desc::Unnamed => (
            FieldAccess::Undefined,
            FieldAccess::Undefined,
            FieldAccess::ReadOnly,
            FieldAccess::ReadWrite,
        ),
        Desc::AllocType => (
            FieldAccess::ReadOnly,
            FieldAccess::ReadOnly,
            FieldAccess::ReadOnly,
            FieldAccess::ReadOnly,
        ),
        Desc::ArrayStatusPtr => (
            FieldAccess::ReadWrite,
            FieldAccess::ReadWrite,
            FieldAccess::ReadWrite,
            FieldAccess::ReadWrite,
        ),
        Desc::AutoUniqueValue
        | Desc::BaseColumnName
        | Desc::BaseTableName
        | Desc::CatalogName
        | Desc::DisplaySize
        | Desc::Label
        | Desc::LiteralPrefix
        | Desc::LiteralSuffix
        | Desc::SchemaName
        | Desc::Searchable
        | Desc::TableName
        | Desc::Updatable => (
            FieldAccess::Undefined,
            FieldAccess::Undefined,
            FieldAccess::ReadOnly,
            FieldAccess::Undefined,
        ),
        Desc::MaximumScale | Desc::MinimumScale => (
            FieldAccess::Undefined,
            FieldAccess::Undefined,
            FieldAccess::Undefined,
            FieldAccess::Undefined,
        ),
        Desc::ParameterType => (
            FieldAccess::Undefined,
            FieldAccess::Undefined,
            FieldAccess::Undefined,
            FieldAccess::ReadWrite,
        ),
        Desc::RowsProcessedPtr => (
            FieldAccess::Undefined,
            FieldAccess::Undefined,
            FieldAccess::ReadWrite,
            FieldAccess::ReadWrite,
        ),
    };
    match role {
        DescriptorRole::Ard => ard,
        DescriptorRole::Apd => apd,
        DescriptorRole::Ird => ird,
        DescriptorRole::Ipd => ipd,
    }
}

/// `SQL_ATTR_ROW_ARRAY_SIZE`.
pub const ROW_ARRAY_SIZE: i32 = 27;

/// `SQL_ATTR_ROW_OPERATION_PTR`.
pub const ROW_OPERATION_PTR: i32 = 24;

/// `SQL_ATTR_ROW_BIND_OFFSET_PTR`.
pub const ROW_BIND_OFFSET_PTR: i32 = 23;

/// `SQL_ATTR_ROW_BIND_TYPE`.
pub const ROW_BIND_TYPE: i32 = 5;

/// `SQL_ATTR_PARAMSET_SIZE`.
pub const PARAMSET_SIZE: i32 = 22;

/// `SQL_ATTR_PARAM_OPERATION_PTR`.
pub const PARAM_OPERATION_PTR: i32 = 19;

/// `SQL_ATTR_PARAM_BIND_OFFSET_PTR`.
pub const PARAM_BIND_OFFSET_PTR: i32 = 17;

/// `SQL_ATTR_PARAM_BIND_TYPE`.
pub const PARAM_BIND_TYPE: i32 = 18;

/// `SQL_ATTR_ROW_STATUS_PTR`.
pub const ROW_STATUS_PTR: i32 = 25;

/// `SQL_ATTR_ROWS_FETCHED_PTR`.
pub const ROWS_FETCHED_PTR: i32 = 26;

/// `SQL_ATTR_PARAM_STATUS_PTR`.
pub const PARAM_STATUS_PTR: i32 = 20;

/// `SQL_ATTR_PARAMS_PROCESSED_PTR`.
pub const PARAMS_PROCESSED_PTR: i32 = 21;

/// The statement attribute that a header field is another name for.
pub open spec fn spec_header_attribute(role: DescriptorRole, field: Desc) -> Option<i32> {
    match (role, field) {
        (DescriptorRole::Ard, Desc::ArraySize) => Some(ROW_ARRAY_SIZE),
        (DescriptorRole::Ard, Desc::ArrayStatusPtr) => Some(ROW_OPERATION_PTR),
        (DescriptorRole::Ard, Desc::BindOffsetPtr) => Some(ROW_BIND_OFFSET_PTR),
        (DescriptorRole::Ard, Desc::BindType) => Some(ROW_BIND_TYPE),
        (DescriptorRole::Apd, Desc::ArraySize) => Some(PARAMSET_SIZE),
        (DescriptorRole::Apd, Desc::ArrayStatusPtr) => Some(PARAM_OPERATION_PTR),
        (DescriptorRole::Apd, Desc::BindOffsetPtr) => Some(PARAM_BIND_OFFSET_PTR),
        (DescriptorRole::Apd, Desc::BindType) => Some(PARAM_BIND_TYPE),
        (DescriptorRole::Ird, Desc::ArrayStatusPtr) => Some(ROW_STATUS_PTR),
        (DescriptorRole::Ird, Desc::RowsProcessedPtr) => Some(ROWS_FETCHED_PTR),
        (DescriptorRole::Ipd, Desc::ArrayStatusPtr) => Some(PARAM_STATUS_PTR),
        (DescriptorRole::Ipd, Desc::RowsProcessedPtr) => Some(PARAMS_PROCESSED_PTR),
        _ => None,
    }
}

/// The statement attribute that a header field is another name for.
pub fn header_attribute(role: DescriptorRole, field: Desc) -> (r: Option<i32>)
    ensures
        r == spec_header_attribute(role, field),
{
    match (role, field) {
        (DescriptorRole::Ard, Desc::ArraySize) => Some(ROW_ARRAY_SIZE),
        (DescriptorRole::Ard, Desc::ArrayStatusPtr) => Some(ROW_OPERATION_PTR),
        (DescriptorRole::Ard, Desc::BindOffsetPtr) => Some(ROW_BIND_OFFSET_PTR),
        (DescriptorRole::Ard, Desc::BindType) => Some(ROW_BIND_TYPE),
        (DescriptorRole::Apd, Desc::ArraySize) => Some(PARAMSET_SIZE),
        (DescriptorRole::Apd, Desc::ArrayStatusPtr) => Some(PARAM_OPERATION_PTR),
        (DescriptorRole::Apd, Desc::BindOffsetPtr) => Some(PARAM_BIND_OFFSET_PTR),
        (DescriptorRole::Apd, Desc::BindType) => Some(PARAM_BIND_TYPE),
        (DescriptorRole::Ird, Desc::ArrayStatusPtr) => Some(ROW_STATUS_PTR),
        (DescriptorRole::Ird, Desc::RowsProcessedPtr) => Some(ROWS_FETCHED_PTR),
        (DescriptorRole::Ipd, Desc::ArrayStatusPtr) => Some(PARAM_STATUS_PTR),
        (DescriptorRole::Ipd, Desc::RowsProcessedPtr) => Some(PARAMS_PROCESSED_PTR),
        _ => None,
    }
}

/// The value of a header field that was never set.
pub open spec fn spec_header_default(field: Desc) -> usize {
    if field == Desc::ArraySize {
        1
    } else {
        0
    }
}

/// The value of a header field that was never set.
pub fn header_default(field: Desc) -> (r: usize)
    ensures
        r == spec_header_default(field),
{
    if field == Desc::ArraySize {
        1
    } else {
        0
    }
}

/// A field is found by its number, and by no other.
pub proof fn law_fields_and_numbers(field: Desc, raw: int)
    ensures
        spec_desc_from_raw(field.spec_number()) == Some(field),
        spec_desc_from_raw(raw) matches Some(f) ==> f.spec_number() == raw,
{
}

/// No statement attribute stands for two header fields.
pub proof fn law_header_fields_have_attributes_of_their_own(
    role: DescriptorRole,
    field: Desc,
    other_role: DescriptorRole,
    other: Desc,
)
    requires
        spec_header_attribute(role, field) is Some,
        spec_header_attribute(role, field) == spec_header_attribute(other_role, other),
    ensures
        role == other_role,
        field == other,
{
}

/// A header field that can be written is kept as a statement attribute, and all
/// those that are kept so can be written. The application's descriptors have an
/// array size, a bind type and an offset, and those of the implementation a count
/// of what was processed; all have a status array.
pub proof fn law_which_header_fields_there_are(role: DescriptorRole, field: Desc)
    ensures
        ({
            let application = role == DescriptorRole::Ard || role == DescriptorRole::Apd;
            let kept = field == Desc::ArrayStatusPtr || (application && (field == Desc::ArraySize
                || field == Desc::BindType || field == Desc::BindOffsetPtr)) || (!application
                && field == Desc::RowsProcessedPtr);
            &&& (spec_header_attribute(role, field) is Some) == kept
            &&& kept ==> spec_field_access(role, field) == FieldAccess::ReadWrite
        }),
{
}

/// What the two application descriptors have they have alike.
pub proof fn law_the_application_descriptors_have_the_same_fields(field: Desc)
    ensures
        spec_field_access(DescriptorRole::Ard, field) == spec_field_access(
            DescriptorRole::Apd,
            field,
        ),
        spec_header_attribute(DescriptorRole::Ard, field) is Some <==> spec_header_attribute(
            DescriptorRole::Apd,
            field,
        ) is Some,
{
}

} // verus!
