//! Descriptors and their records.

use std::collections::BTreeMap;

use vstd::prelude::*;
use vstd::std_specs::iter::IteratorSpec;

use crate::diagnostics::{DiagnosticQueue, RecordView};
use crate::errors::{ErrorView, OdbcError};
use crate::text::{join2, join3};
use crate::types::SqlState;
use crate::types::descriptor_field::{Desc, DescriptorRole};
use crate::types::sql_state::{
    INCONSISTENT_DESCRIPTOR_INFORMATION, INVALID_ATTRIBUTE_OPTION_IDENTIFIER,
    INVALID_DESCRIPTOR_FIELD_IDENTIFIER,
};

verus! {

/// `SQL_DATETIME`: the verbose type of dates, times and timestamps.
pub const SQL_DATETIME: i16 = 9;

/// `SQL_INTERVAL`: the verbose type of intervals.
pub const SQL_INTERVAL: i16 = 10;

/// `SQL_CODE_DATE`.
pub const SQL_CODE_DATE: i16 = 1;

/// `SQL_NUMERIC`, and `SQL_C_NUMERIC`.
pub const SQL_NUMERIC: i16 = 2;

/// `SQL_DECIMAL`.
pub const SQL_DECIMAL: i16 = 3;

/// `SQL_NULLABLE_UNKNOWN`.
pub const SQL_NULLABLE_UNKNOWN: i16 = 2;

/// `SQL_NAMED`.
pub const SQL_NAMED: i16 = 0;

/// `SQL_UNNAMED`.
pub const SQL_UNNAMED: i16 = 1;

/// `SQL_DESC_ALLOC_AUTO`: the driver allocated the descriptor.
pub const SQL_DESC_ALLOC_AUTO: isize = 1;

/// The value of a descriptor field.
pub enum DescFieldValue {
    Numeric(isize),
    Text(String),
}

/// What the contracts say of a value.
#[verifier::ext_equal]
pub enum ValueView {
    Numeric(isize),
    Text(Seq<char>),
}

impl View for DescFieldValue {
    type V = ValueView;

    open spec fn view(&self) -> ValueView {
        match self {
            DescFieldValue::Numeric(n) => ValueView::Numeric(*n),
            DescFieldValue::Text(s) => ValueView::Text(s@),
        }
    }
}

/// One record of a descriptor: a column or a parameter. The pointers are the
/// application's, kept as numbers and never followed here.
pub struct DescriptorRecord {
    pub concise_type: i16,
    pub verbose_type: i16,
    pub datetime_interval_code: i16,
    pub datetime_interval_precision: i32,
    pub length: usize,
    pub octet_length: isize,
    pub precision: i16,
    pub scale: i16,
    pub num_prec_radix: i32,
    pub parameter_type: i16,
    pub data_ptr: usize,
    pub octet_length_ptr: usize,
    pub indicator_ptr: usize,
    pub name: String,
}

/// What the contracts say of a record.
#[verifier::ext_equal]
pub struct FieldsView {
    pub concise_type: i16,
    pub verbose_type: i16,
    pub datetime_interval_code: i16,
    pub datetime_interval_precision: i32,
    pub length: usize,
    pub octet_length: isize,
    pub precision: i16,
    pub scale: i16,
    pub num_prec_radix: i32,
    pub parameter_type: i16,
    pub data_ptr: usize,
    pub octet_length_ptr: usize,
    pub indicator_ptr: usize,
    pub name: Seq<char>,
}

impl View for DescriptorRecord {
    type V = FieldsView;

    open spec fn view(&self) -> FieldsView {
        FieldsView {
            concise_type: self.concise_type,
            verbose_type: self.verbose_type,
            datetime_interval_code: self.datetime_interval_code,
            datetime_interval_precision: self.datetime_interval_precision,
            length: self.length,
            octet_length: self.octet_length,
            precision: self.precision,
            scale: self.scale,
            num_prec_radix: self.num_prec_radix,
            parameter_type: self.parameter_type,
            data_ptr: self.data_ptr,
            octet_length_ptr: self.octet_length_ptr,
            indicator_ptr: self.indicator_ptr,
            name: self.name@,
        }
    }
}

impl FieldsView {
    /// A record of which nothing was set.
    pub open spec fn blank() -> FieldsView {
        FieldsView {
            concise_type: 99,
            verbose_type: 99,
            datetime_interval_code: 0,
            datetime_interval_precision: 0,
            length: 0,
            octet_length: 0,
            precision: 0,
            scale: 0,
            num_prec_radix: 0,
            parameter_type: 1,
            data_ptr: 0,
            octet_length_ptr: 0,
            indicator_ptr: 0,
            name: Seq::empty(),
        }
    }

    /// Whether a data buffer is bound.
    pub open spec fn is_bound(self) -> bool {
        self.data_ptr != 0
    }

    /// This record with the concise type `t`, and the verbose type and subcode
    /// that go with it.
    pub open spec fn with_concise_type(self, t: i16) -> FieldsView {
        FieldsView {
            concise_type: t,
            verbose_type: verbose_of(t),
            datetime_interval_code: subcode_of(t),
            ..self
        }
    }

    /// This record with the verbose type `t`. A type that is neither a datetime
    /// nor an interval is its own concise type and has no subcode.
    pub open spec fn with_verbose_type(self, t: i16) -> FieldsView {
        if t == SQL_DATETIME || t == SQL_INTERVAL {
            FieldsView { verbose_type: t, ..self }
        } else {
            FieldsView { concise_type: t, verbose_type: t, datetime_interval_code: 0, ..self }
        }
    }

    /// This record with the subcode `code`, and the concise type that a datetime
    /// or an interval of it has.
    pub open spec fn with_subcode(self, code: i16) -> FieldsView {
        FieldsView {
            datetime_interval_code: code,
            concise_type: if self.verbose_type == SQL_DATETIME && 1 <= code <= 3 {
                (90 + code) as i16
            } else if self.verbose_type == SQL_INTERVAL && 1 <= code <= 13 {
                (100 + code) as i16
            } else {
                self.concise_type
            },
            ..self
        }
    }
}

/// The verbose type of a concise one: dates, times and timestamps are
/// `SQL_DATETIME`, in either numbering, and intervals `SQL_INTERVAL`.
pub open spec fn verbose_of(t: i16) -> i16 {
    if 91 <= t <= 93 || 9 <= t <= 11 {
        SQL_DATETIME
    } else if 101 <= t <= 113 {
        SQL_INTERVAL
    } else {
        t
    }
}

/// The subcode of a concise type, 0 where it has none.
pub open spec fn subcode_of(t: i16) -> i16 {
    if 91 <= t <= 93 {
        (t - 90) as i16
    } else if 9 <= t <= 11 {
        (t - 8) as i16
    } else if 101 <= t <= 113 {
        (t - 100) as i16
    } else {
        0
    }
}

impl DescriptorRecord {
    /// A record of which nothing was set.
    pub fn new() -> (r: DescriptorRecord)
        ensures
            r@ == FieldsView::blank(),
    {
        DescriptorRecord {
            concise_type: 99,
            verbose_type: 99,
            datetime_interval_code: 0,
            datetime_interval_precision: 0,
            length: 0,
            octet_length: 0,
            precision: 0,
            scale: 0,
            num_prec_radix: 0,
            parameter_type: 1,
            data_ptr: 0,
            octet_length_ptr: 0,
            indicator_ptr: 0,
            name: String::new(),
        }
    }

    /// Whether a data buffer is bound.
    pub fn is_bound(&self) -> (r: bool)
        ensures
            r == self@.is_bound(),
    {
        self.data_ptr != 0
    }

    /// Sets the concise type, and the verbose type and subcode that go with it.
    pub fn set_concise_type(&mut self, t: i16)
        ensures
            final(self)@ == old(self)@.with_concise_type(t),
    {
        self.concise_type = t;
        if 91 <= t && t <= 93 {
            self.verbose_type = SQL_DATETIME;
            self.datetime_interval_code = t - 90;
        } else if 9 <= t && t <= 11 {
            self.verbose_type = SQL_DATETIME;
            self.datetime_interval_code = t - 8;
        } else if 101 <= t && t <= 113 {
            self.verbose_type = SQL_INTERVAL;
            self.datetime_interval_code = t - 100;
        } else {
            self.verbose_type = t;
            self.datetime_interval_code = 0;
        }
    }

    fn set_verbose_type(&mut self, t: i16)
        ensures
            final(self)@ == old(self)@.with_verbose_type(t),
    {
        self.verbose_type = t;
        if t != SQL_DATETIME && t != SQL_INTERVAL {
            self.concise_type = t;
            self.datetime_interval_code = 0;
        }
    }

    fn set_subcode(&mut self, code: i16)
        ensures
            final(self)@ == old(self)@.with_subcode(code),
    {
        self.datetime_interval_code = code;
        if self.verbose_type == SQL_DATETIME && 1 <= code && code <= 3 {
            self.concise_type = 90 + code;
        } else if self.verbose_type == SQL_INTERVAL && 1 <= code && code <= 13 {
            self.concise_type = 100 + code;
        }
    }
}

/// A descriptor.
pub struct Descriptor {
    pub diagnostics: DiagnosticQueue,
    pub records: BTreeMap<u16, DescriptorRecord>,
}

/// What the contracts say of a descriptor.
#[verifier::ext_equal]
pub struct DescriptorView {
    pub queue: Seq<RecordView>,
    pub records: Map<u16, FieldsView>,
}

impl View for Descriptor {
    type V = DescriptorView;

    open spec fn view(&self) -> DescriptorView {
        DescriptorView {
            queue: self.diagnostics@,
            records: self.records@.map_values(|r: DescriptorRecord| r@),
        }
    }
}

impl Descriptor {
    /// A descriptor without records.
    pub fn new() -> (r: Descriptor)
        ensures
            r@ == (DescriptorView { queue: Seq::empty(), records: Map::empty() }),
    {
        let r = Descriptor { diagnostics: DiagnosticQueue::new(), records: BTreeMap::new() };
        assert(r@.records == Map::<u16, FieldsView>::empty());
        r
    }

    /// Takes a record out; where there is none, it is a blank one.
    pub fn take(&mut self, key: u16) -> (r: DescriptorRecord)
        ensures
            r@ == record_at(old(self)@.records, key),
            final(self)@ == (DescriptorView {
                records: old(self)@.records.remove(key),
                ..old(self)@
            }),
    {
        let found = self.records.remove(&key);
        assert(self@.records == old(self)@.records.remove(key));
        match found {
            Some(record) => record,
            None => DescriptorRecord::new(),
        }
    }

    /// Puts a record in, in place of one that may be there.
    pub fn put(&mut self, key: u16, record: DescriptorRecord)
        ensures
            final(self)@ == (DescriptorView {
                records: old(self)@.records.insert(key, record@),
                ..old(self)@
            }),
    {
        self.records.insert(key, record);
        assert(self@.records == old(self)@.records.insert(key, record@));
    }

    /// Drops the records numbered above `count`.
    pub fn truncate(&mut self, count: u16)
        ensures
            final(self)@ == (DescriptorView {
                records: up_to(old(self)@.records, count),
                ..old(self)@
            }),
    {
        let ghost was = self@.records;
        let ghost keys = self.records.keys().remaining();
        let mut above: Vec<u16> = Vec::new();
        for key in it: self.records.keys()
            invariant
                it.seq() == keys,
                forall|i: int| 0 <= i < above@.len() ==> #[trigger] above@[i] > count,
                forall|j: int|
                    0 <= j < it.index() && *(#[trigger] keys[j]) > count ==> above@.contains(
                        *keys[j],
                    ),
        {
            let ghost before = above@;
            if *key > count {
                above.push(*key);
                assert(above@[before.len() as int] == *key);
            }
            assert forall|k: u16| #[trigger] before.contains(k) implies above@.contains(k) by {
                let i = choose|i: int| 0 <= i < before.len() && before[i] == k;
                assert(above@[i] == k);
            }
        }
        for i in 0..above.len()
            invariant
                self@.queue == old(self)@.queue,
                forall|k: u16| #[trigger]
                    self@.records.dom().contains(k) <==> was.dom().contains(k)
                        && !above@.take(i as int).contains(k),
                forall|k: u16|
                    self@.records.dom().contains(k) ==> #[trigger] self@.records[k] == was[k],
        {
            let ghost before = self@.records;
            let ghost gone = above@.take(i as int);
            self.records.remove(&above[i]);
            assert(self@.records == before.remove(above@[i as int]));
            assert(above@.take(i + 1) == gone.push(above@[i as int]));
            assert forall|k: u16| #[trigger]
                above@.take(i + 1).contains(k) <==> gone.contains(k) || k == above@[i as int] by {
                if gone.contains(k) {
                    let j = choose|j: int| 0 <= j < gone.len() && gone[j] == k;
                    assert(above@.take(i + 1)[j] == k);
                }
                if k == above@[i as int] {
                    assert(above@.take(i + 1)[i as int] == k);
                }
            }
        }
        proof {
            assert(above@.take(above@.len() as int) == above@);
            assert forall|k: u16| was.dom().contains(k) && k > count implies #[trigger]
                above@.contains(k) by {
                assert(keys.unref().to_set().contains(k));
                let j = choose|j: int| 0 <= j < keys.unref().len() && keys.unref()[j] == k;
                assert(*keys[j] == k);
            }
            assert(self@.records =~= up_to(was, count));
        }
    }
}

/// The record of a number, blank where there is none.
pub open spec fn record_at(records: Map<u16, FieldsView>, key: u16) -> FieldsView {
    if records.dom().contains(key) {
        records[key]
    } else {
        FieldsView::blank()
    }
}

/// The records numbered up to `count`.
pub open spec fn up_to(records: Map<u16, FieldsView>, count: u16) -> Map<u16, FieldsView> {
    records.restrict(Set::new(|k: u16| k <= count))
}

// ---------------------------------------------------------------------------
// The consistency check
// ---------------------------------------------------------------------------

/// Why a record contradicts itself: a datetime or interval without a subcode of
/// its own, or an exact number with more digits behind the point than it has.
pub open spec fn inconsistency(r: FieldsView) -> Option<ErrorView> {
    if r.verbose_type == SQL_DATETIME && !(1 <= r.datetime_interval_code <= 3) {
        Some(
            ErrorView::general(
                "The datetime subcode does not belong to a datetime type"@,
                INCONSISTENT_DESCRIPTOR_INFORMATION@,
            ),
        )
    } else if r.verbose_type == SQL_INTERVAL && !(1 <= r.datetime_interval_code <= 13) {
        Some(
            ErrorView::general(
                "The interval subcode does not belong to an interval type"@,
                INCONSISTENT_DESCRIPTOR_INFORMATION@,
            ),
        )
    } else if (r.verbose_type == SQL_NUMERIC || r.verbose_type == SQL_DECIMAL) && r.scale
        > r.precision {
        Some(
            ErrorView::general(
                "The scale exceeds the precision"@,
                INCONSISTENT_DESCRIPTOR_INFORMATION@,
            ),
        )
    } else {
        None
    }
}

/// Checks that a record does not contradict itself.
pub fn consistency_check(record: &DescriptorRecord) -> (r: Result<(), OdbcError>)
    ensures
        match r {
            Ok(_) => inconsistency(record@) is None,
            Err(e) => inconsistency(record@) == Some(e@),
        },
{
    let code = record.datetime_interval_code;
    if record.verbose_type == SQL_DATETIME && !(1 <= code && code <= 3) {
        Err(
            OdbcError::general(
                "The datetime subcode does not belong to a datetime type",
                SqlState::inconsistent_descriptor_information(),
            ),
        )
    } else if record.verbose_type == SQL_INTERVAL && !(1 <= code && code <= 13) {
        Err(
            OdbcError::general(
                "The interval subcode does not belong to an interval type",
                SqlState::inconsistent_descriptor_information(),
            ),
        )
    } else if (record.verbose_type == SQL_NUMERIC || record.verbose_type == SQL_DECIMAL)
        && record.scale > record.precision {
        Err(
            OdbcError::general(
                "The scale exceeds the precision",
                SqlState::inconsistent_descriptor_information(),
            ),
        )
    } else {
        Ok(())
    }
}

// ---------------------------------------------------------------------------
// Reading and writing a field
// ---------------------------------------------------------------------------

/// The fields that hold a text.
pub open spec fn is_text_field(field: Desc) -> bool {
    match field {
        Desc::Name
        | Desc::BaseColumnName
        | Desc::BaseTableName
        | Desc::CatalogName
        | Desc::Label
        | Desc::LiteralPrefix
        | Desc::LiteralSuffix
        | Desc::LocalTypeName
        | Desc::SchemaName
        | Desc::TypeName
        | Desc::TableName => true,
        _ => false,
    }
}

/// The value of a field of a record. What is not kept reads as its default.
pub open spec fn field_value(r: FieldsView, field: Desc) -> ValueView {
    match field {
        Desc::ConciseType => ValueView::Numeric(r.concise_type as isize),
        Desc::Type => ValueView::Numeric(r.verbose_type as isize),
        Desc::DatetimeIntervalCode => ValueView::Numeric(r.datetime_interval_code as isize),
        Desc::DatetimeIntervalPrecision => ValueView::Numeric(
            r.datetime_interval_precision as isize,
        ),
        Desc::Length => ValueView::Numeric(r.length as isize),
        Desc::OctetLength => ValueView::Numeric(r.octet_length),
        Desc::Precision => ValueView::Numeric(r.precision as isize),
        Desc::Scale => ValueView::Numeric(r.scale as isize),
        Desc::NumPrecRadix => ValueView::Numeric(r.num_prec_radix as isize),
        Desc::ParameterType => ValueView::Numeric(r.parameter_type as isize),
        Desc::DataPtr => ValueView::Numeric(r.data_ptr as isize),
        Desc::OctetLengthPtr => ValueView::Numeric(r.octet_length_ptr as isize),
        Desc::IndicatorPtr => ValueView::Numeric(r.indicator_ptr as isize),
        Desc::Nullable => ValueView::Numeric(SQL_NULLABLE_UNKNOWN as isize),
        Desc::Unnamed => ValueView::Numeric(
            if r.name.len() == 0 {
                SQL_UNNAMED as isize
            } else {
                SQL_NAMED as isize
            },
        ),
        Desc::Name => ValueView::Text(r.name),
        _ => if is_text_field(field) {
            ValueView::Text(Seq::empty())
        } else {
            ValueView::Numeric(0)
        },
    }
}

/// The value of a field of a record.
pub fn get_record_field(record: &DescriptorRecord, field: Desc) -> (r: DescFieldValue)
    ensures
        r@ == field_value(record@, field),
{
    match field {
        Desc::ConciseType => DescFieldValue::Numeric(record.concise_type as isize),
        Desc::Type => DescFieldValue::Numeric(record.verbose_type as isize),
        Desc::DatetimeIntervalCode => DescFieldValue::Numeric(
            record.datetime_interval_code as isize,
        ),
        Desc::DatetimeIntervalPrecision => DescFieldValue::Numeric(
            record.datetime_interval_precision as isize,
        ),
        Desc::Length => DescFieldValue::Numeric(record.length as isize),
        Desc::OctetLength => DescFieldValue::Numeric(record.octet_length),
        Desc::Precision => DescFieldValue::Numeric(record.precision as isize),
        Desc::Scale => DescFieldValue::Numeric(record.scale as isize),
        Desc::NumPrecRadix => DescFieldValue::Numeric(record.num_prec_radix as isize),
        Desc::ParameterType => DescFieldValue::Numeric(record.parameter_type as isize),
        Desc::DataPtr => DescFieldValue::Numeric(record.data_ptr as isize),
        Desc::OctetLengthPtr => DescFieldValue::Numeric(record.octet_length_ptr as isize),
        Desc::IndicatorPtr => DescFieldValue::Numeric(record.indicator_ptr as isize),
        Desc::Nullable => DescFieldValue::Numeric(SQL_NULLABLE_UNKNOWN as isize),
        Desc::Unnamed => DescFieldValue::Numeric(
            if record.name.as_str().is_empty() {
                SQL_UNNAMED as isize
            } else {
                SQL_NAMED as isize
            },
        ),
        Desc::Name => DescFieldValue::Text(record.name.clone()),
        Desc::BaseColumnName
        | Desc::BaseTableName
        | Desc::CatalogName
        | Desc::Label
        | Desc::LiteralPrefix
        | Desc::LiteralSuffix
        | Desc::LocalTypeName
        | Desc::SchemaName
        | Desc::TypeName
        | Desc::TableName => DescFieldValue::Text(String::new()),
        _ => DescFieldValue::Numeric(0),
    }
}

/// The failure for a value that is not one of the field.
pub open spec fn not_a_value(field: Desc) -> ErrorView {
    ErrorView::general(
        "Invalid value for descriptor field "@ + field.spec_name(),
        INVALID_ATTRIBUTE_OPTION_IDENTIFIER@,
    )
}

/// The failure for a field that cannot be written on this descriptor.
pub open spec fn not_writable(role: DescriptorRole, field: Desc) -> ErrorView {
    ErrorView::general(
        "Descriptor field "@ + field.spec_name() + (" is not writable on "@ + role.spec_name()),
        INVALID_DESCRIPTOR_FIELD_IDENTIFIER@,
    )
}

/// Whether `n` is a `SQLSMALLINT`.
pub open spec fn is_small(n: isize) -> bool {
    -32768 <= n <= 32767
}

/// Whether `n` is a `SQLINTEGER`.
pub open spec fn is_integer(n: isize) -> bool {
    -0x8000_0000 <= n <= 0x7fff_ffff
}

/// The record with a number written to `field`, or why it is not one of it.
pub open spec fn with_number(
    r: FieldsView,
    role: DescriptorRole,
    field: Desc,
    n: isize,
) -> Result<FieldsView, ErrorView> {
    match field {
        Desc::ConciseType if is_small(n) => Ok(r.with_concise_type(n as i16)),
        Desc::Type if is_small(n) => Ok(r.with_verbose_type(n as i16)),
        Desc::DatetimeIntervalCode if is_small(n) => Ok(r.with_subcode(n as i16)),
        Desc::DatetimeIntervalPrecision if is_integer(n) => Ok(
            FieldsView { datetime_interval_precision: n as i32, ..r },
        ),
        Desc::Length if n >= 0 => Ok(FieldsView { length: n as usize, ..r }),
        Desc::OctetLength => Ok(FieldsView { octet_length: n, ..r }),
        Desc::Precision if is_small(n) => Ok(FieldsView { precision: n as i16, ..r }),
        Desc::Scale if is_small(n) => Ok(FieldsView { scale: n as i16, ..r }),
        Desc::NumPrecRadix if is_integer(n) => Ok(FieldsView { num_prec_radix: n as i32, ..r }),
        Desc::ParameterType if is_small(n) => Ok(FieldsView { parameter_type: n as i16, ..r }),
        Desc::DataPtr => Ok(
            if role == DescriptorRole::Ipd {
                r
            } else {
                FieldsView { data_ptr: n as usize, ..r }
            },
        ),
        Desc::OctetLengthPtr => Ok(FieldsView { octet_length_ptr: n as usize, ..r }),
        Desc::IndicatorPtr => Ok(FieldsView { indicator_ptr: n as usize, ..r }),
        Desc::Unnamed if n == SQL_UNNAMED => Ok(FieldsView { name: Seq::empty(), ..r }),
        _ => Err(not_a_value(field)),
    }
}

/// The record with a value written to `field`, or why it is not one of it. The
/// data pointer of an implementation parameter descriptor is not kept.
pub open spec fn with_field(
    r: FieldsView,
    role: DescriptorRole,
    field: Desc,
    value: ValueView,
) -> Result<FieldsView, ErrorView> {
    match value {
        ValueView::Text(s) => if field == Desc::Name {
            Ok(FieldsView { name: s, ..r })
        } else {
            Err(not_a_value(field))
        },
        ValueView::Numeric(n) => with_number(r, role, field, n),
    }
}

fn invalid_value(field: Desc) -> (r: OdbcError)
    ensures
        r@ == not_a_value(field),
{
    OdbcError::general(
        join2("Invalid value for descriptor field ", field.name()).as_str(),
        SqlState::invalid_attribute_option_identifier(),
    )
}

/// The failure for a field that cannot be written on this descriptor.
pub fn unwritable(role: DescriptorRole, field: Desc) -> (r: OdbcError)
    ensures
        r@ == not_writable(role, field),
{
    let place = join2(" is not writable on ", role.name());
    OdbcError::general(
        join3("Descriptor field ", field.name(), place.as_str()).as_str(),
        SqlState::invalid_descriptor_field_identifier(),
    )
}

/// Writes a field of a record. A value that is not one of the field leaves the
/// record as it was.
pub fn set_record_field(
    record: &mut DescriptorRecord,
    role: DescriptorRole,
    field: Desc,
    value: DescFieldValue,
) -> (r: Result<(), OdbcError>)
    ensures
        match r {
            Ok(_) => with_field(old(record)@, role, field, value@) == Ok::<FieldsView, ErrorView>(
                final(record)@,
            ),
            Err(e) => with_field(old(record)@, role, field, value@) == Err::<
                FieldsView,
                ErrorView,
            >(e@) && final(record)@ == old(record)@,
        },
{
    let n = match value {
        DescFieldValue::Text(s) => {
            if field == Desc::Name {
                record.name = s;
                return Ok(());
            }
            return Err(invalid_value(field));
        },
        DescFieldValue::Numeric(n) => n,
    };
    let fits_small = -32768 <= n && n <= 32767;
    let fits_integer = -0x8000_0000 <= n as i64 && n as i64 <= 0x7fff_ffff;
    let valid = match field {
        Desc::ConciseType
        | Desc::Type
        | Desc::DatetimeIntervalCode
        | Desc::Precision
        | Desc::Scale
        | Desc::ParameterType => fits_small,
        Desc::DatetimeIntervalPrecision | Desc::NumPrecRadix => fits_integer,
        Desc::Length => n >= 0,
        Desc::Unnamed => n == SQL_UNNAMED as isize,
        Desc::OctetLength | Desc::DataPtr | Desc::OctetLengthPtr | Desc::IndicatorPtr => true,
        _ => false,
    };
    if !valid {
        return Err(invalid_value(field));
    }
    match field {
        Desc::ConciseType => record.set_concise_type(n as i16),
        Desc::Type => record.set_verbose_type(n as i16),
        Desc::DatetimeIntervalCode => record.set_subcode(n as i16),
        Desc::DatetimeIntervalPrecision => {
            record.datetime_interval_precision = n as i32;
        },
        Desc::Length => {
            record.length = n as usize;
        },
        Desc::OctetLength => {
            record.octet_length = n;
        },
        Desc::Precision => {
            record.precision = n as i16;
        },
        Desc::Scale => {
            record.scale = n as i16;
        },
        Desc::NumPrecRadix => {
            record.num_prec_radix = n as i32;
        },
        Desc::ParameterType => {
            record.parameter_type = n as i16;
        },
        Desc::DataPtr => {
            if role != DescriptorRole::Ipd {
                record.data_ptr = n as usize;
            }
        },
        Desc::OctetLengthPtr => {
            record.octet_length_ptr = n as usize;
        },
        Desc::IndicatorPtr => {
            record.indicator_ptr = n as usize;
        },
        _ => {
            record.name = String::new();
        },
    }
    Ok(())
}

/// A pointer written to a record as a number is the pointer read from it.
pub proof fn law_pointers_survive(p: usize)
    ensures
        (p as isize) as usize == p,
{
    assert((p as isize) as usize == p) by (bit_vector);
}

/// The concise type and the subcode say the same: setting the verbose type and
/// then the subcode that a concise datetime or interval type has gives that
/// type, as setting it directly does.
pub proof fn law_verbose_type_and_subcode_give_the_concise_type(r: FieldsView, t: i16)
    requires
        91 <= t <= 93 || 101 <= t <= 113,
    ensures
        r.with_verbose_type(verbose_of(t)).with_subcode(subcode_of(t)) == r.with_concise_type(t),
{
}

/// A record contradicts itself just where a datetime has a subcode other than 1 to
/// 3, an interval one other than 1 to 13, or an exact number a scale above its
/// precision; all of it is reported as `HY021`.
pub proof fn law_which_records_contradict_themselves(r: FieldsView)
    ensures
        ({
            let bad = (r.verbose_type == 9 && (r.datetime_interval_code < 1
                || r.datetime_interval_code > 3)) || (r.verbose_type == 10 && (
            r.datetime_interval_code < 1 || r.datetime_interval_code > 13)) || ((r.verbose_type == 2
                || r.verbose_type == 3) && r.scale > r.precision);
            &&& (inconsistency(r) is Some) == bad
            &&& inconsistency(r) matches Some(e) ==> e.sqlstate() == "HY021"@
        }),
{
}

/// A concise type sets the verbose type and the subcode that go with it, so that a
/// record is never left contradicting itself by it.
pub proof fn law_a_concise_type_is_consistent(r: FieldsView, t: i16)
    requires
        t != 2,
        t != 3,
    ensures
        ({
            let set = r.with_concise_type(t);
            &&& set.concise_type == t
            &&& inconsistency(set) is None
            &&& (set.verbose_type == 9) == (91 <= t <= 93 || 9 <= t <= 11)
            &&& (set.verbose_type == 10) == (101 <= t <= 113)
            &&& set.verbose_type != 9 && set.verbose_type != 10 ==> set.verbose_type == t
                && set.datetime_interval_code == 0
        }),
{
}

/// A number written to a field of a record is the number read from it, and the
/// fields that do not follow from it stay as they were.
pub proof fn law_a_number_written_is_the_number_read(
    r: FieldsView,
    role: DescriptorRole,
    field: Desc,
    n: isize,
    other: Desc,
)
    requires
        with_number(r, role, field, n) is Ok,
        field != Desc::Unnamed,
        !(role == DescriptorRole::Ipd && field == Desc::DataPtr),
        field == Desc::DataPtr || field == Desc::OctetLengthPtr || field == Desc::IndicatorPtr
            ==> n >= 0,
    ensures
        field_value(with_number(r, role, field, n)->Ok_0, field) == ValueView::Numeric(n),
        ({
            let of_the_type = |f: Desc|
                f == Desc::Type || f == Desc::ConciseType || f == Desc::DatetimeIntervalCode;
            other != field && !(of_the_type(field) && of_the_type(other)) ==> field_value(
                with_number(r, role, field, n)->Ok_0,
                other,
            ) == field_value(r, other)
        }),
{
}

/// The numbers that a field takes: a small integer, an integer, a length that is
/// not negative, or any pointer or byte count.
pub proof fn law_which_numbers_a_field_takes(r: FieldsView, role: DescriptorRole, n: isize)
    ensures
        ({
            let takes = |field: Desc| with_number(r, role, field, n) is Ok;
            let small = -32768 <= n <= 32767;
            let integer = -0x8000_0000 <= n <= 0x7fff_ffff;
            &&& takes(Desc::ConciseType) == small && takes(Desc::Type) == small
            &&& takes(Desc::DatetimeIntervalCode) == small && takes(Desc::Precision) == small
            &&& takes(Desc::Scale) == small && takes(Desc::ParameterType) == small
            &&& takes(Desc::DatetimeIntervalPrecision) == integer
            &&& takes(Desc::NumPrecRadix) == integer
            &&& takes(Desc::Length) == (n >= 0)
            &&& takes(Desc::OctetLength) && takes(Desc::DataPtr)
            &&& takes(Desc::OctetLengthPtr) && takes(Desc::IndicatorPtr)
            &&& takes(Desc::Unnamed) == (n == 1)
            &&& !takes(Desc::Name)
        }),
        with_number(r, role, Desc::Name, n) matches Err(e) && e.sqlstate() == "HY092"@,
{
}

/// A name is read as it was written, and makes the record a named one; taking it
/// away makes it an unnamed one.
pub proof fn law_a_name_names_the_record(r: FieldsView, role: DescriptorRole, name: Seq<char>)
    ensures
        with_field(r, role, Desc::Name, ValueView::Text(name)) matches Ok(named) && {
            &&& field_value(named, Desc::Name) == ValueView::Text(name)
            &&& field_value(named, Desc::Unnamed) == ValueView::Numeric(
                if name.len() == 0 {
                    1
                } else {
                    0
                },
            )
            &&& named == (FieldsView { name, ..r })
        },
        with_number(r, role, Desc::Unnamed, 1) matches Ok(unnamed) && field_value(
            unnamed,
            Desc::Name,
        ) == ValueView::Text(Seq::empty()),
{
}

/// A subcode behind a verbose type gives the concise type that they belong to, where there
/// is one, and leaves the concise type alone where there is none.
pub proof fn law_a_subcode_completes_the_type(r: FieldsView, t: i16, code: i16)
    ensures
        ({
            let typed = r.with_verbose_type(t);
            let done = typed.with_subcode(code);
            let completes = (t == 9 && 1 <= code <= 3) || (t == 10 && 1 <= code <= 13);
            &&& typed.verbose_type == t
            &&& t == 9 || t == 10 ==> typed.concise_type == r.concise_type
                && typed.datetime_interval_code == r.datetime_interval_code
            &&& t != 9 && t != 10 ==> typed.concise_type == t && typed.datetime_interval_code == 0
            &&& done.datetime_interval_code == code
            &&& done.verbose_type == t
            &&& completes ==> done == r.with_concise_type(done.concise_type)
                && done.concise_type != 9 && done.concise_type != 10
                && done.concise_type != 11
            &&& completes ==> inconsistency(done) is None
            &&& !completes ==> done.concise_type == typed.concise_type
            &&& done == (FieldsView {
                verbose_type: t,
                concise_type: done.concise_type,
                datetime_interval_code: code,
                ..r
            })
        }),
{
}

/// A field that a record does not hold reads as zero or as the empty text, whatever the
/// record.
pub proof fn law_what_a_record_does_not_hold(r: FieldsView, field: Desc)
    ensures
        field == Desc::AutoUniqueValue || field == Desc::CaseSensitive || field
            == Desc::DisplaySize || field == Desc::FixedPrecScale || field == Desc::MaximumScale
            || field == Desc::MinimumScale || field == Desc::RowVer || field == Desc::Searchable
            || field == Desc::Unsigned || field == Desc::Updatable ==> field_value(r, field)
            == ValueView::Numeric(0),
        field == Desc::BaseColumnName || field == Desc::BaseTableName || field == Desc::CatalogName
            || field == Desc::Label || field == Desc::LiteralPrefix || field == Desc::LiteralSuffix
            || field == Desc::LocalTypeName || field == Desc::SchemaName || field == Desc::TypeName
            || field == Desc::TableName ==> field_value(r, field) == ValueView::Text(Seq::empty()),
        field_value(r, Desc::Nullable) == ValueView::Numeric(2),
{
}

/// A record that nothing was written to has the default type, and no pointers.
pub proof fn law_a_new_record_is_of_the_default_type(records: Map<u16, FieldsView>, n: u16)
    requires
        !records.dom().contains(n),
    ensures
        ({
            let r = record_at(records, n);
            &&& field_value(r, Desc::ConciseType) == ValueView::Numeric(99)
            &&& field_value(r, Desc::Type) == ValueView::Numeric(99)
            &&& field_value(r, Desc::ParameterType) == ValueView::Numeric(1)
            &&& forall|field: Desc|
                field == Desc::DatetimeIntervalCode || field == Desc::DatetimeIntervalPrecision
                    || field == Desc::Length || field == Desc::OctetLength || field
                    == Desc::Precision || field == Desc::Scale || field == Desc::NumPrecRadix
                    || field == Desc::DataPtr || field == Desc::OctetLengthPtr || field
                    == Desc::IndicatorPtr ==> #[trigger] field_value(r, field)
                    == ValueView::Numeric(0)
            &&& field_value(r, Desc::Name) == ValueView::Text(Seq::empty())
            &&& inconsistency(r) is None
            &&& !r.is_bound()
        }),
{
}

} // verus!
