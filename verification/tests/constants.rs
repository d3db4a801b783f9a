//! The numbers of the C interface.

use stackable_odbc_core::bind::c_data_type;
use stackable_odbc_core::env::{SQL_ATTR_ODBC_VERSION, SQL_ATTR_OUTPUT_NTS};
use stackable_odbc_core::types::connection_attribute::defined;
use stackable_odbc_core::types::descriptor_field::{
    Desc, DescriptorRole, FieldAccess, desc_from_raw, field_access, header_attribute,
    header_default,
};

#[test]
fn connection_attributes_are_the_twenty_four() {
    let mut known: Vec<i32> = Vec::new();
    for n in -100..20_000 {
        if defined(n) {
            known.push(n);
        }
    }
    let mut expected: Vec<i32> = vec![4];
    expected.extend(101..=114);
    expected.extend(116..=119);
    expected.extend([1207, 1208, 1209, 10001, 10014]);
    assert_eq!(known, expected);
}

#[test]
fn environment_attributes() {
    assert_eq!(SQL_ATTR_ODBC_VERSION, 200);
    assert_eq!(SQL_ATTR_OUTPUT_NTS, 10001);
}

#[test]
fn c_data_types() {
    for t in [
        -100, -99, -28, -27, -26, -25, -18, -17, -16, -15, -11, -8, -7, -2, 1, 2, 7, 8, 9, 10, 11,
        91, 92, 93, 99, 101, 113, 0x4000, 0x4001,
    ] {
        assert!(c_data_type(t), "{t}");
    }
    for t in [-101, -29, -24, -6, -1, 0, 3, 4, 5, 6, 12, 90, 94, 100, 114, 0x4002] {
        assert!(!c_data_type(t), "{t}");
    }
}

#[test]
fn descriptor_fields_are_found_by_their_numbers() {
    let mut known = 0;
    for raw in i16::MIN..=i16::MAX {
        if let Some(field) = desc_from_raw(raw) {
            known += 1;
            assert_eq!(field.number(), raw);
            assert_eq!(field.name(), format!("{field:?}"));
        }
    }
    assert_eq!(known, 43);
    assert_eq!(desc_from_raw(1001), Some(Desc::Count));
    assert_eq!(desc_from_raw(20), Some(Desc::ArraySize));
    assert_eq!(desc_from_raw(1099), Some(Desc::AllocType));
}

#[test]
fn header_fields_are_statement_attributes_only_where_they_are_defined() {
    for raw in i16::MIN..=i16::MAX {
        let Some(field) = desc_from_raw(raw) else {
            continue;
        };
        for role in [
            DescriptorRole::Ard,
            DescriptorRole::Apd,
            DescriptorRole::Ird,
            DescriptorRole::Ipd,
        ] {
            if header_attribute(role, field).is_some() {
                assert_eq!(field_access(role, field), FieldAccess::ReadWrite);
            }
        }
    }
    assert_eq!(
        header_attribute(DescriptorRole::Ard, Desc::ArraySize),
        Some(27)
    );
    assert_eq!(
        header_attribute(DescriptorRole::Ipd, Desc::RowsProcessedPtr),
        Some(21)
    );
    assert_eq!(header_attribute(DescriptorRole::Ard, Desc::Count), None);
    assert_eq!(header_default(Desc::ArraySize), 1);
    assert_eq!(header_default(Desc::BindType), 0);
}
