//! Texts on their way in and out.

use stackable_odbc_core::diagnostics::DiagnosticQueue;
use stackable_odbc_core::text::{
    alphanumeric, decimal_of, hexadecimal_of, same_ignoring_case, to_lower, unsigned_of, whitespace,
};
use stackable_odbc_core::types::SqlReturn;
use stackable_odbc_core::utf16::{
    MAX_NTS_SCAN, SQL_NTS, decode, encode, note_truncation, utf16_to_string, write_utf16,
};

#[test]
fn a_text_that_is_encoded_and_decoded_comes_back() {
    for text in [
        "",
        "abc",
        "\u{e9}\u{4e00}",
        "a\u{1F600}b",
        "\u{10FFFF}\u{10000}\u{FFFF}\u{E000}",
    ] {
        assert_eq!(encode(text), text.encode_utf16().collect::<Vec<u16>>());
        assert_eq!(decode(&encode(text)), text);
    }
}

#[test]
fn a_surrogate_on_its_own_is_replaced() {
    for units in [
        vec![0xd800u16],
        vec![0xdc00],
        vec![0x61, 0xd800, 0x62],
        vec![0xd800, 0xd800, 0xdc00],
        vec![0xdfff, 0xd83d, 0xde00],
    ] {
        assert_eq!(decode(&units), String::from_utf16_lossy(&units));
    }
}

#[test]
fn a_text_is_read_by_its_length_or_up_to_its_terminator() {
    let units: Vec<u16> = "abc\0def".encode_utf16().collect();
    assert_eq!(utf16_to_string(Some(&units), 2).unwrap(), "ab");
    assert_eq!(utf16_to_string(Some(&units), 7).unwrap(), "abc\0def");
    assert_eq!(utf16_to_string(Some(&units), SQL_NTS).unwrap(), "abc");
    assert_eq!(utf16_to_string(Some(&units), 0).unwrap(), "");
    assert_eq!(
        utf16_to_string(None, 0).unwrap_err().sqlstate().as_str(),
        "HY009"
    );
    let e = utf16_to_string(Some(&units), -1).unwrap_err();
    assert_eq!(e.sqlstate().as_str(), "HY090");
    assert_eq!(e.to_string(), "Invalid string length: -1");
}

#[test]
fn a_text_without_a_terminator_is_refused_at_the_cap() {
    let mut units = vec![u16::from(b'a'); MAX_NTS_SCAN + 1];
    units[MAX_NTS_SCAN] = 0;
    assert_eq!(
        utf16_to_string(Some(&units), SQL_NTS)
            .unwrap_err()
            .sqlstate()
            .as_str(),
        "HY090"
    );
    units[MAX_NTS_SCAN - 1] = 0;
    assert_eq!(
        utf16_to_string(Some(&units), SQL_NTS).unwrap().len(),
        MAX_NTS_SCAN - 1
    );
}

#[test]
fn a_write_stays_in_the_buffer_and_reports_the_whole_length() {
    let write = write_utf16("hello", true, 6);
    assert_eq!(write.code, SqlReturn::SUCCESS);
    assert_eq!(write.length, 5);
    assert_eq!(
        write.units.unwrap(),
        "hello\0".encode_utf16().collect::<Vec<u16>>()
    );
    let write = write_utf16("hello", true, 5);
    assert_eq!(write.code, SqlReturn::SUCCESS_WITH_INFO);
    assert_eq!(write.length, 5);
    assert_eq!(write.units.unwrap().len(), 5);
    let write = write_utf16("hello", true, 0);
    assert_eq!(write.code, SqlReturn::SUCCESS_WITH_INFO);
    assert!(write.units.is_none());
    let write = write_utf16("", true, 0);
    assert_eq!(write.code, SqlReturn::SUCCESS);
    let write = write_utf16("hello", false, 3);
    assert_eq!(write.code, SqlReturn::SUCCESS);
    assert_eq!(write.length, 5);
    let write = write_utf16(&"x".repeat(40_000), false, 0);
    assert_eq!(write.length, i16::MAX);
}

#[test]
fn a_cut_text_leaves_a_record() {
    let mut queue = DiagnosticQueue::new();
    assert_eq!(
        note_truncation(SqlReturn::SUCCESS, &mut queue),
        SqlReturn::SUCCESS
    );
    assert!(queue.is_empty());
    assert_eq!(
        note_truncation(SqlReturn::SUCCESS_WITH_INFO, &mut queue),
        SqlReturn::SUCCESS_WITH_INFO
    );
    assert_eq!(queue.get(0).unwrap().sqlstate.as_str(), "01004");
}

#[test]
fn numbers_are_written_as_they_are_formatted() {
    for n in [0i64, 7, 10, -1, 12345, i64::MAX, i64::MIN] {
        assert_eq!(decimal_of(n), n.to_string());
    }
    for n in [0usize, 9, 16, 255, 0xdead_beef, usize::MAX] {
        assert_eq!(unsigned_of(n), n.to_string());
        assert_eq!(hexadecimal_of(n), format!("{n:#x}"));
    }
}

#[test]
fn case_is_ignored_for_ascii_letters_only() {
    assert!(same_ignoring_case("Driver", "dRIVER"));
    assert!(!same_ignoring_case("\u{c9}", "\u{e9}"));
    assert!(!same_ignoring_case("a", "ab"));
}

#[test]
fn character_classes_are_those_of_the_standard_library() {
    for c in '\0'..=char::MAX {
        assert_eq!(whitespace(c), c.is_whitespace(), "{c:?}");
        assert_eq!(alphanumeric(c), c.is_ascii_alphanumeric(), "{c:?}");
        assert_eq!(to_lower(c), c.to_ascii_lowercase(), "{c:?}");
    }
}
