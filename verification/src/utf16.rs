//! UTF-16 text in and out: decoding what the application passed, and laying
//! out what its buffer receives.

use vstd::prelude::*;

use crate::diagnostics::{DiagnosticQueue, RecordView, record_of};
use crate::errors::{ErrorView, OdbcError};
use crate::text::{chars_of, decimal, decimal_of, join2};
use crate::types::{SqlReturn, SqlState};
use crate::types::sql_state::{INVALID_STRING_OR_BUFFER_LENGTH, INVALID_USE_OF_NULL_POINTER};

verus! {

/// `SQL_NTS`: the text runs to its null terminator.
pub const SQL_NTS: i32 = -3;

/// How far a null terminator is looked for.
pub const MAX_NTS_SCAN: usize = 1048576;

// ---------------------------------------------------------------------------
// Characters and code units
// ---------------------------------------------------------------------------

/// The code units of one character.
pub open spec fn units_of(c: char) -> Seq<u16> {
    let u = c as u32;
    if u < 0x10000 {
        seq![u as u16]
    } else {
        seq![
            (0xd800 + (u - 0x10000) / 0x400) as u16,
            (0xdc00 + (u - 0x10000) % 0x400) as u16,
        ]
    }
}

/// The code units of a text.
pub open spec fn encode16(s: Seq<char>) -> Seq<u16>
    decreases s.len(),
{
    if s.len() == 0 {
        Seq::empty()
    } else {
        encode16(s.drop_last()) + units_of(s.last())
    }
}

/// A unit that starts a surrogate pair.
pub open spec fn is_high(u: u16) -> bool {
    0xd800 <= u < 0xdc00
}

/// A unit that ends a surrogate pair.
pub open spec fn is_low(u: u16) -> bool {
    0xdc00 <= u < 0xe000
}

/// The text the units from `i` on stand for; a surrogate without its partner
/// becomes the replacement character.
pub open spec fn decode16_from(units: Seq<u16>, i: int) -> Seq<char>
    decreases units.len() - i,
{
    if i < 0 || i >= units.len() {
        Seq::empty()
    } else if !is_high(units[i]) && !is_low(units[i]) {
        seq![units[i] as char] + decode16_from(units, i + 1)
    } else if is_high(units[i]) && i + 1 < units.len() && is_low(units[i + 1]) {
        seq![(0x10000 + (units[i] - 0xd800) * 0x400 + (units[i + 1] - 0xdc00)) as char]
            + decode16_from(units, i + 2)
    } else {
        seq!['\u{fffd}'] + decode16_from(units, i + 1)
    }
}

/// The text `units` stand for.
pub open spec fn decode16(units: Seq<u16>) -> Seq<char> {
    decode16_from(units, 0)
}

/// The code units of `text`.
pub fn encode(text: &str) -> (r: Vec<u16>)
    ensures
        r@ == encode16(text@),
{
    let chars = chars_of(text);
    let mut r: Vec<u16> = Vec::new();
    for i in 0..chars.len()
        invariant
            r@ == encode16(chars@.take(i as int)),
            chars@ == text@,
    {
        let c = chars[i];
        let u: u32 = c as u32;
        proof {
            assert(chars@.take(i + 1).drop_last() == chars@.take(i as int));
            assert(chars@.take(i + 1).last() == c);
        }
        if u < 0x10000 {
            r.push(u as u16);
        } else {
            r.push((0xd800 + (u - 0x10000) / 0x400) as u16);
            r.push((0xdc00 + (u - 0x10000) % 0x400) as u16);
        }
        assert(r@ == encode16(chars@.take(i as int)) + units_of(c));
    }
    assert(chars@.take(chars@.len() as int) == chars@);
    r
}

/// `char::from_u32` gives the character a number stands for: every number up
/// to `0x10ffff` but for the surrogates stands for one.
pub assume_specification[ char::from_u32 ](i: u32) -> (r: Option<char>)
    ensures
        r == (if i < 0xd800 || 0xe000 <= i <= 0x10ffff {
            Some(i as char)
        } else {
            None
        }),
;

/// The text `units` stand for.
pub fn decode(units: &[u16]) -> (r: String)
    ensures
        r@ == decode16(units@),
{
    let mut r = String::new();
    let mut i: usize = 0;
    while i < units.len()
        invariant
            i <= units@.len(),
            decode16(units@) == r@ + decode16_from(units@, i as int),
        decreases units@.len() - i,
    {
        let ghost before = r@;
        let ghost start = i as int;
        let u = units[i];
        if u < 0xd800 || u >= 0xe000 {
            if let Some(c) = char::from_u32(u as u32) {
                r.push(c);
            }
            i = i + 1;
            assert(r@ + decode16_from(units@, i as int) == before + (seq![u as char]
                + decode16_from(units@, i as int)));
        } else if u < 0xdc00 && i + 1 < units.len() && units[i + 1] >= 0xdc00 && units[i + 1]
            < 0xe000 {
            let v: u32 = 0x10000 + (u - 0xd800) as u32 * 0x400 + (units[i + 1] - 0xdc00) as u32;
            if let Some(c) = char::from_u32(v) {
                r.push(c);
            }
            i = i + 2;
            assert(r@ + decode16_from(units@, i as int) == before + (seq![v as char]
                + decode16_from(units@, i as int)));
        } else {
            r.push('\u{fffd}');
            i = i + 1;
            assert(r@ + decode16_from(units@, i as int) == before + (seq!['\u{fffd}']
                + decode16_from(units@, i as int)));
        }
    }
    assert(r@ + Seq::<char>::empty() == r@);
    r
}

// ---------------------------------------------------------------------------
// Text in
// ---------------------------------------------------------------------------

/// The first null unit at or after `i`.
pub open spec fn null_from(units: Seq<u16>, i: int) -> Option<int>
    decreases units.len() - i,
{
    if i < 0 || i >= units.len() || i >= MAX_NTS_SCAN {
        None
    } else if units[i] == 0 {
        Some(i)
    } else {
        null_from(units, i + 1)
    }
}

/// Whether `length` says how long a text is: a count that `units` holds, or a
/// negative number, of which only `SQL_NTS` is one.
pub open spec fn readable(units: Option<&[u16]>, length: int) -> bool {
    units matches Some(u) ==> length <= u@.len()
}

/// The failure for a text that is not there.
pub open spec fn null_text() -> ErrorView {
    ErrorView::general("String pointer is null"@, INVALID_USE_OF_NULL_POINTER@)
}

/// The failure for a length that is neither a count nor `SQL_NTS`.
pub open spec fn bad_length(length: int) -> ErrorView {
    ErrorView::general(
        "Invalid string length: "@ + decimal(length),
        INVALID_STRING_OR_BUFFER_LENGTH@,
    )
}

/// The failure for a text without its null terminator.
pub open spec fn endless_text() -> ErrorView {
    ErrorView::general(
        "No null terminator within 1048576 code units"@,
        INVALID_STRING_OR_BUFFER_LENGTH@,
    )
}

/// The text an application passed as `units` and `length`.
pub open spec fn given_text(units: Option<Seq<u16>>, length: int) -> Result<Seq<char>, ErrorView> {
    match units {
        None => Err(null_text()),
        Some(u) => if length == SQL_NTS {
            match null_from(u, 0) {
                Some(n) => Ok(decode16(u.take(n))),
                None => Err(endless_text()),
            }
        } else if length < 0 {
            Err(bad_length(length))
        } else {
            Ok(decode16(u.take(length)))
        },
    }
}

/// The units of an argument that may be absent.
pub open spec fn units_view(units: Option<&[u16]>) -> Option<Seq<u16>> {
    match units {
        Some(u) => Some(u@),
        None => None,
    }
}

/// A decoded text by its view: the characters, or the failure.
pub open spec fn decoded(r: Result<String, OdbcError>) -> Result<Seq<char>, ErrorView> {
    match r {
        Ok(t) => Ok(t@),
        Err(e) => Err(e@),
    }
}

proof fn lemma_null_from(units: Seq<u16>, i: int)
    requires
        0 <= i,
    ensures
        null_from(units, i) matches Some(n) ==> i <= n < units.len(),
    decreases units.len() - i,
{
    if i < units.len() && i < MAX_NTS_SCAN && units[i] != 0 {
        lemma_null_from(units, i + 1);
    }
}

/// The index of the null terminator.
fn find_null(units: &[u16]) -> (r: Option<usize>)
    ensures
        match r {
            Some(n) => null_from(units@, 0) == Some(n as int) && n < units@.len(),
            None => null_from(units@, 0) is None,
        },
{
    let mut i: usize = 0;
    while i < units.len() && i < MAX_NTS_SCAN
        invariant
            i <= units@.len(),
            null_from(units@, 0) == null_from(units@, i as int),
        decreases units@.len() - i,
    {
        if units[i] == 0 {
            return Some(i);
        }
        i = i + 1;
    }
    None
}

/// The text an application passed: `length` units, or up to the null
/// terminator.
pub fn utf16_to_string(units: Option<&[u16]>, length: i32) -> (r: Result<String, OdbcError>)
    requires
        readable(units, length as int),
    ensures
        decoded(r) == given_text(units_view(units), length as int),
{
    match units {
        None => Err(
            OdbcError::general("String pointer is null", SqlState::invalid_use_of_null_pointer()),
        ),
        Some(u) => {
            if length == SQL_NTS {
                match find_null(u) {
                    Some(n) => {
                        assert(u@.subrange(0, n as int) == u@.take(n as int));
                        Ok(decode(vstd::slice::slice_subrange(u, 0, n)))
                    },
                    None => Err(
                        OdbcError::general(
                            "No null terminator within 1048576 code units",
                            SqlState::invalid_string_or_buffer_length(),
                        ),
                    ),
                }
            } else if length < 0 {
                let number = decimal_of(length as i64);
                Err(
                    OdbcError::general(
                        join2("Invalid string length: ", number.as_str()).as_str(),
                        SqlState::invalid_string_or_buffer_length(),
                    ),
                )
            } else {
                assert(length <= u.len());
                assert(u@.subrange(0, length as int) == u@.take(length as int));
                Ok(decode(vstd::slice::slice_subrange(u, 0, length as usize)))
            }
        },
    }
}

// ---------------------------------------------------------------------------
// Text out
// ---------------------------------------------------------------------------

/// `n`, or the largest `SQLSMALLINT` where it does not fit.
pub open spec fn small(n: int) -> int {
    if n > 32767 {
        32767
    } else {
        n
    }
}

/// How many code units fit in a buffer of `length` bytes.
pub open spec fn room(length: int) -> int {
    if length < 0 {
        0
    } else {
        small(length / 2)
    }
}

/// How many code units fit in a buffer of `length` bytes.
pub fn room_in(length: i32) -> (r: i16)
    ensures
        r == room(length as int),
{
    if length < 0 {
        0
    } else if length / 2 > 32767 {
        32767
    } else {
        (length / 2) as i16
    }
}

/// How many of `len` units a buffer of `capacity` holds beside its terminator.
pub open spec fn kept(len: int, capacity: int) -> int {
    if capacity <= 0 {
        0
    } else if len < capacity {
        len
    } else {
        capacity - 1
    }
}

/// What a buffer of `capacity` receives of `units`: as many as fit, and a null
/// terminator. A buffer without room receives nothing.
pub open spec fn laid_out(units: Seq<u16>, capacity: int) -> Option<Seq<u16>> {
    if capacity <= 0 {
        None
    } else {
        Some(units.take(kept(units.len() as int, capacity)).push(0))
    }
}

/// Units that may be absent.
pub open spec fn vec_view(units: Option<Vec<u16>>) -> Option<Seq<u16>> {
    match units {
        Some(u) => Some(u@),
        None => None,
    }
}

/// A text on its way to the application.
pub struct TextWrite {
    /// What goes to the start of the buffer, its null terminator at the end;
    /// nothing where there is no buffer or no room in it.
    pub units: Option<Vec<u16>>,
    /// The length of the whole text in code units.
    pub length: i16,
    /// `SUCCESS_WITH_INFO` where the buffer does not hold the whole text.
    pub code: SqlReturn,
}

impl TextWrite {
    /// This is how `text` reaches a buffer of `capacity` units, or no buffer.
    pub open spec fn delivers(self, text: Seq<char>, buffer: bool, capacity: int) -> bool {
        let all = encode16(text);
        &&& self.length == small(all.len() as int)
        &&& vec_view(self.units) == (if buffer {
            laid_out(all, capacity)
        } else {
            None
        })
        &&& self.code == (if buffer && kept(all.len() as int, capacity) < all.len() {
            SqlReturn::SUCCESS_WITH_INFO
        } else {
            SqlReturn::SUCCESS
        })
    }
}

/// Lays out `text` for a buffer of `capacity` units; without a buffer only its
/// length is reported.
pub fn write_utf16(text: &str, buffer: bool, capacity: i16) -> (r: TextWrite)
    ensures
        r.delivers(text@, buffer, capacity as int),
{
    let all = encode(text);
    let length: i16 = if all.len() > 32767 {
        32767
    } else {
        all.len() as i16
    };
    if !buffer {
        return TextWrite { units: None, length, code: SqlReturn::SUCCESS };
    }
    let fits: usize = if capacity <= 0 {
        0
    } else if all.len() < capacity as usize {
        all.len()
    } else {
        (capacity - 1) as usize
    };
    let code = if fits < all.len() {
        SqlReturn::SUCCESS_WITH_INFO
    } else {
        SqlReturn::SUCCESS
    };
    if capacity <= 0 {
        return TextWrite { units: None, length, code };
    }
    let mut units: Vec<u16> = Vec::new();
    for i in 0..fits
        invariant
            fits <= all@.len(),
            units@ == all@.take(i as int),
    {
        units.push(all[i]);
        assert(all@.take(i + 1) == all@.take(i as int).push(all@[i as int]));
    }
    units.push(0);
    TextWrite { units: Some(units), length, code }
}

/// The queue after a write that ended with `code`: a cut text leaves a record.
pub open spec fn truncation_noted(queue: Seq<RecordView>, code: SqlReturn) -> Seq<RecordView> {
    if code == SqlReturn::SUCCESS_WITH_INFO {
        queue.push(record_of(ErrorView::StringTruncated))
    } else {
        queue
    }
}

/// Posts the `01004` record that goes with a cut text.
pub fn note_truncation(code: SqlReturn, queue: &mut DiagnosticQueue) -> (r: SqlReturn)
    ensures
        r == code,
        final(queue)@ == truncation_noted(old(queue)@, code),
{
    if code == SqlReturn::SUCCESS_WITH_INFO {
        queue.push(&OdbcError::StringTruncated);
    }
    code
}

// ---------------------------------------------------------------------------
// Laws
// ---------------------------------------------------------------------------

proof fn lemma_decode_tail(front: Seq<u16>, back: Seq<u16>, i: int)
    requires
        0 <= i,
    ensures
        decode16_from(front + back, front.len() + i) == decode16_from(back, i),
    decreases back.len() - i,
{
    let all = front + back;
    if i < back.len() {
        assert(all[front.len() + i] == back[i]);
        lemma_decode_tail(front, back, i + 1);
        if i + 1 < back.len() {
            assert(all[front.len() + i + 1] == back[i + 1]);
            lemma_decode_tail(front, back, i + 2);
        }
    }
}

proof fn lemma_decode_first(c: char, back: Seq<u16>)
    ensures
        decode16(units_of(c) + back) == seq![c] + decode16_from(
            units_of(c) + back,
            units_of(c).len() as int,
        ),
{
    let all = units_of(c) + back;
    let u = c as u32;
    assert(u == c);
    if u < 0x10000 {
        assert(all[0] == u);
        assert(all[0] as char == c);
    } else {
        assert(all[0] == 0xd800 + (u - 0x10000) / 0x400);
        assert(all[1] == 0xdc00 + (u - 0x10000) % 0x400);
        assert(0x10000 + (all[0] - 0xd800) * 0x400 + (all[1] - 0xdc00) == u);
    }
}

proof fn lemma_encode_first(s: Seq<char>)
    requires
        s.len() > 0,
    ensures
        encode16(s) == units_of(s[0]) + encode16(s.drop_first()),
    decreases s.len(),
{
    if s.len() == 1 {
        assert(s.drop_last() == Seq::<char>::empty());
        assert(s.drop_first() == Seq::<char>::empty());
        assert(encode16(s.drop_last()) == Seq::<u16>::empty());
        assert(encode16(s.drop_first()) == Seq::<u16>::empty());
        assert(encode16(s) == units_of(s[0]) + Seq::<u16>::empty());
    } else {
        lemma_encode_first(s.drop_last());
        assert(s.drop_last().drop_first() == s.drop_first().drop_last());
        assert(encode16(s) == units_of(s[0]) + encode16(s.drop_last().drop_first()) + units_of(
            s.last(),
        ));
        assert(encode16(s.drop_first()) == encode16(s.drop_first().drop_last()) + units_of(
            s.last(),
        ));
        assert(encode16(s) == units_of(s[0]) + encode16(s.drop_first()));
    }
}

/// A text that is encoded and decoded comes back unchanged.
pub proof fn law_utf16_round_trip(s: Seq<char>)
    ensures
        decode16(encode16(s)) == s,
    decreases s.len(),
{
    if s.len() == 0 {
        assert(decode16(encode16(s)) == s);
    } else {
        let c = s[0];
        let rest = s.drop_first();
        lemma_encode_first(s);
        law_utf16_round_trip(rest);
        let front = units_of(c);
        let back = encode16(rest);
        lemma_decode_tail(front, back, 0);
        lemma_decode_first(c, back);
        assert(s == seq![c] + rest);
    }
}

/// What is written never exceeds the buffer, ends in a null unit, and is the
/// start of the text; the whole text is there unless truncation is reported.
pub proof fn law_write_stays_in_the_buffer(units: Seq<u16>, capacity: int)
    requires
        capacity > 0,
    ensures
        laid_out(units, capacity) matches Some(w) && {
            &&& 1 <= w.len() <= capacity
            &&& w.last() == 0
            &&& w.drop_last() == units.take(w.len() - 1)
            &&& kept(units.len() as int, capacity) == units.len() ==> w == units.push(0)
        },
{
    let w = laid_out(units, capacity)->0;
    assert(w.drop_last() == units.take(w.len() - 1));
    assert(units.take(units.len() as int) == units);
}

proof fn lemma_units_are_not_null(c: char)
    requires
        c != '\0',
    ensures
        forall|i: int| 0 <= i < units_of(c).len() ==> #[trigger] units_of(c)[i] != 0,
{
    let u = c as u32;
    assert(u == c);
}

/// A text without a null character has no null code unit.
pub proof fn lemma_no_null_inside(s: Seq<char>)
    requires
        !s.contains('\0'),
    ensures
        forall|i: int| 0 <= i < encode16(s).len() ==> #[trigger] encode16(s)[i] != 0,
    decreases s.len(),
{
    if s.len() > 0 {
        assert forall|c: char| s.drop_last().contains(c) implies s.contains(c) by {
            let i = choose|i: int| 0 <= i < s.drop_last().len() && s.drop_last()[i] == c;
            assert(s[i] == c);
        }
        lemma_no_null_inside(s.drop_last());
        let c = s.last();
        assert(s.contains(c));
        let front = encode16(s.drop_last());
        let back = units_of(c);
        lemma_units_are_not_null(c);
        assert forall|i: int| 0 <= i < encode16(s).len() implies #[trigger] encode16(s)[i] != 0 by {
            if i < front.len() {
                assert(encode16(s)[i] == front[i]);
            } else {
                assert(encode16(s)[i] == back[i - front.len()]);
            }
        }
    }
}

proof fn lemma_null_is_found(units: Seq<u16>, i: int, n: int)
    requires
        0 <= i <= n < units.len(),
        n < MAX_NTS_SCAN,
        units[n] == 0,
        forall|j: int| i <= j < n ==> units[j] != 0,
    ensures
        null_from(units, i) == Some(n),
    decreases n - i,
{
    if i < n {
        lemma_null_is_found(units, i + 1, n);
    }
}

/// A text that an application passes is the text received: by its length in code
/// units, whatever stands behind it, or up to its null terminator.
pub proof fn law_a_text_passed_is_the_text_received(t: Seq<char>, behind: Seq<u16>)
    ensures
        given_text(Some(encode16(t) + behind), encode16(t).len() as int) == Ok::<
            Seq<char>,
            ErrorView,
        >(t),
        !t.contains('\0') && encode16(t).len() < 1048576 ==> given_text(
            Some(encode16(t) + seq![0u16] + behind),
            -3,
        ) == Ok::<Seq<char>, ErrorView>(t),
{
    let units = encode16(t);
    let n = units.len() as int;
    law_utf16_round_trip(t);
    assert((units + behind).take(n) == units);
    if !t.contains('\0') && n < 1048576 {
        let all = units + seq![0u16] + behind;
        lemma_no_null_inside(t);
        assert forall|j: int| 0 <= j < n implies all[j] != 0 by {
            assert(all[j] == units[j]);
        }
        lemma_null_is_found(all, 0, n);
        assert(all.take(n) == units);
    }
}

/// A text that is not there, a length that is none, and a text that does not end
/// are refused, each with a state of its own kind.
pub proof fn law_what_is_no_text_is_refused(units: Seq<u16>, length: int)
    ensures
        given_text(None, length) matches Err(e) && e.sqlstate() == "HY009"@,
        length < 0 && length != -3 ==> (given_text(Some(units), length) matches Err(e)
            && e.sqlstate() == "HY090"@),
        (forall|i: int| 0 <= i < units.len() ==> units[i] != 0) ==> (given_text(Some(units), -3)
            matches Err(e) && e.sqlstate() == "HY090"@),
{
    if forall|i: int| 0 <= i < units.len() ==> units[i] != 0 {
        lemma_nowhere_null(units, 0);
    }
}

proof fn lemma_nowhere_null(units: Seq<u16>, i: int)
    requires
        0 <= i,
        forall|j: int| 0 <= j < units.len() ==> units[j] != 0,
    ensures
        null_from(units, i) is None,
    decreases units.len() - i,
{
    if i < units.len() {
        lemma_nowhere_null(units, i + 1);
    }
}

/// What reaches a buffer is the text and its terminator where they fit, and
/// otherwise as much of it as leaves room for the terminator; the length reported
/// is that of the whole text.
pub proof fn law_a_text_reaches_the_buffer(w: TextWrite, t: Seq<char>, capacity: int)
    requires
        0 < capacity <= 32767,
        w.delivers(t, true, capacity),
        encode16(t).len() <= 32767,
    ensures
        ({
            let all = encode16(t);
            &&& w.length == all.len()
            &&& w.units matches Some(u) && {
                &&& u@.last() == 0
                &&& u@.drop_last() == all.take(u@.len() - 1)
                &&& u@.len() == (if all.len() < capacity {
                    all.len() as int + 1
                } else {
                    capacity
                })
                &&& all.len() < capacity ==> decode16(u@.drop_last()) == t
            }
            &&& (w.code == SqlReturn::SUCCESS) == (all.len() < capacity)
            &&& w.code != SqlReturn::SUCCESS ==> w.code == SqlReturn::SUCCESS_WITH_INFO
        }),
{
    let all = encode16(t);
    let k = kept(all.len() as int, capacity);
    assert(all.take(k).push(0).drop_last() == all.take(k));
    assert(all.take(all.len() as int) == all);
    law_utf16_round_trip(t);
}

/// Without a buffer, or without room in it, nothing is written; the length is
/// reported all the same.
pub proof fn law_without_room_only_the_length_is_reported(
    w: TextWrite,
    t: Seq<char>,
    buffer: bool,
    capacity: int,
)
    requires
        !buffer || capacity <= 0,
        w.delivers(t, buffer, capacity),
        encode16(t).len() <= 32767,
    ensures
        w.units is None,
        w.length == encode16(t).len(),
        !buffer ==> w.code == SqlReturn::SUCCESS,
        buffer && t.len() > 0 ==> w.code == SqlReturn::SUCCESS_WITH_INFO,
{
    if t.len() > 0 {
        assert(encode16(t).len() > 0);
    }
}

/// A cut text leaves the one record `01004` behind what was there, and a whole one
/// none.
pub proof fn law_a_cut_text_leaves_a_record(queue: Seq<RecordView>)
    ensures
        truncation_noted(queue, SqlReturn::SUCCESS) == queue,
        ({
            let after = truncation_noted(queue, SqlReturn::SUCCESS_WITH_INFO);
            &&& after.len() == queue.len() + 1
            &&& after.drop_last() == queue
            &&& after.last().sqlstate == "01004"@
        }),
{
    let after = truncation_noted(queue, SqlReturn::SUCCESS_WITH_INFO);
    assert(after.drop_last() =~= queue);
}

proof fn lemma_decode_front(s: Seq<char>, back: Seq<u16>)
    ensures
        decode16(encode16(s) + back) == s + decode16(back),
    decreases s.len(),
{
    if s.len() == 0 {
        assert(encode16(s) + back =~= back);
        assert(s + decode16(back) =~= decode16(back));
    } else {
        let c = s[0];
        let rest = s.drop_first();
        lemma_encode_first(s);
        lemma_decode_front(rest, back);
        let front = units_of(c);
        let behind = encode16(rest) + back;
        assert(encode16(s) + back =~= front + behind);
        lemma_decode_tail(front, behind, 0);
        lemma_decode_first(c, behind);
        assert(s + decode16(back) =~= seq![c] + (rest + decode16(back)));
    }
}

proof fn lemma_first_unit(c: char)
    ensures
        units_of(c).len() > 0,
        !(0xdc00 <= units_of(c)[0] < 0xe000),
{
}

/// A surrogate that is no half of a pair is read as the replacement character, and the
/// texts before and behind it are read as they are.
pub proof fn law_a_lone_surrogate_is_replaced(front: Seq<char>, u: u16, behind: Seq<char>)
    requires
        0xd800 <= u <= 0xdfff,
    ensures
        decode16(encode16(front) + (seq![u] + encode16(behind))) == front + seq!['\u{fffd}']
            + behind,
{
    let back = seq![u] + encode16(behind);
    lemma_decode_front(front, back);
    law_utf16_round_trip(behind);
    lemma_decode_tail(seq![u], encode16(behind), 0);
    if behind.len() > 0 {
        lemma_encode_first(behind);
        lemma_first_unit(behind[0]);
        assert(back[1] == units_of(behind[0])[0]);
    }
    assert(decode16(back) =~= seq!['\u{fffd}'] + behind);
    assert(front + (seq!['\u{fffd}'] + behind) =~= front + seq!['\u{fffd}'] + behind);
}

} // verus!
