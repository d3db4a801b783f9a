//! Connecting: `SQLDriverConnectW`, `SQLBrowseConnectW`, `SQLConnectW`,
//! `SQLDisconnect`, and `SQLNativeSqlW`.

use vstd::prelude::*;

use crate::connect_attr::{
    Pending, apply_pending_connect_attrs, carry_connect_timeouts, next_pending, with_timeouts,
};
use crate::diagnostics::{RecordView, settle};
use crate::errors::{ErrorView, OdbcError};
use crate::escape::{
    Answers, DialectModel, EscapeDialect, RenameRule, RenderRule, RewriteRule, complete,
    has_no_escape, is_escape_failure, translate_escapes, translated, translated_at,
};
use crate::handles::{
    BackendCall, CallView, ConnectionHandle, ConnectionView, Session, SessionView, Step, StepView,
    answer,
};
use crate::params::{
    ConnectParams, Pairs, ParamsView, all_small, is_keyword, lookup, merged, pairs_of, parsed,
    rendered, without,
};
use crate::text::{
    decimal, decimal_of, join2, join3, lowercase, push_text, same_ignoring_case, string_of,
    to_uppercase, uppercase_of,
};
use crate::types::{SqlReturn, SqlState};
use crate::types::sql_state::{
    CONNECTION_IN_USE, GENERAL_ERROR, INVALID_STRING_OR_BUFFER_LENGTH, INVALID_USE_OF_NULL_POINTER,
};
use crate::utf16::{
    SQL_NTS, TextWrite, decode, decode16, encode, encode16, given_text, kept, readable, units_view,
    utf16_to_string, write_utf16,
};

verus! {

// ---------------------------------------------------------------------------
// Data source names
// ---------------------------------------------------------------------------

/// `pairs` is what the connection string `text` comes to: its own values, and
/// where it names a data source, the values `resolver` has for it beside them.
pub open spec fn resolves<F: Fn(&str) -> Vec<(String, String)>>(
    resolver: F,
    text: Seq<char>,
    pairs: Pairs,
) -> bool {
    match lookup(parsed(text), "dsn"@) {
        None => pairs == parsed(text),
        Some(name) => exists|dsn: &str, list: Vec<(String, String)>| #[trigger]
            call_ensures(resolver, (dsn,), list) && dsn@ == name && pairs == merged(
                parsed(text),
                pairs_of(list@),
            ),
    }
}

/// `resolver` can be asked for the data source that `text` names, if any.
pub open spec fn resolvable<F: Fn(&str) -> Vec<(String, String)>>(
    resolver: F,
    text: Seq<char>,
) -> bool {
    lookup(parsed(text), "dsn"@) matches Some(name) ==> forall|dsn: &str|
        dsn@ == name ==> #[trigger] call_requires(resolver, (dsn,))
}

/// The keywords a backend declares, as they are kept.
pub open spec fn declared(keywords: Seq<&str>) -> Seq<Seq<char>> {
    keywords.map_values(|k: &str| lowercase(k@))
}

/// Parses a connection string, and adds the values of the data source that its
/// `DSN` keyword names.
///
/// What the connection string says wins: it is the application's own, while the
/// data source's values come from a file. The two are merged value by value and
/// never as text, so that no value can pass for further keywords. Without a
/// `DSN` keyword the resolver is not consulted.
pub fn merge_dsn_params<F: Fn(&str) -> Vec<(String, String)>>(
    conn_str: &str,
    resolver: &F,
    sensitive: &[&str],
) -> (r: ConnectParams)
    requires
        resolvable(*resolver, conn_str@),
    ensures
        resolves(*resolver, conn_str@, r@.pairs),
        r@ == (ParamsView { sensitive: declared(sensitive@), ..ParamsView::of(r@.pairs) }),
{
    let mut params = ConnectParams::parse(conn_str);
    assert(lowercase("dsn"@) == "dsn"@) by {
        reveal_strlit("dsn");
    }
    let named: Option<String> = match params.get("dsn") {
        Some(dsn) => Some(dsn.to_owned()),
        None => None,
    };
    match named {
        Some(dsn) => {
            let list = resolver(dsn.as_str());
            let from_dsn = ConnectParams::from_pairs(&list);
            params.merge(&from_dsn);
        },
        None => {},
    }
    params.declare_sensitive_keywords(sensitive);
    assert(Seq::<Seq<char>>::empty() + declared(sensitive@) == declared(sensitive@));
    params
}

/// What a reading of the configuration file gives: the buffer it filled, and
/// the length it reported.
pub open spec fn reported(buffer: Seq<u16>, length: int) -> Seq<u16> {
    if length <= 0 {
        Seq::empty()
    } else if length < buffer.len() {
        buffer.take(length)
    } else {
        buffer
    }
}

/// The first null unit at or after `i`, or the end.
pub open spec fn null_or_end(units: Seq<u16>, i: int) -> int
    decreases units.len() - i,
{
    if i >= units.len() {
        units.len() as int
    } else if units[i] == 0 {
        i
    } else {
        null_or_end(units, i + 1)
    }
}

/// Where the search ends lies at or after its start.
pub proof fn lemma_null_or_end(units: Seq<u16>, i: int)
    requires
        i <= units.len(),
    ensures
        i <= null_or_end(units, i) <= units.len(),
    decreases units.len() - i,
{
    if i < units.len() && units[i] != 0 {
        lemma_null_or_end(units, i + 1);
    }
}

/// The names from `i` on in a list that null units separate.
pub open spec fn names_from(units: Seq<u16>, i: int) -> Seq<Seq<char>>
    decreases units.len() + 1 - i,
{
    if i < 0 || i >= units.len() {
        Seq::empty()
    } else {
        let e = null_or_end(units, i);
        proof {
            lemma_null_or_end(units, i);
        }
        let rest = names_from(units, e + 1);
        if i < e {
            seq![decode16(units.subrange(i, e))] + rest
        } else {
            rest
        }
    }
}

/// The pairs of a data source for its keywords `keys`: the value of each that
/// has one. `Driver` is the Driver Manager's own keyword and passed over.
pub open spec fn values_of(
    profile: spec_fn(Option<Seq<char>>) -> (Seq<u16>, int),
    keys: Seq<Seq<char>>,
) -> Pairs
    decreases keys.len(),
{
    if keys.len() == 0 {
        Seq::empty()
    } else {
        let rest = values_of(profile, keys.drop_last());
        let key = keys.last();
        let (buffer, length) = profile(Some(key));
        if is_driver(key) || length <= 0 {
            rest
        } else {
            rest.push((key, decode16(reported(buffer, length))))
        }
    }
}

/// The pairs of a data source, where `profile` gives the list of its keywords
/// for no keyword, and the value of a keyword for that keyword.
pub open spec fn profile_pairs(
    profile: spec_fn(Option<Seq<char>>) -> (Seq<u16>, int),
) -> Pairs {
    let (buffer, length) = profile(None);
    values_of(profile, names_from(reported(buffer, length), 0))
}

/// An argument that may be absent, by its characters.
pub open spec fn entry_view(entry: Option<&str>) -> Option<Seq<char>> {
    match entry {
        Some(e) => Some(e@),
        None => None,
    }
}

/// `f` gives what `g` gives.
pub open spec fn reads<F: Fn(Option<&str>) -> (Vec<u16>, i32)>(
    f: F,
    g: spec_fn(Option<Seq<char>>) -> (Seq<u16>, int),
) -> bool {
    forall|entry: Option<&str>, r: (Vec<u16>, i32)| #[trigger]
        call_ensures(f, (entry,), r) ==> (r.0@, r.1 as int) == g(entry_view(entry))
}

/// Whether a keyword is the Driver Manager's own.
pub open spec fn is_driver(key: Seq<char>) -> bool {
    lowercase(key) == lowercase("Driver"@)
}

/// The pairs of a data source, where `answers` holds what was read for each of
/// its keywords `keys`.
pub open spec fn values_read(keys: Seq<Seq<char>>, answers: Seq<(Vec<u16>, i32)>) -> Pairs
    decreases keys.len(),
{
    if keys.len() == 0 {
        Seq::empty()
    } else {
        let rest = values_read(keys.drop_last(), answers);
        let (buffer, length) = answers[keys.len() - 1];
        if is_driver(keys.last()) || length <= 0 {
            rest
        } else {
            rest.push((keys.last(), decode16(reported(buffer@, length as int))))
        }
    }
}

/// `profile` can give `answer` for the keyword `key`.
pub open spec fn can_give<F: Fn(Option<&str>) -> (Vec<u16>, i32)>(
    profile: F,
    key: Seq<char>,
    answer: (Vec<u16>, i32),
) -> bool {
    exists|entry: &str| #[trigger] call_ensures(profile, (Some(entry),), answer) && entry@ == key
}

/// `pairs` is what a data source comes to where `profile` gives `list` for the
/// list of its keywords and `answers` for them, one each; it is not asked for
/// `Driver`.
pub open spec fn reads_as<F: Fn(Option<&str>) -> (Vec<u16>, i32)>(
    profile: F,
    list: (Vec<u16>, i32),
    answers: Seq<(Vec<u16>, i32)>,
    pairs: Pairs,
) -> bool {
    let keys = names_from(reported(list.0@, list.1 as int), 0);
    &&& call_ensures(profile, (None,), list)
    &&& answers.len() == keys.len()
    &&& forall|i: int|
        0 <= i < keys.len() && !is_driver(#[trigger] keys[i]) ==> can_give(
            profile,
            keys[i],
            answers[i],
        )
    &&& pairs == values_read(keys, answers)
}

/// The pairs of a list of texts.
pub open spec fn list_view(list: Seq<(String, String)>) -> Pairs {
    list.map_values(|p: (String, String)| (p.0@, p.1@))
}

/// The units a reading of the configuration file gave. The length it reports
/// can be the length it would have needed, so it is not trusted past the
/// buffer.
fn clamp(buffer: &Vec<u16>, length: i32) -> (r: Vec<u16>)
    ensures
        r@ == reported(buffer@, length as int),
{
    let mut r: Vec<u16> = Vec::new();
    if length <= 0 {
        return r;
    }
    let n: usize = if (length as u32 as usize) < buffer.len() {
        length as u32 as usize
    } else {
        buffer.len()
    };
    for i in 0..n
        invariant
            n <= buffer@.len(),
            r@ == buffer@.take(i as int),
    {
        r.push(buffer[i]);
        assert(buffer@.take(i + 1) == buffer@.take(i as int).push(buffer@[i as int]));
    }
    assert(buffer@.take(buffer@.len() as int) == buffer@);
    r
}

/// The names in a list that null units separate.
fn split_names(units: &[u16]) -> (r: Vec<String>)
    ensures
        r@.map_values(|n: String| n@) == names_from(units@, 0),
{
    let mut r: Vec<String> = Vec::new();
    let mut start: usize = 0;
    assert(r@.map_values(|n: String| n@) + names_from(units@, 0) == names_from(units@, 0));
    while start < units.len()
        invariant
            start <= units@.len(),
            r@.map_values(|n: String| n@) + names_from(units@, start as int) == names_from(
                units@,
                0,
            ),
        decreases units@.len() - start,
    {
        let mut e: usize = start;
        while e < units.len() && units[e] != 0
            invariant
                start <= e <= units@.len(),
                null_or_end(units@, start as int) == null_or_end(units@, e as int),
            decreases units@.len() - e,
        {
            e = e + 1;
        }
        let ghost before = r@.map_values(|n: String| n@);
        let ghost rest = names_from(units@, e + 1);
        proof {
            reveal_with_fuel(names_from, 2);
        }
        if start < e {
            let name = decode(vstd::slice::slice_subrange(units, start, e));
            let ghost text = name@;
            r.push(name);
            assert(r@.map_values(|n: String| n@) == before.push(text));
            assert(before.push(text) + rest == before + (seq![text] + rest));
        }
        start = if e < units.len() {
            e + 1
        } else {
            e
        };
    }
    assert(r@.map_values(|n: String| n@) + Seq::<Seq<char>>::empty() == r@.map_values(
        |n: String| n@,
    ));
    r
}

/// Only the answers for the keywords count.
proof fn lemma_values_read(
    keys: Seq<Seq<char>>,
    a: Seq<(Vec<u16>, i32)>,
    b: Seq<(Vec<u16>, i32)>,
)
    requires
        forall|i: int| 0 <= i < keys.len() ==> #[trigger] a[i] == b[i],
    ensures
        values_read(keys, a) == values_read(keys, b),
    decreases keys.len(),
{
    if keys.len() > 0 {
        lemma_values_read(keys.drop_last(), a, b);
        assert(a[keys.len() - 1] == b[keys.len() - 1]);
    }
}

/// The values of the data source that `profile` reads: first the list of its
/// keywords, then the value of each.
pub fn read_dsn_keys<F: Fn(Option<&str>) -> (Vec<u16>, i32)>(profile: &F) -> (r: Vec<
    (String, String),
>)
    requires
        forall|entry: Option<&str>| call_requires(*profile, (entry,)),
    ensures
        forall|g: spec_fn(Option<Seq<char>>) -> (Seq<u16>, int)| #[trigger]
            reads(*profile, g) ==> list_view(r@) == profile_pairs(g),
        exists|list: (Vec<u16>, i32), answers: Seq<(Vec<u16>, i32)>| #[trigger]
            reads_as(*profile, list, answers, list_view(r@)),
{
    let (key_buffer, key_length) = profile(None);
    let ghost list = (key_buffer, key_length);
    let ghost mut answers: Seq<(Vec<u16>, i32)> = Seq::empty();
    let key_units = clamp(&key_buffer, key_length);
    let keys = split_names(key_units.as_slice());
    let ghost names = keys@.map_values(|n: String| n@);
    let mut r: Vec<(String, String)> = Vec::new();
    for i in 0..keys.len()
        invariant
            forall|entry: Option<&str>| call_requires(*profile, (entry,)),
            names == keys@.map_values(|n: String| n@),
            forall|g: spec_fn(Option<Seq<char>>) -> (Seq<u16>, int)| #[trigger]
                reads(*profile, g) ==> list_view(r@) == values_of(g, names.take(i as int)),
            answers.len() == i,
            forall|j: int|
                0 <= j < i && !is_driver(#[trigger] names[j]) ==> can_give(
                    *profile,
                    names[j],
                    answers[j],
                ),
            list_view(r@) == values_read(names.take(i as int), answers),
    {
        let key = &keys[i];
        let ghost before = list_view(r@);
        let ghost earlier = answers;
        let ghost mut one = list;
        proof {
            assert(names.take(i + 1).drop_last() == names.take(i as int));
            assert(names.take(i + 1).last() == key@);
        }
        if !same_ignoring_case(key.as_str(), "Driver") {
            let (buffer, length) = profile(Some(key.as_str()));
            proof {
                one = (buffer, length);
                assert(can_give(*profile, key@, one));
            }
            if length > 0 {
                let units = clamp(&buffer, length);
                let value = decode(units.as_slice());
                let ghost pair = (key@, value@);
                r.push((key.clone(), value));
                assert(list_view(r@) == before.push(pair));
            }
        }
        proof {
            answers = earlier.push(one);
            lemma_values_read(names.take(i as int), earlier, answers);
        }
    }
    assert(names.take(names.len() as int) == names);
    assert(reads_as(*profile, list, answers, list_view(r@)));
    r
}

// ---------------------------------------------------------------------------
// Opening a connection
// ---------------------------------------------------------------------------

/// The failure for a handle that is connected already.
pub open spec fn in_use() -> ErrorView {
    ErrorView::general(
        "Connection handle already has an active connection"@,
        CONNECTION_IN_USE@,
    )
}

/// The failure for a length argument that is no length; `what` says which.
pub open spec fn not_a_length(what: Seq<char>, length: int) -> ErrorView {
    ErrorView::general(what + decimal(length), INVALID_STRING_OR_BUFFER_LENGTH@)
}

/// Whether a length argument is neither a count nor `SQL_NTS`.
pub open spec fn is_bad_length(length: int) -> bool {
    length < 0 && length != SQL_NTS
}

/// The connection string of a call, or why the call is refused.
pub open spec fn connection_text(
    c: ConnectionView,
    text: Option<Seq<u16>>,
    length: int,
    buffer_length: int,
) -> Result<Seq<char>, ErrorView> {
    if c.session is Some {
        Err(in_use())
    } else if text is None {
        Err(
            ErrorView::general(
                "InConnectionString must not be null"@,
                INVALID_USE_OF_NULL_POINTER@,
            ),
        )
    } else if is_bad_length(length) {
        Err(not_a_length("Invalid string_length1: "@, length))
    } else if buffer_length < 0 {
        Err(not_a_length("Invalid buffer_length: "@, buffer_length))
    } else {
        given_text(text, length)
    }
}

/// How far opening a connection has come.
pub enum ConnectStep {
    /// The call is over; the text goes to the output buffer.
    Done {
        code: SqlReturn,
        text: Option<TextWrite>,
    },
    /// The backend is asked to connect; its answer goes to
    /// [`connect_answered`], or in browsing to [`browse_connect_answered`]. The
    /// text goes to the output buffer on success,
    /// and that it is cut there is not reported.
    Connect {
        params: ConnectParams,
        output: TextWrite,
    },
}

impl ConnectStep {
    /// The call was refused with `e`.
    pub open spec fn refused(self, e: ErrorView) -> bool {
        self matches ConnectStep::Done { code, text } && code == e.sql_return() && text is None
    }
}

fn length_error(what: &str, length: i64) -> (r: OdbcError)
    ensures
        r@ == not_a_length(what@, length as int),
{
    let number = decimal_of(length);
    OdbcError::general(
        join2(what, number.as_str()).as_str(),
        SqlState::invalid_string_or_buffer_length(),
    )
}

/// The connection string of a call, or why the call is refused.
fn read_connection_text(
    conn: &ConnectionHandle,
    text: Option<&[u16]>,
    length: i16,
    buffer_length: i16,
) -> (r: Result<String, OdbcError>)
    requires
        readable(text, length as int),
    ensures
        crate::utf16::decoded(r) == connection_text(
            conn@,
            units_view(text),
            length as int,
            buffer_length as int,
        ),
{
    if conn.connection.is_some() {
        return Err(
            OdbcError::general(
                "Connection handle already has an active connection",
                SqlState::connection_in_use(),
            ),
        );
    }
    if text.is_none() {
        return Err(
            OdbcError::general(
                "InConnectionString must not be null",
                SqlState::invalid_use_of_null_pointer(),
            ),
        );
    }
    if length < 0 && length as i32 != SQL_NTS {
        return Err(length_error("Invalid string_length1: ", length as i64));
    }
    if buffer_length < 0 {
        return Err(length_error("Invalid buffer_length: ", buffer_length as i64));
    }
    utf16_to_string(text, length as i32)
}

/// `SQLDriverConnectW`: the connection string in `text` is parsed, completed
/// from its data source, and handed to the backend.
///
/// `resolver` gives the values of a data source; `sensitive` are the keywords
/// the backend declares as credentials. On success the connection string goes
/// to the output buffer, where there is one.
pub fn sql_driver_connect_w<F: Fn(&str) -> Vec<(String, String)>>(
    conn: Option<&mut ConnectionHandle>,
    text: Option<&[u16]>,
    string_length1: i16,
    wanted: bool,
    buffer_length: i16,
    resolver: &F,
    sensitive: &[&str],
) -> (r: ConnectStep)
    requires
        readable(text, string_length1 as int),
        forall|dsn: &str| call_requires(*resolver, (dsn,)),
    ensures
        match conn {
            None => r.refused(ErrorView::InvalidHandle),
            Some(c) => match connection_text(
                c@,
                units_view(text),
                string_length1 as int,
                buffer_length as int,
            ) {
                Err(e) => r.refused(e) && final(c)@ == c@.cleared().posted(e),
                Ok(given) => driver_connected(
                    *resolver,
                    c@,
                    given,
                    sensitive@,
                    wanted,
                    buffer_length as int,
                    final(c)@,
                    r,
                ),
            },
        },
{
    match conn {
        None => ConnectStep::Done { code: SqlReturn::INVALID_HANDLE, text: None },
        Some(c) => {
            c.diagnostics.clear();
            match read_connection_text(c, text, string_length1, buffer_length) {
                Err(e) => {
                    let code = settle(&mut c.diagnostics, Err(e));
                    ConnectStep::Done { code, text: None }
                },
                Ok(given) => {
                    let mut params = merge_dsn_params(given.as_str(), resolver, sensitive);
                    carry_connect_timeouts(c, &mut params);
                    let output = write_utf16(given.as_str(), wanted, buffer_length);
                    ConnectStep::Connect { params, output }
                },
            }
        },
    }
}

/// Why a call of `SQLConnectW` is refused, if so. A length that is none is refused
/// whether there is a text to it or not.
pub open spec fn connect_refusal(
    c: ConnectionView,
    server: Option<Seq<u16>>,
    length1: int,
    length2: int,
    length3: int,
) -> Option<ErrorView> {
    if c.session is Some {
        Some(in_use())
    } else if is_bad_length(length1) {
        Some(not_a_length("Invalid NameLength1(ServerName): "@, length1))
    } else if is_bad_length(length2) {
        Some(not_a_length("Invalid NameLength2(UserName): "@, length2))
    } else if is_bad_length(length3) {
        Some(not_a_length("Invalid NameLength3(Authentication): "@, length3))
    } else {
        match given_text(server, length1) {
            Err(e) => Some(e),
            Ok(_) => None,
        }
    }
}

/// `pairs` with `key` set to the text an application passed, where it passed
/// one that is not empty.
pub open spec fn overridden(
    pairs: Pairs,
    key: Seq<char>,
    text: Option<Seq<u16>>,
    length: int,
) -> Pairs {
    match given_text(text, length) {
        Ok(value) if value.len() > 0 => without(pairs, key).push((key, value)),
        _ => pairs,
    }
}

/// The parameters of a data source with the user name and the password that were
/// passed in place of its own.
pub open spec fn signed_in(
    pairs: Pairs,
    user: Option<Seq<u16>>,
    user_length: int,
    password: Option<Seq<u16>>,
    password_length: int,
) -> Pairs {
    overridden(
        overridden(pairs, "user"@, user, user_length),
        "password"@,
        password,
        password_length,
    )
}

/// What a connection string comes to: the backend is asked to connect with what it
/// resolves to, and the text itself is the completed one.
pub open spec fn driver_connected<F: Fn(&str) -> Vec<(String, String)>>(
    resolver: F,
    c: ConnectionView,
    given: Seq<char>,
    sensitive: Seq<&str>,
    wanted: bool,
    buffer_length: int,
    after: ConnectionView,
    r: ConnectStep,
) -> bool {
    &&& after == c.cleared()
    &&& r matches ConnectStep::Connect { params, output }
    &&& resolves(resolver, given, params@.pairs)
    &&& params@ == with_timeouts(
        c,
        ParamsView { sensitive: declared(sensitive), ..ParamsView::of(params@.pairs) },
    )
    &&& output.delivers(given, wanted, buffer_length)
}

/// Sets `key` to the text an application passed, where it passed one.
fn override_with(params: &mut ConnectParams, key: &str, text: Option<&[u16]>, length: i16)
    requires
        readable(text, length as int),
        lowercase(key@) == key@,
    ensures
        final(params)@ == (ParamsView {
            pairs: overridden(old(params)@.pairs, key@, units_view(text), length as int),
            ..old(params)@
        }),
{
    if let Ok(value) = utf16_to_string(text, length as i32) {
        if !value.as_str().is_empty() {
            params.insert(key, value.as_str());
        }
    }
}

/// `SQLConnectW`: connects to the data source that `server_name` names. The
/// user name and the authentication, where given, win over its own.
pub fn sql_connect_w<F: Fn(&str) -> Vec<(String, String)>>(
    conn: Option<&mut ConnectionHandle>,
    server_name: Option<&[u16]>,
    name_length1: i16,
    user_name: Option<&[u16]>,
    name_length2: i16,
    authentication: Option<&[u16]>,
    name_length3: i16,
    resolver: &F,
    sensitive: &[&str],
) -> (r: ConnectStep)
    requires
        readable(server_name, name_length1 as int),
        readable(user_name, name_length2 as int),
        readable(authentication, name_length3 as int),
        forall|dsn: &str| call_requires(*resolver, (dsn,)),
    ensures
        match conn {
            None => r.refused(ErrorView::InvalidHandle),
            Some(c) => match connect_refusal(
                c@,
                units_view(server_name),
                name_length1 as int,
                name_length2 as int,
                name_length3 as int,
            ) {
                Some(e) => r.refused(e) && final(c)@ == c@.cleared().posted(e),
                None => {
                    &&& final(c)@ == c@.cleared()
                    &&& r matches ConnectStep::Connect { params, output }
                    &&& output.delivers(Seq::empty(), false, 0)
                    &&& exists|dsn: &str, list: Vec<(String, String)>| #[trigger]
                        call_ensures(*resolver, (dsn,), list) && given_text(
                            units_view(server_name),
                            name_length1 as int,
                        ) == Ok::<Seq<char>, ErrorView>(dsn@) && params@ == with_timeouts(
                            c@,
                            ParamsView {
                                sensitive: declared(sensitive@),
                                ..ParamsView::of(
                                    signed_in(
                                        pairs_of(list@),
                                        units_view(user_name),
                                        name_length2 as int,
                                        units_view(authentication),
                                        name_length3 as int,
                                    ),
                                )
                            },
                        )
                },
            },
        },
{
    let c = match conn {
        None => {
            return ConnectStep::Done { code: SqlReturn::INVALID_HANDLE, text: None };
        },
        Some(c) => c,
    };
    c.diagnostics.clear();
    let checked: Result<String, OdbcError> = if c.connection.is_some() {
        Err(
            OdbcError::general(
                "Connection handle already has an active connection",
                SqlState::connection_in_use(),
            ),
        )
    } else if name_length1 < 0 && name_length1 as i32 != SQL_NTS {
        Err(length_error("Invalid NameLength1(ServerName): ", name_length1 as i64))
    } else if name_length2 < 0 && name_length2 as i32 != SQL_NTS {
        Err(length_error("Invalid NameLength2(UserName): ", name_length2 as i64))
    } else if name_length3 < 0 && name_length3 as i32 != SQL_NTS {
        Err(length_error("Invalid NameLength3(Authentication): ", name_length3 as i64))
    } else {
        utf16_to_string(server_name, name_length1 as i32)
    };
    match checked {
        Err(e) => {
            let code = settle(&mut c.diagnostics, Err(e));
            ConnectStep::Done { code, text: None }
        },
        Ok(dsn) => {
            let list = resolver(dsn.as_str());
            let mut params = ConnectParams::from_pairs(&list);
            params.declare_sensitive_keywords(sensitive);
            assert(Seq::<Seq<char>>::empty() + declared(sensitive@) == declared(sensitive@));
            proof {
                assert(lowercase("user"@) == "user"@) by {
                    reveal_strlit("user");
                }
                assert(lowercase("password"@) == "password"@) by {
                    reveal_strlit("password");
                }
            }
            override_with(&mut params, "user", user_name, name_length2);
            override_with(&mut params, "password", authentication, name_length3);
            carry_connect_timeouts(c, &mut params);
            let output = write_utf16("", false, 0);
            assert(""@ == Seq::<char>::empty()) by {
                reveal_strlit("");
            }
            ConnectStep::Connect { params, output }
        },
    }
}

// ---------------------------------------------------------------------------
// Browsing
// ---------------------------------------------------------------------------

/// The required attributes that `pairs` has no value for.
pub open spec fn missing_in(pairs: Pairs, required: Seq<&str>) -> Seq<Seq<char>>
    decreases required.len(),
{
    if required.len() == 0 {
        Seq::empty()
    } else {
        let rest = missing_in(pairs, required.drop_last());
        if lookup(pairs, lowercase(required.last()@)) is Some {
            rest
        } else {
            rest.push(required.last()@)
        }
    }
}

/// How the application is asked for one attribute: by its name, its name in
/// capitals and a question mark.
pub open spec fn browse_entry(name: Seq<char>, upper: Seq<char>) -> Seq<char> {
    name + ":"@ + upper + "=?"@
}

/// How the application is asked for the attributes it still owes, with
/// semicolons between them.
pub open spec fn browse_text(missing: Seq<Seq<char>>) -> Seq<char>
    decreases missing.len(),
{
    if missing.len() == 0 {
        Seq::empty()
    } else {
        let one = browse_entry(missing.last(), uppercase_of(missing.last()));
        if missing.len() == 1 {
            one
        } else {
            browse_text(missing.drop_last()) + ";"@ + one
        }
    }
}

/// The pairs gathered by earlier calls.
pub open spec fn gathered(c: ConnectionView) -> Pairs {
    match c.browse {
        Some(prior) => prior.pairs,
        None => Seq::empty(),
    }
}

/// The parameters after a round of browsing whose call came to `fresh`.
pub open spec fn browsed(c: ConnectionView, fresh: Pairs, sensitive: Seq<&str>) -> ParamsView {
    ParamsView {
        sensitive: declared(sensitive),
        ..ParamsView::of(merged(fresh, gathered(c)))
    }
}

/// What a round of browsing comes to on a handle with no diagnostics, for the
/// parameters `all` of this call and those before it. The handle keeps them: a
/// connect may still fail.
pub open spec fn browse_step(
    c: ConnectionView,
    all: ParamsView,
    required: Seq<&str>,
    wanted: bool,
    buffer_length: int,
    after: ConnectionView,
    r: ConnectStep,
) -> bool {
    let missing = missing_in(all.pairs, required);
    &&& after =~= ConnectionView { browse: Some(all), ..c }
    &&& if missing.len() > 0 {
        &&& r matches ConnectStep::Done { code, text: Some(output) }
        &&& code == SqlReturn::NEED_DATA
        &&& output.delivers(browse_text(missing), wanted, buffer_length)
    } else {
        &&& r matches ConnectStep::Connect { params, output }
        &&& params@ == with_timeouts(c, all)
        &&& output.delivers(rendered(all.pairs), wanted, buffer_length)
    }
}

/// What a round of browsing comes to on a handle with no diagnostics, for the
/// connection string `given` and what its data source, if any, has beside it.
pub open spec fn browse_outcome<F: Fn(&str) -> Vec<(String, String)>>(
    resolver: F,
    c: ConnectionView,
    given: Seq<char>,
    sensitive: Seq<&str>,
    required: Seq<&str>,
    wanted: bool,
    buffer_length: int,
    after: ConnectionView,
    r: ConnectStep,
) -> bool {
    exists|fresh: Pairs|
        {
            &&& #[trigger] resolves(resolver, given, fresh)
            &&& browse_step(
                c,
                browsed(c, fresh, sensitive),
                required,
                wanted,
                buffer_length,
                after,
                r,
            )
        }
}

/// The attributes the application still owes.
fn find_missing<'a>(params: &ConnectParams, required: &[&'a str]) -> (r: Vec<&'a str>)
    ensures
        r@.map_values(|a: &str| a@) == missing_in(params@.pairs, required@),
{
    let mut r: Vec<&'a str> = Vec::new();
    assert(r@.map_values(|a: &str| a@) == Seq::<Seq<char>>::empty());
    for i in 0..required.len()
        invariant
            r@.map_values(|a: &str| a@) == missing_in(params@.pairs, required@.take(i as int)),
    {
        let ghost before = r@.map_values(|a: &str| a@);
        proof {
            assert(required@.take(i + 1).drop_last() == required@.take(i as int));
            assert(required@.take(i + 1).last() == required@[i as int]);
        }
        if params.get(required[i]).is_none() {
            r.push(required[i]);
            assert(r@.map_values(|a: &str| a@) == before.push(required@[i as int]@));
        }
    }
    assert(required@.take(required@.len() as int) == required@);
    r
}

/// How the application is asked for one attribute, given its name in capitals.
pub fn ask_for_one(name: &str, upper: &str) -> (r: String)
    ensures
        r@ == browse_entry(name@, upper@),
{
    let entry = join3(name, ":", upper);
    join2(entry.as_str(), "=?")
}

/// How the application is asked for the attributes it still owes.
fn ask_for(missing: &Vec<&str>) -> (r: String)
    ensures
        r@ == browse_text(missing@.map_values(|a: &str| a@)),
{
    let mut out: Vec<char> = Vec::new();
    let ghost names = missing@.map_values(|a: &str| a@);
    for i in 0..missing.len()
        invariant
            names == missing@.map_values(|a: &str| a@),
            out@ == browse_text(names.take(i as int)),
    {
        let ghost before = out@;
        proof {
            assert(names.take(i + 1).drop_last() == names.take(i as int));
            assert(names.take(i + 1).last() == missing@[i as int]@);
        }
        if i > 0 {
            push_text(&mut out, ";");
        }
        let upper = to_uppercase(missing[i]);
        let one = ask_for_one(missing[i], upper.as_str());
        push_text(&mut out, one.as_str());
        proof {
            if i > 0 {
                assert(out@ == before + ";"@ + one@);
            } else {
                assert(out@ == one@);
            }
        }
    }
    assert(names.take(names.len() as int) == names);
    string_of(out.as_slice())
}

/// One round of browsing with the connection string `given`.
fn browse<F: Fn(&str) -> Vec<(String, String)>>(
    c: &mut ConnectionHandle,
    given: &str,
    wanted: bool,
    buffer_length: i16,
    required: &[&str],
    resolver: &F,
    sensitive: &[&str],
) -> (r: ConnectStep)
    requires
        old(c)@.queue == Seq::<RecordView>::empty(),
        forall|dsn: &str| call_requires(*resolver, (dsn,)),
    ensures
        browse_outcome(
            *resolver,
            old(c)@,
            given@,
            sensitive@,
            required@,
            wanted,
            buffer_length as int,
            final(c)@,
            r,
        ),
{
    let mut all = merge_dsn_params(given, resolver, sensitive);
    let ghost fresh = all@.pairs;
    match &c.browse_request {
        Some(p) => {
            all.merge(p);
        },
        None => {},
    }
    let ghost view = browsed(old(c)@, fresh, sensitive@);
    assert(all@ == view);
    let missing = find_missing(&all, required);
    assert(missing_in(view.pairs, required@).len() == missing@.len());
    if missing.len() > 0 {
        let asked = ask_for(&missing);
        let output = write_utf16(asked.as_str(), wanted, buffer_length);
        c.browse_request = Some(all);
        assert(resolves(*resolver, given@, fresh));
        return ConnectStep::Done { code: SqlReturn::NEED_DATA, text: Some(output) };
    }
    let complete = all.to_connection_string();
    c.browse_request = Some(all.copy());
    carry_connect_timeouts(c, &mut all);
    let output = write_utf16(complete.as_str(), wanted, buffer_length);
    assert(resolves(*resolver, given@, fresh));
    ConnectStep::Connect { params: all, output }
}

/// `SQLBrowseConnectW`: gathers connection attributes over several calls. While
/// one of `required` is missing the application is asked for it; once all are
/// there the backend is asked to connect, and its answer goes to
/// [`browse_connect_answered`]. What a later call says wins over what an earlier
/// one said, and all of it is kept until a connect succeeds.
pub fn sql_browse_connect_w<F: Fn(&str) -> Vec<(String, String)>>(
    conn: Option<&mut ConnectionHandle>,
    text: Option<&[u16]>,
    string_length1: i16,
    wanted: bool,
    buffer_length: i16,
    required: &[&str],
    resolver: &F,
    sensitive: &[&str],
) -> (r: ConnectStep)
    requires
        readable(text, string_length1 as int),
        forall|dsn: &str| call_requires(*resolver, (dsn,)),
    ensures
        match conn {
            None => r.refused(ErrorView::InvalidHandle),
            Some(c) => match connection_text(
                c@,
                units_view(text),
                string_length1 as int,
                buffer_length as int,
            ) {
                Err(e) => r.refused(e) && final(c)@ == c@.cleared().posted(e),
                Ok(given) => browse_outcome(
                    *resolver,
                    c@.cleared(),
                    given,
                    sensitive@,
                    required@,
                    wanted,
                    buffer_length as int,
                    final(c)@,
                    r,
                ),
            },
        },
{
    match conn {
        None => ConnectStep::Done { code: SqlReturn::INVALID_HANDLE, text: None },
        Some(c) => {
            let ghost before = c@;
            c.diagnostics.clear();
            assert(c@ == before.cleared());
            match read_connection_text(c, text, string_length1, buffer_length) {
                Err(e) => {
                    let code = settle(&mut c.diagnostics, Err(e));
                    ConnectStep::Done { code, text: None }
                },
                Ok(given) => {
                    assert(connection_text(
                        before,
                        units_view(text),
                        string_length1 as int,
                        buffer_length as int,
                    ) == Ok::<Seq<char>, ErrorView>(given@));
                    browse(
                        c,
                        given.as_str(),
                        wanted,
                        buffer_length,
                        required,
                        resolver,
                        sensitive,
                    )
                },
            }
        },
    }
}

// ---------------------------------------------------------------------------
// The backend's answers
// ---------------------------------------------------------------------------

/// How far a connection that the backend opened has come.
pub enum OpenStep {
    /// The call is over.
    Done(SqlReturn),
    /// The backend is asked to take an attribute set before the connection was
    /// open; its answer goes to [`pending_answered`], or in browsing to
    /// [`browse_pending_answered`], with what is owed then.
    Ask(BackendCall, Pending),
    /// The backend's connection is to be closed, whatever it says to that, and
    /// the call is over: the application sees a failure and will not close it.
    Abandon(SqlReturn),
}

/// What the contracts say of a step.
#[verifier::ext_equal]
pub enum OpenView {
    Done(SqlReturn),
    Ask(CallView, Pending),
    Abandon(SqlReturn),
}

impl View for OpenStep {
    type V = OpenView;

    open spec fn view(&self) -> OpenView {
        match self {
            OpenStep::Done(code) => OpenView::Done(*code),
            OpenStep::Ask(call, rest) => OpenView::Ask(call@, *rest),
            OpenStep::Abandon(code) => OpenView::Abandon(*code),
        }
    }
}

/// The handle given up again, for the reason `e`.
pub open spec fn abandoned(c: ConnectionView, e: ErrorView) -> (ConnectionView, OpenView) {
    (ConnectionView { session: None, ..c.posted(e) }, OpenView::Abandon(e.sql_return()))
}

/// What follows once the attributes before `from` have been taken.
pub open spec fn advanced(c: ConnectionView, from: Pending) -> (ConnectionView, OpenView) {
    match next_pending(c, from) {
        Err(e) => abandoned(c, e),
        Ok(Some((call, rest))) => (c, OpenView::Ask(call, rest)),
        Ok(None) => (c, OpenView::Done(SqlReturn::SUCCESS)),
    }
}

/// What follows the backend's answer to a request to connect.
pub open spec fn opened(c: ConnectionView, outcome: Result<SessionView, ErrorView>) -> (
    ConnectionView,
    OpenView,
) {
    match outcome {
        Err(e) => (c.posted(e), OpenView::Done(e.sql_return())),
        Ok(session) => advanced(
            ConnectionView { session: Some(session), ..c },
            Pending::Autocommit,
        ),
    }
}

/// What follows the backend's answer to an attribute set before.
pub open spec fn continued(
    c: ConnectionView,
    rest: Pending,
    outcome: Result<(), ErrorView>,
) -> (ConnectionView, OpenView) {
    match outcome {
        Err(e) => abandoned(c, e),
        Ok(_) => advanced(c, rest),
    }
}

/// The answer to a request to connect, by its view.
pub open spec fn session_answer(r: Result<Session, OdbcError>) -> Result<SessionView, ErrorView> {
    match r {
        Ok(s) => Ok(s@),
        Err(e) => Err(e@),
    }
}

fn abandon(conn: &mut ConnectionHandle, e: OdbcError) -> (r: OpenStep)
    ensures
        (final(conn)@, r@) == abandoned(old(conn)@, e@),
{
    conn.connection = None;
    OpenStep::Abandon(settle(&mut conn.diagnostics, Err(e)))
}

fn advance(conn: &mut ConnectionHandle, from: Pending) -> (r: OpenStep)
    ensures
        (final(conn)@, r@) == advanced(old(conn)@, from),
{
    match apply_pending_connect_attrs(conn, from) {
        Err(e) => abandon(conn, e),
        Ok(Some((call, rest))) => OpenStep::Ask(call, rest),
        Ok(None) => OpenStep::Done(SqlReturn::SUCCESS),
    }
}

/// Takes the backend's answer to a request to connect.
pub fn connect_answered(conn: &mut ConnectionHandle, outcome: Result<Session, OdbcError>) -> (r:
    OpenStep)
    ensures
        (final(conn)@, r@) == opened(old(conn)@, session_answer(outcome)),
{
    match outcome {
        Err(e) => OpenStep::Done(settle(&mut conn.diagnostics, Err(e))),
        Ok(session) => {
            conn.connection = Some(session);
            advance(conn, Pending::Autocommit)
        },
    }
}

/// Takes the backend's answer to an attribute that was set before the
/// connection was open.
pub fn pending_answered(
    conn: &mut ConnectionHandle,
    rest: Pending,
    outcome: Result<(), OdbcError>,
) -> (r: OpenStep)
    ensures
        (final(conn)@, r@) == continued(old(conn)@, rest, answer(outcome)),
{
    match outcome {
        Err(e) => abandon(conn, e),
        Ok(_) => advance(conn, rest),
    }
}

/// What follows in browsing: once the connection is made, what was gathered for
/// it is dropped.
pub open spec fn browse_ended(step: (ConnectionView, OpenView)) -> (ConnectionView, OpenView) {
    let (c, next) = step;
    if next == OpenView::Done(SqlReturn::SUCCESS) {
        (ConnectionView { browse: None, ..c }, next)
    } else {
        (c, next)
    }
}

fn end_browsing(conn: &mut ConnectionHandle, next: OpenStep) -> (r: OpenStep)
    ensures
        (final(conn)@, r@) == browse_ended((old(conn)@, next@)),
{
    if let OpenStep::Done(code) = &next {
        if *code == SqlReturn::SUCCESS {
            conn.browse_request = None;
        }
    }
    next
}

/// Takes the backend's answer to a request to connect that browsing came to.
pub fn browse_connect_answered(
    conn: &mut ConnectionHandle,
    outcome: Result<Session, OdbcError>,
) -> (r: OpenStep)
    ensures
        (final(conn)@, r@) == browse_ended(opened(old(conn)@, session_answer(outcome))),
{
    let next = connect_answered(conn, outcome);
    end_browsing(conn, next)
}

/// Takes the backend's answer to an attribute that was set before the
/// connection was open, where browsing came to the connection.
pub fn browse_pending_answered(
    conn: &mut ConnectionHandle,
    rest: Pending,
    outcome: Result<(), OdbcError>,
) -> (r: OpenStep)
    ensures
        (final(conn)@, r@) == browse_ended(continued(old(conn)@, rest, answer(outcome))),
{
    let next = pending_answered(conn, rest, outcome);
    end_browsing(conn, next)
}

// ---------------------------------------------------------------------------
// Closing a connection
// ---------------------------------------------------------------------------

/// What asking to disconnect comes to.
pub open spec fn disconnect_step(c: ConnectionView) -> (ConnectionView, StepView) {
    if c.session is None {
        (c.cleared().posted(ErrorView::NotConnected), StepView::Done(SqlReturn::ERROR))
    } else {
        (c.cleared(), StepView::Ask(CallView::Disconnect))
    }
}

/// What the backend's answer to a disconnect leaves, and what is returned.
pub open spec fn disconnected(c: ConnectionView, outcome: Result<(), ErrorView>) -> (
    ConnectionView,
    SqlReturn,
) {
    match outcome {
        Ok(_) => (ConnectionView { session: None, ..c }, SqlReturn::SUCCESS),
        Err(e) => (c.posted(e), e.sql_return()),
    }
}

/// `SQLDisconnect`: the backend is asked to close the connection; its answer
/// goes to [`disconnect_answered`].
pub fn sql_disconnect(conn: Option<&mut ConnectionHandle>) -> (r: Step)
    ensures
        match conn {
            None => r@ == StepView::Done(SqlReturn::INVALID_HANDLE),
            Some(c) => (final(c)@, r@) == disconnect_step(c@),
        },
{
    match conn {
        None => Step::Done(SqlReturn::INVALID_HANDLE),
        Some(c) => {
            c.diagnostics.clear();
            if c.connection.is_none() {
                Step::Done(settle(&mut c.diagnostics, Err(OdbcError::NotConnected)))
            } else {
                Step::Ask(BackendCall::Disconnect)
            }
        },
    }
}

/// Takes the backend's answer to a request to disconnect. On success the
/// statements and descriptors of the connection are to be freed; on failure the
/// connection stays open.
pub fn disconnect_answered(conn: &mut ConnectionHandle, outcome: Result<(), OdbcError>) -> (r:
    SqlReturn)
    ensures
        (final(conn)@, r) == disconnected(old(conn)@, answer(outcome)),
{
    match outcome {
        Ok(_) => {
            conn.connection = None;
            SqlReturn::SUCCESS
        },
        Err(e) => settle(&mut conn.diagnostics, Err(e)),
    }
}

// ---------------------------------------------------------------------------
// Native SQL
// ---------------------------------------------------------------------------

/// The statement of a call of `SQLNativeSqlW`, or why the call is refused.
pub open spec fn native_text(
    c: ConnectionView,
    text: Option<Seq<u16>>,
    length: int,
    wanted: bool,
    buffer_length: int,
) -> Result<Seq<char>, ErrorView> {
    if c.session is None {
        Err(ErrorView::NotConnected)
    } else if text is None {
        Err(
            ErrorView::general("InStatementText must not be NULL"@, INVALID_USE_OF_NULL_POINTER@),
        )
    } else if is_bad_length(length) {
        Err(not_a_length("Invalid TextLength1: "@, length))
    } else if buffer_length < 0 && wanted {
        Err(not_a_length("Invalid BufferLength: "@, buffer_length))
    } else {
        given_text(text, length)
    }
}

/// What `SQLNativeSqlW` hands back to the application.
pub struct NativeAnswer {
    /// What the call returns.
    pub code: SqlReturn,
    /// What goes to the start of the output buffer; nothing where there is no
    /// buffer or no room in it.
    pub units: Option<Vec<u16>>,
    /// The length of the whole translation in code units.
    pub length: Option<i32>,
}

impl NativeAnswer {
    /// The call failed with `e`.
    pub open spec fn refused(self, e: ErrorView) -> bool {
        self.code == e.sql_return() && self.units is None && self.length is None
    }

    /// This answers a call whose statement translated to `outcome`, on a handle
    /// `c` with no diagnostics that then is `after`.
    pub open spec fn answers(
        self,
        c: ConnectionView,
        outcome: Result<Seq<char>, ErrorView>,
        wanted: bool,
        buffer_length: int,
        after: ConnectionView,
    ) -> bool {
        match outcome {
            Err(e) => {
                let failure = ErrorView::general(
                    "failed to translate ODBC escapes: "@ + e.display(),
                    GENERAL_ERROR@,
                );
                self.refused(failure) && after =~= c.posted(failure)
            },
            Ok(translation) => {
                let all = encode16(translation);
                let cut = wanted && kept(all.len() as int, buffer_length) < all.len();
                &&& self.length == Some(all.len() as i32)
                &&& crate::utf16::vec_view(self.units) == (if wanted {
                    crate::utf16::laid_out(all, buffer_length)
                } else {
                    None
                })
                &&& self.code == (if cut {
                    SqlReturn::SUCCESS_WITH_INFO
                } else {
                    SqlReturn::SUCCESS
                })
                &&& after =~= ConnectionView {
                    queue: crate::utf16::truncation_noted(c.queue, self.code),
                    ..c
                }
            },
        }
    }
}

/// Answers a call of `SQLNativeSqlW` from the translation of its statement. Its
/// failures have no state of their own here, so each is a general error.
pub fn native_sql_answer(
    conn: &mut ConnectionHandle,
    outcome: Result<String, OdbcError>,
    wanted: bool,
    buffer_length: i32,
) -> (r: NativeAnswer)
    ensures
        r.answers(
            old(conn)@,
            crate::utf16::decoded(outcome),
            wanted,
            buffer_length as int,
            final(conn)@,
        ),
{
    match outcome {
        Err(e) => {
            let reason = e.to_string();
            let failure = OdbcError::general(
                join2("failed to translate ODBC escapes: ", reason.as_str()).as_str(),
                SqlState::general_error(),
            );
            let code = settle(&mut conn.diagnostics, Err(failure));
            NativeAnswer { code, units: None, length: None }
        },
        Ok(translation) => {
            let all = encode(translation.as_str());
            let length: i32 = all.len() as i32;
            if !wanted {
                return NativeAnswer {
                    code: SqlReturn::SUCCESS,
                    units: None,
                    length: Some(length),
                };
            }
            if buffer_length <= 0 {
                let code = if all.len() > 0 {
                    SqlReturn::SUCCESS_WITH_INFO
                } else {
                    SqlReturn::SUCCESS
                };
                let code = crate::utf16::note_truncation(code, &mut conn.diagnostics);
                return NativeAnswer { code, units: None, length: Some(length) };
            }
            let room: usize = buffer_length as u32 as usize;
            let fits: usize = if all.len() < room {
                all.len()
            } else {
                room - 1
            };
            let mut units: Vec<u16> = Vec::new();
            for i in 0..fits
                invariant
                    fits <= all@.len(),
                    units@ == all@.take(i as int),
            {
                units.push(all[i]);
                assert(all@.take(i + 1) == all@.take(i as int).push(all@[i as int]));
            }
            units.push(0);
            let code = if fits < all.len() {
                SqlReturn::SUCCESS_WITH_INFO
            } else {
                SqlReturn::SUCCESS
            };
            let code = crate::utf16::note_truncation(code, &mut conn.diagnostics);
            NativeAnswer { code, units: Some(units), length: Some(length) }
        },
    }
}

/// `SQLNativeSqlW`: the statement as it goes to the data source, its escapes
/// translated by the rules of `dialect`.
pub fn sql_native_sql_w<Remap, Rewrite, Date, Time, Timestamp>(
    conn: Option<&mut ConnectionHandle>,
    text: Option<&[u16]>,
    text_length1: i32,
    wanted: bool,
    buffer_length: i32,
    dialect: &EscapeDialect<Remap, Rewrite, Date, Time, Timestamp>,
) -> (r: NativeAnswer) where
    Remap: RenameRule,
    Rewrite: RewriteRule,
    Date: RenderRule,
    Time: RenderRule,
    Timestamp: RenderRule,

    requires
        readable(text, text_length1 as int),
        dialect.callable(),
    ensures
        match conn {
            None => r.refused(ErrorView::InvalidHandle),
            Some(c) => match native_text(
                c@,
                units_view(text),
                text_length1 as int,
                wanted,
                buffer_length as int,
            ) {
                Err(e) => r.refused(e) && final(c)@ == c@.cleared().posted(e),
                Ok(sql) => {
                    &&& forall|m: DialectModel| #[trigger]
                        dialect.follows(m) ==> r.answers(
                            c@.cleared(),
                            translated(m, sql, 0),
                            wanted,
                            buffer_length as int,
                            final(c)@,
                        )
                    &&& exists|a: Answers, outcome: Result<Seq<char>, ErrorView>|
                        {
                            &&& #[trigger] dialect.may_answer(a)
                            &&& translated_at(a, sql, 0, 0) == complete(outcome)
                            &&& #[trigger] r.answers(
                                c@.cleared(),
                                outcome,
                                wanted,
                                buffer_length as int,
                                final(c)@,
                            )
                            &&& outcome matches Err(e) ==> is_escape_failure(e)
                        }
                    &&& has_no_escape(dialect.quotes(), sql, 0) || !sql.contains('{') ==> r.answers(
                        c@.cleared(),
                        Ok(sql),
                        wanted,
                        buffer_length as int,
                        final(c)@,
                    )
                    &&& final(c)@ == (ConnectionView { queue: final(c)@.queue, ..c@ })
                },
            },
        },
{
    let c = match conn {
        None => {
            return NativeAnswer { code: SqlReturn::INVALID_HANDLE, units: None, length: None };
        },
        Some(c) => c,
    };
    let ghost before = c@;
    c.diagnostics.clear();
    assert(c@ == before.cleared());
    let given: Result<String, OdbcError> = if c.connection.is_none() {
        Err(OdbcError::NotConnected)
    } else if text.is_none() {
        Err(
            OdbcError::general(
                "InStatementText must not be NULL",
                SqlState::invalid_use_of_null_pointer(),
            ),
        )
    } else if text_length1 < 0 && text_length1 != SQL_NTS {
        Err(length_error("Invalid TextLength1: ", text_length1 as i64))
    } else if buffer_length < 0 && wanted {
        Err(length_error("Invalid BufferLength: ", buffer_length as i64))
    } else {
        utf16_to_string(text, text_length1)
    };
    match given {
        Err(e) => {
            let code = settle(&mut c.diagnostics, Err(e));
            NativeAnswer { code, units: None, length: None }
        },
        Ok(sql) => {
            let translation = translate_escapes(sql.as_str(), dialect);
            let ghost outcome = crate::utf16::decoded(translation);
            let r = native_sql_answer(c, translation, wanted, buffer_length);
            assert(r.answers(before.cleared(), outcome, wanted, buffer_length as int, c@));
            r
        },
    }
}

// ---------------------------------------------------------------------------
// Laws
// ---------------------------------------------------------------------------

/// What the connection string says wins over the data source it names: a
/// keyword with a value in the string has that value.
pub proof fn law_connection_string_wins<F: Fn(&str) -> Vec<(String, String)>>(
    resolver: F,
    text: Seq<char>,
    pairs: Pairs,
    key: Seq<char>,
)
    requires
        resolves(resolver, text, pairs),
        lookup(parsed(text), key) is Some,
    ensures
        lookup(pairs, key) == lookup(parsed(text), key),
{
    match lookup(parsed(text), "dsn"@) {
        None => {},
        Some(name) => {
            let (dsn, list) = choose|dsn: &str, list: Vec<(String, String)>| #[trigger]
                call_ensures(resolver, (dsn,), list) && dsn@ == name && pairs == merged(
                    parsed(text),
                    pairs_of(list@),
                );
            crate::params::law_merge_keeps_what_is_there(parsed(text), pairs_of(list@), key);
        },
    }
}

/// A data source adds its own keywords and no others: whatever its values hold,
/// a keyword that neither the string nor the data source has stays absent.
pub proof fn law_data_source_values_add_no_keywords(
    text: Seq<char>,
    list: Seq<(String, String)>,
    key: Seq<char>,
)
    requires
        lookup(parsed(text), key) is None,
        forall|i: int| 0 <= i < list.len() ==> lowercase((#[trigger] list[i]).0@) != key,
    ensures
        lookup(merged(parsed(text), pairs_of(list)), key) is None,
{
    crate::params::law_merge_keeps_what_is_there(parsed(text), pairs_of(list), key);
    lemma_keyword_absent(list, key);
}

proof fn lemma_keyword_absent(list: Seq<(String, String)>, key: Seq<char>)
    requires
        forall|i: int| 0 <= i < list.len() ==> lowercase((#[trigger] list[i]).0@) != key,
    ensures
        lookup(pairs_of(list), key) is None,
    decreases list.len(),
{
    if list.len() > 0 {
        assert forall|i: int| 0 <= i < list.drop_last().len() implies lowercase(
            (#[trigger] list.drop_last()[i]).0@,
        ) != key by {
            assert(list[i] == list.drop_last()[i]);
        }
        lemma_keyword_absent(list.drop_last(), key);
        assert(list.last() == list[list.len() - 1]);
        crate::params::lemma_lookup_push(
            pairs_of(list.drop_last()),
            (lowercase(list.last().0@), list.last().1@),
            key,
        );
    }
}

/// A connect that does not succeed leaves no connection behind, and its reason
/// is the record posted.
pub proof fn law_failed_connect_leaves_no_connection(
    c: ConnectionView,
    outcome: Result<SessionView, ErrorView>,
    rest: Pending,
    taken: Result<(), ErrorView>,
)
    requires
        c.session is None,
    ensures
        opened(c, outcome).1 is Abandon ==> opened(c, outcome).0.session is None,
        outcome is Err ==> opened(c, outcome).0.session is None,
        forall|open: ConnectionView|
            (#[trigger] continued(open, rest, taken)).1 is Abandon ==> continued(
                open,
                rest,
                taken,
            ).0.session is None,
        taken matches Err(e) ==> forall|open: ConnectionView|
            (#[trigger] continued(open, rest, taken)).0.queue == open.posted(e).queue && continued(
                open,
                rest,
                taken,
            ).1 == OpenView::Abandon(e.sql_return()),
{
}

/// The application is told that it is connected only once the backend has
/// taken every attribute set before: nothing is owed then.
pub proof fn law_success_owes_nothing(c: ConnectionView, from: Pending)
    requires
        advanced(c, from).1 == OpenView::Done(SqlReturn::SUCCESS),
    ensures
        next_pending(c, from) == Ok::<Option<(CallView, Pending)>, ErrorView>(None),
        advanced(c, from).0 == c,
{
}

/// In browsing, what a call says wins over what earlier calls said, and what
/// they said is kept otherwise.
pub proof fn law_browsing_accumulates(
    c: ConnectionView,
    fresh: Pairs,
    sensitive: Seq<&str>,
    key: Seq<char>,
)
    ensures
        lookup(browsed(c, fresh, sensitive).pairs, key) == (if lookup(fresh, key) is Some {
            lookup(fresh, key)
        } else {
            lookup(gathered(c), key)
        }),
{
    crate::params::law_merge_keeps_what_is_there(fresh, gathered(c), key);
}

/// What browsing gathered lasts until a connect succeeds: a refusal, by the
/// backend or of an attribute set before, leaves it for the next round, and a
/// connection drops it.
pub proof fn law_browsing_is_kept_until_connected(
    c: ConnectionView,
    outcome: Result<SessionView, ErrorView>,
    rest: Pending,
    taken: Result<(), ErrorView>,
)
    ensures
        ({
            let (after, next) = browse_ended(opened(c, outcome));
            &&& after.browse == (if next == OpenView::Done(SqlReturn::SUCCESS) {
                None
            } else {
                c.browse
            })
            &&& outcome is Err ==> after.browse == c.browse
            &&& next is Abandon ==> after.browse == c.browse
        }),
        ({
            let (after, next) = browse_ended(continued(c, rest, taken));
            &&& after.browse == (if next == OpenView::Done(SqlReturn::SUCCESS) {
                None
            } else {
                c.browse
            })
            &&& taken is Err ==> after.browse == c.browse
            &&& next is Abandon ==> after.browse == c.browse
        }),
{
}

/// When browsing has every attribute that is required, what goes to the output
/// buffer is a connection string for just the parameters that the backend is given:
/// read back, it has for every keyword the same value, credentials included.
pub proof fn law_the_completed_connection_string_connects_again(
    c: ConnectionView,
    all: ParamsView,
    required: Seq<&str>,
    buffer_length: int,
    after: ConnectionView,
    r: ConnectStep,
    key: Seq<char>,
)
    requires
        browse_step(c, all, required, true, buffer_length, after, r),
        r is Connect,
        0 < buffer_length <= 32767,
        forall|i: int|
            0 <= i < all.pairs.len() ==> is_keyword((#[trigger] all.pairs[i]).0)
                && !all.pairs[i].1.contains('}'),
    ensures
        r matches ConnectStep::Connect { params, output } && {
            &&& params@.pairs == all.pairs
            &&& output.code == SqlReturn::SUCCESS && output.length < 32767 ==> (output.units
                matches Some(u) && u@.len() > 0 && u@.last() == 0 && lookup(
                parsed(decode16(u@.drop_last())),
                key,
            ) == lookup(params@.pairs, key))
        },
{
    let text = rendered(all.pairs);
    crate::params::law_a_connection_string_reads_back(all.pairs, key);
    match r {
        ConnectStep::Connect { params, output } => {
            if output.code == SqlReturn::SUCCESS && output.length < 32767 {
                crate::utf16::law_a_text_reaches_the_buffer(output, text, buffer_length);
            }
        },
        _ => {},
    }
}

/// Browsing connects just where no required attribute is missing, and otherwise
/// asks for data; either way everything given so far is kept.
pub proof fn law_browsing_asks_for_what_is_missing(
    c: ConnectionView,
    all: ParamsView,
    required: Seq<&str>,
    wanted: bool,
    buffer_length: int,
    after: ConnectionView,
    r: ConnectStep,
)
    requires
        browse_step(c, all, required, wanted, buffer_length, after, r),
    ensures
        (r is Connect) == (forall|i: int|
            0 <= i < required.len() ==> lookup(all.pairs, lowercase((#[trigger] required[i])@))
                is Some),
        r matches ConnectStep::Done { code, text } ==> code == SqlReturn::NEED_DATA && text is Some,
        after.browse == Some(all),
        after.session == c.session,
{
    lemma_missing(all.pairs, required);
}

proof fn lemma_missing(pairs: Pairs, required: Seq<&str>)
    ensures
        (missing_in(pairs, required).len() == 0) == (forall|i: int|
            0 <= i < required.len() ==> lookup(pairs, lowercase((#[trigger] required[i])@))
                is Some),
        forall|name: Seq<char>| #[trigger]
            missing_in(pairs, required).contains(name) ==> lookup(pairs, lowercase(name)) is None,
        forall|i: int|
            0 <= i < required.len() && lookup(pairs, lowercase((#[trigger] required[i])@)) is None
                ==> missing_in(pairs, required).contains(required[i]@),
    decreases required.len(),
{
    if required.len() > 0 {
        let front = required.drop_last();
        lemma_missing(pairs, front);
        let before = missing_in(pairs, front);
        let all = missing_in(pairs, required);
        let last = required.last();
        assert forall|i: int| 0 <= i < front.len() implies front[i] == required[i] by {}
        assert(required[required.len() - 1] == last);
        if lookup(pairs, lowercase(last@)) is None {
            assert(all == before.push(last@));
            assert(all[all.len() - 1] == last@);
            assert forall|name: Seq<char>| before.contains(name) implies #[trigger] all.contains(
                name,
            ) by {
                let i = choose|i: int| 0 <= i < before.len() && before[i] == name;
                assert(all[i] == name);
            }
            assert forall|name: Seq<char>| #[trigger] all.contains(name) implies lookup(
                pairs,
                lowercase(name),
            ) is None by {
                let i = choose|i: int| 0 <= i < all.len() && all[i] == name;
                if i < before.len() {
                    assert(before[i] == name);
                    assert(before.contains(name));
                }
            }
        } else {
            assert(all == before);
        }
        assert forall|i: int|
            0 <= i < required.len() && lookup(pairs, lowercase((#[trigger] required[i])@))
                is None implies all.contains(required[i]@) by {
            if i < front.len() {
                assert(front[i] == required[i]);
                assert(before.contains(front[i]@));
            }
        }
        if all.len() == 0 {
            assert forall|i: int| 0 <= i < required.len() implies lookup(
                pairs,
                lowercase((#[trigger] required[i])@),
            ) is Some by {
                if lookup(pairs, lowercase(required[i]@)) is None {
                    assert(all.contains(required[i]@));
                }
            }
        } else {
            assert(all.contains(all[0]));
            if forall|i: int|
                0 <= i < required.len() ==> lookup(pairs, lowercase((#[trigger] required[i])@))
                    is Some {
                assert(lookup(pairs, lowercase(required[required.len() - 1]@)) is Some);
                assert forall|i: int| 0 <= i < front.len() implies lookup(
                    pairs,
                    lowercase((#[trigger] front[i])@),
                ) is Some by {
                    assert(lookup(pairs, lowercase(required[i]@)) is Some);
                }
            }
        }
    }
}

/// What is asked for are just the required attributes without a value.
pub proof fn law_what_is_missing(pairs: Pairs, required: Seq<&str>, i: int, name: Seq<char>)
    ensures
        missing_in(pairs, required).contains(name) ==> lookup(pairs, lowercase(name)) is None,
        0 <= i < required.len() && lookup(pairs, lowercase(required[i]@)) is None ==> missing_in(
            pairs,
            required,
        ).contains(required[i]@),
{
    lemma_missing(pairs, required);
}

/// The attributes that are asked for stand one behind the other, with semicolons
/// between, each as its name, its name in capitals and a question mark.
pub proof fn law_how_attributes_are_asked_for(missing: Seq<Seq<char>>, name: Seq<char>)
    ensures
        browse_text(seq![name]) == name + ":"@ + uppercase_of(name) + "=?"@,
        missing.len() > 0 ==> browse_text(missing.push(name)) == browse_text(missing) + ";"@
            + browse_text(seq![name]),
        browse_text(Seq::empty()) == Seq::<char>::empty(),
{
    assert(missing.push(name).drop_last() == missing);
    assert(seq![name].last() == name);
}

/// A user name or password that is passed wins over the data source's own, one that
/// is empty or not passed does not, and no other keyword is touched.
pub proof fn law_what_is_passed_wins_over_the_data_source(
    pairs: Pairs,
    key: Seq<char>,
    value: Seq<char>,
    behind: Seq<u16>,
    other: Seq<char>,
)
    ensures
        ({
            let units = encode16(value);
            let after = overridden(pairs, key, Some(units + behind), units.len() as int);
            &&& lookup(after, key) == (if value.len() > 0 {
                Some(value)
            } else {
                lookup(pairs, key)
            })
            &&& other != key ==> lookup(after, other) == lookup(pairs, other)
        }),
        overridden(pairs, key, None, 0) == pairs,
{
    crate::utf16::law_a_text_passed_is_the_text_received(value, behind);
    crate::params::law_insert_sets_one_value(pairs, key, value, key);
    crate::params::law_insert_sets_one_value(pairs, key, value, other);
}

/// What the connection string does not say, the data source that it names says.
pub proof fn law_the_data_source_fills_the_gaps<F: Fn(&str) -> Vec<(String, String)>>(
    resolver: F,
    text: Seq<char>,
    pairs: Pairs,
    key: Seq<char>,
)
    requires
        resolves(resolver, text, pairs),
        lookup(parsed(text), key) is None,
    ensures
        match lookup(parsed(text), "dsn"@) {
            None => lookup(pairs, key) is None,
            Some(name) => exists|dsn: &str, list: Vec<(String, String)>| #[trigger]
                call_ensures(resolver, (dsn,), list) && dsn@ == name && lookup(pairs, key)
                    == lookup(pairs_of(list@), key),
        },
{
    match lookup(parsed(text), "dsn"@) {
        None => {},
        Some(name) => {
            let (dsn, list) = choose|dsn: &str, list: Vec<(String, String)>| #[trigger]
                call_ensures(resolver, (dsn,), list) && dsn@ == name && pairs == merged(
                    parsed(text),
                    pairs_of(list@),
                );
            crate::params::law_merge_keeps_what_is_there(parsed(text), pairs_of(list@), key);
        },
    }
}

/// Keywords of a data source that null units separate are read one by one, in their
/// order, and a further null names none.
pub proof fn law_a_list_of_keywords_is_split(name: Seq<char>, rest: Seq<u16>)
    requires
        name.len() > 0,
        !name.contains('\0'),
    ensures
        names_from(encode16(name) + seq![0u16] + rest, 0) == seq![name] + names_from(rest, 0),
        names_from(seq![0u16] + rest, 0) == names_from(rest, 0),
        names_from(encode16(name), 0) == seq![name],
{
    let own = encode16(name);
    let n = own.len() as int;
    let units = own + seq![0u16] + rest;
    crate::utf16::lemma_no_null_inside(name);
    crate::utf16::law_utf16_round_trip(name);
    assert(n > 0);
    assert forall|k: int| 0 <= k < n implies units[k] != 0 by {
        assert(units[k] == own[k]);
    }
    assert(units[n] == 0);
    lemma_null_is_at(units, 0, n);
    assert(units.subrange(0, n) == own);
    lemma_names_behind(units, rest, n + 1, 0);
    let more = seq![0u16] + rest;
    lemma_null_is_at(more, 0, 0);
    lemma_names_behind(more, rest, 1, 0);
    lemma_null_is_nowhere(own, 0);
    assert(own.subrange(0, n) == own);
    reveal_with_fuel(names_from, 2);
    assert(seq![name] + Seq::<Seq<char>>::empty() == seq![name]);
}

proof fn lemma_null_is_nowhere(units: Seq<u16>, i: int)
    requires
        0 <= i <= units.len(),
        forall|j: int| i <= j < units.len() ==> units[j] != 0,
    ensures
        null_or_end(units, i) == units.len(),
    decreases units.len() - i,
{
    if i < units.len() {
        lemma_null_is_nowhere(units, i + 1);
    }
}

proof fn lemma_null_is_at(units: Seq<u16>, i: int, n: int)
    requires
        0 <= i <= n < units.len(),
        units[n] == 0,
        forall|j: int| i <= j < n ==> units[j] != 0,
    ensures
        null_or_end(units, i) == n,
    decreases n - i,
{
    if i < n {
        lemma_null_is_at(units, i + 1, n);
    }
}

proof fn lemma_null_behind(units: Seq<u16>, back: Seq<u16>, off: int, i: int)
    requires
        0 <= off,
        units.len() == off + back.len(),
        forall|k: int| 0 <= k < back.len() ==> units[off + k] == back[k],
        0 <= i,
    ensures
        i <= back.len() ==> null_or_end(units, off + i) == off + null_or_end(back, i),
    decreases back.len() - i,
{
    if i < back.len() {
        lemma_null_behind(units, back, off, i + 1);
    }
}

proof fn lemma_names_behind(units: Seq<u16>, back: Seq<u16>, off: int, i: int)
    requires
        0 <= off,
        units.len() == off + back.len(),
        forall|k: int| 0 <= k < back.len() ==> units[off + k] == back[k],
        0 <= i,
    ensures
        names_from(units, off + i) == names_from(back, i),
    decreases back.len() + 1 - i,
{
    if i < back.len() {
        lemma_null_behind(units, back, off, i);
        lemma_null_or_end(back, i);
        let e = null_or_end(back, i);
        lemma_names_behind(units, back, off, e + 1);
        assert(units.subrange(off + i, off + e) == back.subrange(i, e));
    }
}

/// A value is read for every keyword of a data source but `Driver`, in any case, and
/// kept where it is not empty, cut at the length reported or at its buffer.
pub proof fn law_values_are_read_one_by_one(
    keys: Seq<Seq<char>>,
    answers: Seq<(Vec<u16>, i32)>,
    key: Seq<char>,
    answer: (Vec<u16>, i32),
)
    requires
        answers.len() == keys.len(),
    ensures
        ({
            let before = values_read(keys, answers);
            let after = values_read(keys.push(key), answers.push(answer));
            let length = if answer.1 < answer.0@.len() {
                answer.1 as int
            } else {
                answer.0@.len() as int
            };
            after == (if lowercase(key) == "driver"@ || answer.1 <= 0 {
                before
            } else {
                before.push((key, decode16(answer.0@.take(length))))
            })
        }),
{
    assert(keys.push(key).drop_last() == keys);
    lemma_values_read(keys, answers, answers.push(answer));
    assert(answers.push(answer)[keys.len() as int] == answer);
    assert(answer.0@.take(answer.0@.len() as int) == answer.0@);
    reveal_strlit("Driver");
    reveal_strlit("driver");
    assert(lowercase("Driver"@) =~= "driver"@) by {
        assert forall|i: int| 0 <= i < 6 implies lowercase("Driver"@)[i] == "driver"@[i] by {
            crate::text::law_small_letters("Driver"@, i);
        }
    }
}

/// Before a connect a connection must not be open, the text must be there, and its
/// length and that of the buffer must be lengths: each is refused with a state of
/// its own, and with nothing of it wrong the text is the one passed.
pub proof fn law_what_a_connection_string_has_to_be(
    c: ConnectionView,
    t: Seq<char>,
    behind: Seq<u16>,
    length: int,
    buffer_length: int,
)
    ensures
        ({
            let units = encode16(t);
            let given = |l: int, b: int| connection_text(c, Some(units + behind), l, b);
            let is = |r: Result<Seq<char>, ErrorView>, state: Seq<char>|
                r is Err && r->Err_0.sqlstate() == state;
            if c.session is Some {
                is(connection_text(c, None, length, buffer_length), "08002"@) && is(
                    given(length, buffer_length),
                    "08002"@,
                )
            } else {
                &&& is(connection_text(c, None, length, buffer_length), "HY009"@)
                &&& length < 0 && length != -3 ==> is(given(length, buffer_length), "HY090"@)
                &&& buffer_length < 0 ==> is(given(units.len() as int, buffer_length), "HY090"@)
                &&& buffer_length >= 0 ==> given(units.len() as int, buffer_length) == Ok::<
                    Seq<char>,
                    ErrorView,
                >(t)
            }
        }),
{
    crate::utf16::law_a_text_passed_is_the_text_received(t, behind);
}

/// A connection that the backend made with nothing set before is open at once, and
/// one that it refused is not there; its reason is the record.
pub proof fn law_the_backend_decides_the_connection(
    c: ConnectionView,
    session: SessionView,
    e: ErrorView,
)
    requires
        c.session is None,
        c.attrs == Map::<i32, usize>::empty(),
        c.catalog is None,
        !(e is InvalidHandle),
    ensures
        opened(c, Ok(session)) == (
            ConnectionView { session: Some(session), ..c },
            OpenView::Done(SqlReturn::SUCCESS),
        ),
        ({
            let (after, next) = opened(c, Err(e));
            &&& after.session is None
            &&& next == OpenView::Done(e.sql_return())
            &&& after.queue == c.queue.push(crate::diagnostics::record_of(e))
        }),
{
    reveal_with_fuel(next_pending, 5);
}

/// A statement that translates is handed out whole where it fits the buffer, and
/// otherwise cut, with the record `01004`; its whole length is reported either way.
pub proof fn law_a_native_statement_reports_its_whole_length(
    r: NativeAnswer,
    c: ConnectionView,
    t: Seq<char>,
    wanted: bool,
    buffer_length: int,
    after: ConnectionView,
)
    requires
        r.answers(c, Ok(t), wanted, buffer_length, after),
        encode16(t).len() <= 0x7fff_ffff,
    ensures
        ({
            let all = encode16(t);
            let whole = !wanted || all.len() < buffer_length || all.len() == 0;
            &&& r.length == Some(all.len() as i32)
            &&& (r.code == SqlReturn::SUCCESS) == whole
            &&& whole ==> after.queue == c.queue
            &&& !whole ==> r.code == SqlReturn::SUCCESS_WITH_INFO && after.queue.len()
                == c.queue.len() + 1 && after.queue.last().sqlstate == "01004"@
            &&& wanted && all.len() < buffer_length ==> (r.units matches Some(u) && u@ == all.push(
                0,
            ))
            &&& wanted && 0 < buffer_length <= all.len() ==> (r.units matches Some(u) && u@
                == all.take(buffer_length - 1).push(0))
            &&& !wanted || buffer_length <= 0 ==> r.units is None
            &&& after.session == c.session && after.attrs == c.attrs && after.catalog == c.catalog
        }),
{
    let all = encode16(t);
    assert(all.take(all.len() as int) == all);
}

/// A statement that does not translate is a general error that gives the reason.
pub proof fn law_a_statement_that_does_not_translate(
    r: NativeAnswer,
    c: ConnectionView,
    e: ErrorView,
    wanted: bool,
    buffer_length: int,
    after: ConnectionView,
)
    requires
        r.answers(c, Err(e), wanted, buffer_length, after),
    ensures
        r.code == SqlReturn::ERROR,
        r.units is None && r.length is None,
        after.queue.len() == c.queue.len() + 1,
        after.queue.last().sqlstate == "HY000"@,
{
}

/// The keywords that browsing gathers are in small letters, as long as those that it
/// had gathered before are.
pub proof fn law_browsing_gathers_keywords_in_small_letters<
    F: Fn(&str) -> Vec<(String, String)>,
>(resolver: F, c: ConnectionView, given: Seq<char>, fresh: Pairs, sensitive: Seq<&str>)
    requires
        resolves(resolver, given, fresh),
        c.browse matches Some(prior) ==> all_small(prior.pairs),
    ensures
        all_small(browsed(c, fresh, sensitive).pairs),
{
    crate::params::law_keywords_are_in_small_letters(
        given,
        Seq::empty(),
        Seq::empty(),
        Seq::empty(),
    );
    match lookup(parsed(given), "dsn"@) {
        None => {},
        Some(name) => {
            let (dsn, list) = choose|dsn: &str, list: Vec<(String, String)>| #[trigger]
                call_ensures(resolver, (dsn,), list) && dsn@ == name && fresh == merged(
                    parsed(given),
                    pairs_of(list@),
                );
            crate::params::law_keywords_are_in_small_letters(
                given,
                list@,
                Seq::empty(),
                Seq::empty(),
            );
            crate::params::law_keywords_are_in_small_letters(
                given,
                list@,
                parsed(given),
                pairs_of(list@),
            );
        },
    }
    crate::params::law_keywords_are_in_small_letters(
        given,
        Seq::empty(),
        fresh,
        gathered(c),
    );
}

/// A user name and a password that are passed are the ones connected with, each under
/// its own keyword, and every other value is the data source's.
pub proof fn law_the_credentials_passed_are_connected_with(
    pairs: Pairs,
    user: Seq<char>,
    behind_user: Seq<u16>,
    password: Seq<char>,
    behind_password: Seq<u16>,
    other: Seq<char>,
)
    requires
        user.len() > 0,
        password.len() > 0,
    ensures
        ({
            let u = encode16(user);
            let p = encode16(password);
            let after = signed_in(
                pairs,
                Some(u + behind_user),
                u.len() as int,
                Some(p + behind_password),
                p.len() as int,
            );
            &&& lookup(after, "user"@) == Some(user)
            &&& lookup(after, "password"@) == Some(password)
            &&& other != "user"@ && other != "password"@ ==> lookup(after, other) == lookup(
                pairs,
                other,
            )
        }),
        signed_in(pairs, None, 0, None, 0) == pairs,
{
    let u = encode16(user);
    let p = encode16(password);
    reveal_strlit("user");
    reveal_strlit("password");
    assert("user"@.len() != "password"@.len());
    let first = overridden(pairs, "user"@, Some(u + behind_user), u.len() as int);
    law_what_is_passed_wins_over_the_data_source(pairs, "user"@, user, behind_user, other);
    law_what_is_passed_wins_over_the_data_source(
        first,
        "password"@,
        password,
        behind_password,
        "user"@,
    );
    law_what_is_passed_wins_over_the_data_source(
        first,
        "password"@,
        password,
        behind_password,
        other,
    );
}

/// A connect by name is refused where a connection is open, where a length is no length,
/// or where the name of the data source is no text, and nowhere else.
pub proof fn law_what_a_connect_by_name_needs(
    c: ConnectionView,
    server: Seq<char>,
    behind: Seq<u16>,
    length1: int,
    length2: int,
    length3: int,
)
    ensures
        ({
            let bad = |l: int| l < 0 && l != -3;
            let units = encode16(server);
            let refused = |l1: int| connect_refusal(c, Some(units + behind), l1, length2, length3);
            &&& c.session is Some ==> (refused(length1) matches Some(e) && e.sqlstate() == "08002"@)
            &&& c.session is None && (bad(length1) || bad(length2) || bad(length3)) ==> (refused(
                length1,
            ) matches Some(e) && e.sqlstate() == "HY090"@)
            &&& c.session is None && !bad(length2) && !bad(length3) ==> refused(
                units.len() as int,
            ) is None
        }),
{
    crate::utf16::law_a_text_passed_is_the_text_received(server, behind);
}

/// A connection string without a data source connects with just its own values, and the
/// text passed is the one handed back.
pub proof fn law_a_connection_string_stands_for_itself<F: Fn(&str) -> Vec<(String, String)>>(
    resolver: F,
    c: ConnectionView,
    given: Seq<char>,
    sensitive: Seq<&str>,
    wanted: bool,
    buffer_length: int,
    after: ConnectionView,
    r: ConnectStep,
    key: Seq<char>,
)
    requires
        driver_connected(resolver, c, given, sensitive, wanted, buffer_length, after, r),
    ensures
        r matches ConnectStep::Connect { params, output } && {
            &&& lookup(parsed(given), key) is Some ==> lookup(params@.pairs, key) == lookup(
                parsed(given),
                key,
            )
            &&& lookup(parsed(given), "dsn"@) is None ==> lookup(params@.pairs, key) == lookup(
                parsed(given),
                key,
            )
            &&& params@.sensitive == declared(sensitive)
            &&& wanted && 0 < buffer_length <= 32767 && output.code == SqlReturn::SUCCESS
                && output.length < 32767 ==> (output.units matches Some(u) && u@.len() > 0
                && u@.last() == 0 && decode16(u@.drop_last()) == given)
            &&& after.session == c.session && after.attrs == c.attrs && after.catalog == c.catalog
            &&& after.queue.len() == 0
        },
{
    match r {
        ConnectStep::Connect { params, output } => {
            if wanted && 0 < buffer_length <= 32767 && output.code == SqlReturn::SUCCESS
                && output.length < 32767 {
                crate::utf16::law_a_text_reaches_the_buffer(output, given, buffer_length);
            }
            if lookup(parsed(given), "dsn"@) is Some {
                let (dsn, list) = choose|dsn: &str, list: Vec<(String, String)>| #[trigger]
                    call_ensures(resolver, (dsn,), list) && dsn@ == lookup(
                        parsed(given),
                        "dsn"@,
                    )->0 && params@.pairs == merged(parsed(given), pairs_of(list@));
                crate::params::law_merge_keeps_what_is_there(parsed(given), pairs_of(list@), key);
            }
        },
        _ => {},
    }
}

/// Where attributes are missing, the text delivered is just the list of those, in the
/// order in which they are required.
pub proof fn law_what_is_missing_is_delivered(
    c: ConnectionView,
    all: ParamsView,
    required: Seq<&str>,
    buffer_length: int,
    after: ConnectionView,
    r: ConnectStep,
)
    requires
        browse_step(c, all, required, true, buffer_length, after, r),
        r is Done,
        0 < buffer_length <= 32767,
    ensures
        r matches ConnectStep::Done { text: Some(output), .. } && {
            output.code == SqlReturn::SUCCESS && output.length < 32767 ==> (output.units matches Some(
                u,
            ) && u@.len() > 0 && u@.last() == 0 && decode16(u@.drop_last()) == browse_text(
                missing_in(all.pairs, required),
            ))
        },
{
    let text = browse_text(missing_in(all.pairs, required));
    match r {
        ConnectStep::Done { text: Some(output), .. } => {
            if output.code == SqlReturn::SUCCESS && output.length < 32767 {
                crate::utf16::law_a_text_reaches_the_buffer(output, text, buffer_length);
            }
        },
        _ => {},
    }
}

/// Every keyword of a data source but `Driver` is asked for by its own name, from the
/// first to the last.
pub proof fn law_every_keyword_is_asked_for<F: Fn(Option<&str>) -> (Vec<u16>, i32)>(
    profile: F,
    list: (Vec<u16>, i32),
    answers: Seq<(Vec<u16>, i32)>,
    pairs: Pairs,
    i: int,
)
    requires
        reads_as(profile, list, answers, pairs),
        0 <= i < answers.len(),
    ensures
        ({
            let keys = names_from(reported(list.0@, list.1 as int), 0);
            &&& call_ensures(profile, (None,), list)
            &&& keys.len() == answers.len()
            &&& lowercase(keys[i]) != "driver"@ ==> exists|entry: &str| #[trigger]
                call_ensures(profile, (Some(entry),), answers[i]) && entry@ == keys[i]
        }),
{
    let keys = names_from(reported(list.0@, list.1 as int), 0);
    reveal_strlit("Driver");
    reveal_strlit("driver");
    assert(lowercase("Driver"@) =~= "driver"@) by {
        assert forall|j: int| 0 <= j < 6 implies lowercase("Driver"@)[j] == "driver"@[j] by {
            crate::text::law_small_letters("Driver"@, j);
        }
    }
    assert(!is_driver(keys[i]) ==> can_give(profile, keys[i], answers[i]));
}

/// A connection that the backend closed is gone and nothing else of its handle with it;
/// one that it did not close stays, with the reason as a record.
pub proof fn law_what_a_disconnect_leaves(c: ConnectionView, message: Seq<char>, state: Seq<char>)
    ensures
        ({
            let (gone, code) = disconnected(c, Ok(()));
            &&& code == SqlReturn::SUCCESS
            &&& gone.session is None
            &&& gone.attrs == c.attrs && gone.catalog == c.catalog && gone.queue == c.queue
            &&& gone.txn_dirty == c.txn_dirty && gone.browse == c.browse
        }),
        ({
            let (kept, code) = disconnected(c, Err(ErrorView::general(message, state)));
            &&& code == SqlReturn::ERROR
            &&& kept.session == c.session
            &&& kept.attrs == c.attrs && kept.catalog == c.catalog
            &&& kept.queue.len() == c.queue.len() + 1
            &&& kept.queue.last().sqlstate == state
        }),
        ({
            let (after, step) = disconnect_step(c);
            &&& (step == StepView::Ask(CallView::Disconnect)) == (c.session is Some)
            &&& c.session is None ==> step == StepView::Done(SqlReturn::ERROR)
                && after.queue.len() == 1 && after.queue[0].sqlstate == "08003"@
        }),
{
}

/// What was declared to be hidden stays declared through browsing, keyword by keyword and
/// in small letters.
pub proof fn law_browsing_keeps_what_is_to_be_hidden(
    c: ConnectionView,
    fresh: Pairs,
    sensitive: Seq<&str>,
    i: int,
)
    requires
        0 <= i < sensitive.len(),
    ensures
        browsed(c, fresh, sensitive).sensitive.len() == sensitive.len(),
        browsed(c, fresh, sensitive).sensitive[i] == lowercase(sensitive[i]@),
        browsed(c, fresh, sensitive).login_timeout is None,
        browsed(c, fresh, sensitive).connection_timeout is None,
{
}

/// A profile gives one more value for one more keyword, where it is not `Driver` and the
/// profile has something under it, cut at the length reported or at the buffer.
pub proof fn law_a_profile_is_read_keyword_by_keyword(
    profile: spec_fn(Option<Seq<char>>) -> (Seq<u16>, int),
    keys: Seq<Seq<char>>,
    key: Seq<char>,
)
    ensures
        ({
            let before = values_of(profile, keys);
            let (buffer, length) = profile(Some(key));
            let cut = if length < buffer.len() {
                length
            } else {
                buffer.len() as int
            };
            values_of(profile, keys.push(key)) == (if lowercase(key) == "driver"@ || length < 1 {
                before
            } else {
                before.push((key, decode16(buffer.take(cut))))
            })
        }),
        values_of(profile, Seq::empty()).len() == 0,
{
    let (buffer, length) = profile(Some(key));
    assert(keys.push(key).drop_last() =~= keys);
    assert(buffer.take(buffer.len() as int) =~= buffer);
    reveal_strlit("Driver");
    reveal_strlit("driver");
    assert(lowercase("Driver"@) =~= "driver"@) by {
        assert forall|j: int| 0 <= j < 6 implies lowercase("Driver"@)[j] == "driver"@[j] by {
            crate::text::law_small_letters("Driver"@, j);
        }
    }
}

/// A statement is translated on an open connection only; its text has to be there, its
/// length and that of a buffer that is wanted have to be lengths, and then it is the text
/// passed.
pub proof fn law_what_a_native_statement_has_to_be(
    c: ConnectionView,
    t: Seq<char>,
    behind: Seq<u16>,
    length: int,
    wanted: bool,
    buffer_length: int,
)
    ensures
        ({
            let units = encode16(t);
            let of = |text: Option<Seq<u16>>, l: int, b: int| native_text(c, text, l, wanted, b);
            let fails = |r: Result<Seq<char>, ErrorView>, state: Seq<char>|
                r is Err && r->Err_0.sqlstate() == state;
            if c.session is None {
                fails(of(None, length, buffer_length), "08003"@) && fails(
                    of(Some(units + behind), length, buffer_length),
                    "08003"@,
                )
            } else {
                &&& fails(of(None, length, buffer_length), "HY009"@)
                &&& length < 0 && length != -3 ==> fails(
                    of(Some(units + behind), length, buffer_length),
                    "HY090"@,
                )
                &&& wanted && buffer_length < 0 ==> fails(
                    of(Some(units + behind), units.len() as int, buffer_length),
                    "HY090"@,
                )
                &&& !wanted || buffer_length >= 0 ==> of(
                    Some(units + behind),
                    units.len() as int,
                    buffer_length,
                ) == Ok::<Seq<char>, ErrorView>(t)
            }
        }),
{
    crate::utf16::law_a_text_passed_is_the_text_received(t, behind);
}

/// After the backend agreed to one value the next one is asked for, and nothing changes on
/// the handle until all have been.
pub proof fn law_values_set_early_are_asked_for_in_turn(
    c: ConnectionView,
    rest: Pending,
    call: CallView,
    next: Pending,
)
    requires
        next_pending(c, rest) == Ok::<Option<(CallView, Pending)>, ErrorView>(Some((call, next))),
    ensures
        continued(c, rest, Ok(())) == (c, OpenView::Ask(call, next)),
{
}

} // verus!
