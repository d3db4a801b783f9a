//! Connection parameters: the `Key=Value;...` pairs of a connection string or
//! a data source, and the timeouts that go with them.

use vstd::prelude::*;

use crate::text::{
    chars_of, is_whitespace, lowercase, push_text, same_text, spells, string_of, to_lowercase, trim,
    trimmed,
};

verus! {

/// The pairs of a parameter list: keywords in small letters, with their values.
pub type Pairs = Seq<(Seq<char>, Seq<char>)>;

/// The value of the first pair with `key`.
pub open spec fn lookup(pairs: Pairs, key: Seq<char>) -> Option<Seq<char>>
    decreases pairs.len(),
{
    if pairs.len() == 0 {
        None
    } else if pairs[0].0 == key {
        Some(pairs[0].1)
    } else {
        lookup(pairs.drop_first(), key)
    }
}

/// `pairs` with `key` added at the end, unless it is there already.
pub open spec fn added(pairs: Pairs, key: Seq<char>, value: Seq<char>) -> Pairs {
    if lookup(pairs, key) is Some {
        pairs
    } else {
        pairs.push((key, value))
    }
}

/// `pairs` with every pair of `more` added whose keyword is not there yet.
pub open spec fn merged(pairs: Pairs, more: Pairs) -> Pairs
    decreases more.len(),
{
    if more.len() == 0 {
        pairs
    } else {
        added(merged(pairs, more.drop_last()), more.last().0, more.last().1)
    }
}

/// `pairs` without `key`.
pub open spec fn without(pairs: Pairs, key: Seq<char>) -> Pairs
    decreases pairs.len(),
{
    if pairs.len() == 0 {
        pairs
    } else if pairs.last().0 == key {
        without(pairs.drop_last(), key)
    } else {
        without(pairs.drop_last(), key).push(pairs.last())
    }
}

/// The first index at or after `i` that holds `c`, or the end of `s`.
pub open spec fn index_of(s: Seq<char>, i: int, c: char) -> int
    decreases s.len() - i,
{
    if i >= s.len() {
        s.len() as int
    } else if s[i] == c {
        i
    } else {
        index_of(s, i + 1, c)
    }
}

/// The pairs of the connection string `s` from `i` on, added to `pairs`. A pair
/// runs to the next semicolon; a value in braces runs to the closing brace.
/// What holds no equals sign names no value and is passed over.
pub open spec fn parsed_from(s: Seq<char>, i: int, pairs: Pairs) -> Pairs
    decreases s.len() + 1 - i,
{
    if i < 0 || i >= s.len() {
        pairs
    } else {
        let eq = index_of(s, i, '=');
        let end = index_of(s, i, ';');
        proof {
            lemma_index_of(s, i, '=');
            lemma_index_of(s, i, ';');
        }
        if eq >= end {
            parsed_from(s, end + 1, pairs)
        } else {
            let key = lowercase(trim(s.subrange(i, eq)));
            proof {
                lemma_index_of(s, eq + 2, '}');
                lemma_index_of(s, index_of(s, eq + 2, '}'), ';');
            }
            if eq + 1 < s.len() && s[eq + 1] == '{' {
                let close = index_of(s, eq + 2, '}');
                let value = s.subrange(eq + 2, close);
                parsed_from(s, index_of(s, close, ';') + 1, added(pairs, key, value))
            } else {
                parsed_from(s, end + 1, added(pairs, key, trim(s.subrange(eq + 1, end))))
            }
        }
    }
}

/// Where a character is found lies at or after the start of the search.
pub proof fn lemma_index_of(s: Seq<char>, i: int, c: char)
    ensures
        i <= s.len() ==> i <= index_of(s, i, c) <= s.len(),
        i >= s.len() ==> index_of(s, i, c) == s.len(),
    decreases s.len() - i,
{
    if i < s.len() && s[i] != c {
        lemma_index_of(s, i + 1, c);
    }
}

/// The pairs of the connection string `s`; of a keyword that occurs twice the
/// first occurrence counts.
pub open spec fn parsed(s: Seq<char>) -> Pairs {
    parsed_from(s, 0, Seq::empty())
}

/// What the contracts say of a parameter list.
#[verifier::ext_equal]
pub struct ParamsView {
    pub pairs: Pairs,
    /// Keywords whose values are not to be shown, beside those that look it.
    pub sensitive: Seq<Seq<char>>,
    pub login_timeout: Option<u32>,
    pub connection_timeout: Option<u32>,
}

impl ParamsView {
    /// Nothing but `pairs`.
    pub open spec fn of(pairs: Pairs) -> ParamsView {
        ParamsView { pairs, sensitive: Seq::empty(), login_timeout: None, connection_timeout: None }
    }
}

/// One keyword and its value.
pub struct Pair {
    key: String,
    value: String,
}

/// The parameters of a connection.
pub struct ConnectParams {
    pairs: Vec<Pair>,
    sensitive: Vec<String>,
    login_timeout: Option<u32>,
    connection_timeout: Option<u32>,
}

impl View for ConnectParams {
    type V = ParamsView;

    closed spec fn view(&self) -> ParamsView {
        ParamsView {
            pairs: pairs_view(self.pairs@),
            sensitive: self.sensitive@.map_values(|k: String| k@),
            login_timeout: self.login_timeout,
            connection_timeout: self.connection_timeout,
        }
    }
}

closed spec fn pairs_view(pairs: Seq<Pair>) -> Pairs {
    pairs.map_values(|p: Pair| (p.key@, p.value@))
}

/// The pairs of a list of texts, keywords in small letters, first one counting.
pub open spec fn pairs_of(list: Seq<(String, String)>) -> Pairs
    decreases list.len(),
{
    if list.len() == 0 {
        Seq::empty()
    } else {
        added(
            pairs_of(list.drop_last()),
            lowercase(list.last().0@),
            list.last().1@,
        )
    }
}

proof fn lemma_lookup_skip(pairs: Pairs, key: Seq<char>, n: int)
    requires
        0 <= n <= pairs.len(),
        forall|i: int| 0 <= i < n ==> (#[trigger] pairs[i]).0 != key,
    ensures
        lookup(pairs, key) == lookup(pairs.skip(n), key),
    decreases n,
{
    if n > 0 {
        assert(pairs[0].0 != key);
        assert forall|i: int| 0 <= i < n - 1 implies (#[trigger] pairs.drop_first()[i]).0
            != key by {
            assert(pairs[i + 1].0 != key);
        }
        lemma_lookup_skip(pairs.drop_first(), key, n - 1);
        assert(pairs.drop_first().skip(n - 1) == pairs.skip(n));
    } else {
        assert(pairs.skip(0) == pairs);
    }
}

/// The first index at or after `from` that holds `c`.
fn find_char(s: &[char], from: usize, c: char) -> (r: usize)
    requires
        from <= s@.len(),
    ensures
        r == index_of(s@, from as int, c),
        from <= r <= s@.len(),
{
    let mut i: usize = from;
    while i < s.len()
        invariant
            from <= i <= s@.len(),
            index_of(s@, from as int, c) == index_of(s@, i as int, c),
        decreases s@.len() - i,
    {
        if s[i] == c {
            return i;
        }
        i = i + 1;
    }
    i
}

impl ConnectParams {
    /// No parameters.
    pub fn new() -> (r: ConnectParams)
        ensures
            r@ == ParamsView::of(Seq::empty()),
    {
        let r = ConnectParams {
            pairs: Vec::new(),
            sensitive: Vec::new(),
            login_timeout: None,
            connection_timeout: None,
        };
        assert(r@ == ParamsView::of(Seq::empty()));
        r
    }

    /// The index of the first pair with `key`, which is in small letters.
    fn find(&self, key: &[char]) -> (r: Option<usize>)
        ensures
            match r {
                Some(i) => i < self.pairs@.len() && lookup(self@.pairs, key@) == Some(
                    self.pairs@[i as int].value@,
                ),
                None => lookup(self@.pairs, key@) is None,
            },
    {
        for i in 0..self.pairs.len()
            invariant
                forall|j: int| 0 <= j < i ==> (#[trigger] self@.pairs[j]).0 != key@,
                self@.pairs.len() == self.pairs@.len(),
        {
            let found = spells(key, self.pairs[i].key.as_str());
            assert(self@.pairs[i as int].0 == self.pairs@[i as int].key@);
            if found {
                proof {
                    lemma_lookup_skip(self@.pairs, key@, i as int);
                    assert(self@.pairs.skip(i as int)[0] == self@.pairs[i as int]);
                }
                return Some(i);
            }
        }
        proof {
            lemma_lookup_skip(self@.pairs, key@, self@.pairs.len() as int);
        }
        None
    }

    /// The value of `key`, whatever the case it is written in.
    pub fn get(&self, key: &str) -> (r: Option<&str>)
        ensures
            match r {
                Some(v) => lookup(self@.pairs, lowercase(key@)) == Some(v@),
                None => lookup(self@.pairs, lowercase(key@)) is None,
            },
    {
        let chars = chars_of(key);
        let small = to_lowercase(chars.as_slice());
        match self.find(small.as_slice()) {
            Some(i) => Some(self.pairs[i].value.as_str()),
            None => None,
        }
    }

    /// Adds a pair, unless the keyword is there already.
    fn add_pair(&mut self, key: &[char], value: &[char])
        ensures
            final(self)@ == (ParamsView { pairs: added(old(self)@.pairs, key@, value@), ..old(
                self,
            )@ }),
    {
        if self.find(key).is_none() {
            self.pairs.push(Pair { key: string_of(key), value: string_of(value) });
            assert(self@.pairs == old(self)@.pairs.push((key@, value@)));
        }
        assert(self@ == (ParamsView { pairs: added(old(self)@.pairs, key@, value@), ..old(self)@ }));
    }

    /// The parameters of a connection string.
    pub fn parse(text: &str) -> (r: ConnectParams)
        ensures
            r@ == ParamsView::of(parsed(text@)),
    {
        let chars = chars_of(text);
        let s = chars.as_slice();
        let mut r = ConnectParams::new();
        let mut i: usize = 0;
        while i < s.len()
            invariant
                s@ == text@,
                i <= s@.len(),
                parsed(text@) == parsed_from(s@, i as int, r@.pairs),
                r@ == ParamsView::of(r@.pairs),
            decreases s@.len() + 1 - i,
        {
            proof {
                lemma_index_of(s@, i as int, '=');
                lemma_index_of(s@, i as int, ';');
                reveal_with_fuel(parsed_from, 2);
            }
            let eq = find_char(s, i, '=');
            let end = find_char(s, i, ';');
            if eq >= end {
                i = if end < s.len() { end + 1 } else { end };
            } else {
                let key = to_lowercase(trimmed(vstd::slice::slice_subrange(s, i, eq)));
                if eq + 1 < s.len() && s[eq + 1] == '{' {
                    let close = find_char(s, eq + 2, '}');
                    let next = find_char(s, close, ';');
                    r.add_pair(
                        key.as_slice(),
                        vstd::slice::slice_subrange(s, eq + 2, close),
                    );
                    i = if next < s.len() { next + 1 } else { next };
                } else {
                    r.add_pair(
                        key.as_slice(),
                        trimmed(vstd::slice::slice_subrange(s, eq + 1, end)),
                    );
                    i = if end < s.len() { end + 1 } else { end };
                }
            }
        }
        r
    }

    /// The parameters of a list of keywords and values.
    pub fn from_pairs(list: &Vec<(String, String)>) -> (r: ConnectParams)
        ensures
            r@ == ParamsView::of(pairs_of(list@)),
    {
        let mut r = ConnectParams::new();
        for i in 0..list.len()
            invariant
                r@ == ParamsView::of(pairs_of(list@.take(i as int))),
        {
            let key = chars_of(list[i].0.as_str());
            let value = chars_of(list[i].1.as_str());
            let small = to_lowercase(key.as_slice());
            r.add_pair(small.as_slice(), value.as_slice());
            proof {
                assert(list@.take(i + 1).drop_last() == list@.take(i as int));
                assert(list@.take(i + 1).last() == list@[i as int]);
            }
        }
        assert(list@.take(list@.len() as int) == list@);
        r
    }

    /// Adds the pairs of `other` whose keywords are not there yet.
    pub fn merge(&mut self, other: &ConnectParams)
        ensures
            final(self)@ == (ParamsView {
                pairs: merged(old(self)@.pairs, other@.pairs),
                ..old(self)@
            }),
    {
        let ghost more = other@.pairs;
        assert(more.len() == other.pairs@.len());
        for i in 0..other.pairs.len()
            invariant
                more == other@.pairs,
                more.len() == other.pairs@.len(),
                self@ == (ParamsView {
                    pairs: merged(old(self)@.pairs, more.take(i as int)),
                    ..old(self)@
                }),
        {
            let key = chars_of(other.pairs[i].key.as_str());
            let value = chars_of(other.pairs[i].value.as_str());
            self.add_pair(key.as_slice(), value.as_slice());
            proof {
                assert(more.take(i + 1).drop_last() == more.take(i as int));
                assert(more.take(i + 1).last() == more[i as int]);
                assert(more[i as int] == (key@, value@));
            }
        }
        assert(more.take(more.len() as int) == more);
    }

    /// The same parameters once more.
    pub fn copy(&self) -> (r: ConnectParams)
        ensures
            r@ == self@,
    {
        let mut pairs: Vec<Pair> = Vec::new();
        for i in 0..self.pairs.len()
            invariant
                pairs_view(pairs@) == pairs_view(self.pairs@).take(i as int),
        {
            let ghost before = pairs@;
            pairs.push(
                Pair { key: self.pairs[i].key.clone(), value: self.pairs[i].value.clone() },
            );
            proof {
                let all = pairs_view(self.pairs@);
                assert(pairs_view(pairs@) == pairs_view(before).push(all[i as int]));
                assert(all.take(i + 1) == all.take(i as int).push(all[i as int]));
            }
        }
        let mut sensitive: Vec<String> = Vec::new();
        for i in 0..self.sensitive.len()
            invariant
                sensitive@.map_values(|k: String| k@) == self@.sensitive.take(i as int),
                self@.sensitive == self.sensitive@.map_values(|k: String| k@),
        {
            let ghost before = sensitive@.map_values(|k: String| k@);
            sensitive.push(self.sensitive[i].clone());
            proof {
                let all = self@.sensitive;
                assert(sensitive@.map_values(|k: String| k@) == before.push(all[i as int]));
                assert(all.take(i + 1) == all.take(i as int).push(all[i as int]));
            }
        }
        assert(pairs_view(pairs@) == pairs_view(self.pairs@));
        assert(sensitive@.map_values(|k: String| k@) == self@.sensitive);
        ConnectParams {
            pairs,
            sensitive,
            login_timeout: self.login_timeout,
            connection_timeout: self.connection_timeout,
        }
    }

    /// Sets `key` to `value`, in place of any value it had.
    pub fn insert(&mut self, key: &str, value: &str)
        ensures
            final(self)@ == (ParamsView {
                pairs: without(old(self)@.pairs, lowercase(key@)).push((lowercase(key@), value@)),
                ..old(self)@
            }),
    {
        let chars = chars_of(key);
        let small = to_lowercase(chars.as_slice());
        let mut rest: Vec<Pair> = Vec::new();
        let ghost before = self@.pairs;
        for i in 0..self.pairs.len()
            invariant
                before == self@.pairs,
                before.len() == self.pairs@.len(),
                small@ == lowercase(key@),
                pairs_view(rest@) == without(before.take(i as int), small@),
        {
            let same = spells(small.as_slice(), self.pairs[i].key.as_str());
            proof {
                assert(before.take(i + 1).drop_last() == before.take(i as int));
                assert(before.take(i + 1).last() == before[i as int]);
                assert(before[i as int] == (
                    self.pairs@[i as int].key@,
                    self.pairs@[i as int].value@,
                ));
            }
            if !same {
                let ghost kept = rest@;
                rest.push(
                    Pair {
                        key: self.pairs[i].key.clone(),
                        value: self.pairs[i].value.clone(),
                    },
                );
                assert(pairs_view(rest@) == pairs_view(kept).push(before[i as int]));
            }
        }
        assert(before.take(before.len() as int) == before);
        let ghost kept = rest@;
        rest.push(Pair { key: string_of(small.as_slice()), value: value.to_owned() });
        assert(pairs_view(rest@) == pairs_view(kept).push((small@, value@)));
        self.pairs = rest;
    }

    /// Sets the timeouts the backend may honour, in seconds.
    pub fn set_timeouts(&mut self, login: Option<u32>, connection: Option<u32>)
        ensures
            final(self)@ == (ParamsView {
                login_timeout: login,
                connection_timeout: connection,
                ..old(self)@
            }),
    {
        self.login_timeout = login;
        self.connection_timeout = connection;
    }

    /// The bound on establishing the connection, where the application set one.
    pub fn login_timeout(&self) -> (r: Option<u32>)
        ensures
            r == self@.login_timeout,
    {
        self.login_timeout
    }

    /// The bound on any request, where the application set one.
    pub fn connection_timeout(&self) -> (r: Option<u32>)
        ensures
            r == self@.connection_timeout,
    {
        self.connection_timeout
    }
}

// ---------------------------------------------------------------------------
// Showing parameters
// ---------------------------------------------------------------------------

/// Whether `part` stands somewhere in `whole`.
pub open spec fn has_part(whole: Seq<char>, part: Seq<char>) -> bool {
    exists|i: int|
        0 <= i && i + part.len() <= whole.len() && #[trigger] whole.subrange(i, i + part.len())
            == part
}

/// Whether a keyword names a credential: by its looks, or because the backend
/// declared it.
pub open spec fn is_sensitive(key: Seq<char>, declared: Seq<Seq<char>>) -> bool {
    ||| has_part(key, "pwd"@)
    ||| has_part(key, "password"@)
    ||| has_part(key, "secret"@)
    ||| has_part(key, "token"@)
    ||| declared.contains(key)
}

/// The pairs as they may be shown: credentials hidden.
pub open spec fn described(pairs: Pairs, declared: Seq<Seq<char>>) -> Seq<char>
    decreases pairs.len(),
{
    if pairs.len() == 0 {
        Seq::empty()
    } else {
        let p = pairs.last();
        described(pairs.drop_last(), declared) + p.0 + "="@ + (if is_sensitive(p.0, declared) {
            "***"@
        } else {
            p.1
        }) + ";"@
    }
}

/// Whether a value has to stand in braces to be read back.
pub open spec fn needs_braces(value: Seq<char>) -> bool {
    value.contains(';') || (value.len() > 0 && value[0] == '{') || trim(value) != value
}

/// The pairs as a connection string.
pub open spec fn rendered(pairs: Pairs) -> Seq<char>
    decreases pairs.len(),
{
    if pairs.len() == 0 {
        Seq::empty()
    } else {
        let p = pairs.last();
        rendered(pairs.drop_last()) + p.0 + "="@ + (if needs_braces(p.1) {
            "{"@ + p.1 + "}"@
        } else {
            p.1
        }) + ";"@
    }
}

fn contains_text(whole: &[char], part: &str) -> (r: bool)
    ensures
        r == has_part(whole@, part@),
{
    let small = chars_of(part);
    if small.len() > whole.len() {
        return false;
    }
    let last: usize = whole.len() - small.len();
    let mut i: usize = 0;
    loop
        invariant
            i <= last,
            last + small@.len() == whole@.len(),
            small@ == part@,
            forall|j: int|
                0 <= j < i ==> #[trigger] whole@.subrange(j, j + part@.len()) != part@,
        decreases last - i,
    {
        assert(i + small@.len() <= whole.len());
        if spells(vstd::slice::slice_subrange(whole, i, i + small.len()), part) {
            return true;
        }
        if i == last {
            return false;
        }
        i = i + 1;
    }
}

impl ConnectParams {
    /// Declares keywords whose values are not to be shown.
    pub fn declare_sensitive_keywords(&mut self, keywords: &[&str])
        ensures
            final(self)@ == (ParamsView {
                sensitive: old(self)@.sensitive + keywords@.map_values(
                    |k: &str| lowercase(k@),
                ),
                ..old(self)@
            }),
    {
        let ghost declared = keywords@.map_values(|k: &str| lowercase(k@));
        for i in 0..keywords.len()
            invariant
                declared == keywords@.map_values(|k: &str| lowercase(k@)),
                self@ == (ParamsView {
                    sensitive: old(self)@.sensitive + declared.take(i as int),
                    ..old(self)@
                }),
        {
            let ghost before = self@.sensitive;
            let chars = chars_of(keywords[i]);
            let small = to_lowercase(chars.as_slice());
            self.sensitive.push(string_of(small.as_slice()));
            proof {
                assert(declared.take(i + 1) == declared.take(i as int).push(declared[i as int]));
                assert(self@.sensitive == before.push(declared[i as int]));
                assert(self@.pairs == old(self)@.pairs);
                assert(self@.sensitive == old(self)@.sensitive + declared.take(i + 1));
            }
        }
        assert(declared.take(declared.len() as int) == declared);
    }

    fn is_hidden(&self, key: &str) -> (r: bool)
        ensures
            r == is_sensitive(key@, self@.sensitive),
    {
        let chars = chars_of(key);
        let s = chars.as_slice();
        if contains_text(s, "pwd") || contains_text(s, "password") || contains_text(s, "secret")
            || contains_text(s, "token") {
            return true;
        }
        for i in 0..self.sensitive.len()
            invariant
                forall|j: int| 0 <= j < i ==> (#[trigger] self.sensitive@[j])@ != key@,
        {
            if same_text(self.sensitive[i].as_str(), key) {
                assert(self@.sensitive[i as int] == key@);
                return true;
            }
        }
        assert forall|j: int| 0 <= j < self@.sensitive.len() implies self@.sensitive[j]
            != key@ by {
            assert(self@.sensitive[j] == self.sensitive@[j]@);
        }
        false
    }

    /// The parameters as they may be shown: credentials hidden.
    pub fn describe(&self) -> (r: String)
        ensures
            r@ == described(self@.pairs, self@.sensitive),
    {
        let mut out: Vec<char> = Vec::new();
        let ghost pairs = self@.pairs;
        for i in 0..self.pairs.len()
            invariant
                pairs == self@.pairs,
                pairs.len() == self.pairs@.len(),
                out@ == described(pairs.take(i as int), self@.sensitive),
        {
            let pair = &self.pairs[i];
            proof {
                assert(pairs.take(i + 1).drop_last() == pairs.take(i as int));
                assert(pairs.take(i + 1).last() == pairs[i as int]);
                assert(pairs[i as int] == (pair.key@, pair.value@));
            }
            push_text(&mut out, pair.key.as_str());
            push_text(&mut out, "=");
            if self.is_hidden(pair.key.as_str()) {
                push_text(&mut out, "***");
            } else {
                push_text(&mut out, pair.value.as_str());
            }
            push_text(&mut out, ";");
        }
        assert(pairs.take(pairs.len() as int) == pairs);
        string_of(out.as_slice())
    }

    /// The parameters as a connection string.
    pub fn to_connection_string(&self) -> (r: String)
        ensures
            r@ == rendered(self@.pairs),
    {
        let mut out: Vec<char> = Vec::new();
        let ghost pairs = self@.pairs;
        for i in 0..self.pairs.len()
            invariant
                pairs == self@.pairs,
                pairs.len() == self.pairs@.len(),
                out@ == rendered(pairs.take(i as int)),
        {
            let pair = &self.pairs[i];
            let ghost before = out@;
            proof {
                assert(pairs.take(i + 1).drop_last() == pairs.take(i as int));
                assert(pairs.take(i + 1).last() == pairs[i as int]);
                assert(pairs[i as int] == (pair.key@, pair.value@));
            }
            push_text(&mut out, pair.key.as_str());
            push_text(&mut out, "=");
            if wants_braces(pair.value.as_str()) {
                push_text(&mut out, "{");
                push_text(&mut out, pair.value.as_str());
                push_text(&mut out, "}");
                assert(out@ == before + pair.key@ + "="@ + ("{"@ + pair.value@ + "}"@));
            } else {
                push_text(&mut out, pair.value.as_str());
            }
            push_text(&mut out, ";");
        }
        assert(pairs.take(pairs.len() as int) == pairs);
        string_of(out.as_slice())
    }
}

fn wants_braces(value: &str) -> (r: bool)
    ensures
        r == needs_braces(value@),
{
    let chars = chars_of(value);
    let s = chars.as_slice();
    if find_char(s, 0, ';') < s.len() {
        proof {
            lemma_found(s@, 0, ';');
        }
        return true;
    }
    proof {
        lemma_found(s@, 0, ';');
    }
    if s.len() > 0 && s[0] == '{' {
        return true;
    }
    !spells(trimmed(s), value)
}

proof fn lemma_found(s: Seq<char>, i: int, c: char)
    requires
        0 <= i <= s.len(),
    ensures
        index_of(s, i, c) < s.len() ==> s.contains(c),
        index_of(s, i, c) == s.len() ==> (forall|j: int| i <= j < s.len() ==> s[j] != c),
    decreases s.len() - i,
{
    if i < s.len() {
        if s[i] == c {
            assert(s.contains(s[i]));
        } else {
            lemma_found(s, i + 1, c);
        }
    }
}

// ---------------------------------------------------------------------------
// Laws
// ---------------------------------------------------------------------------

/// A pair at the end is found where nothing before it has its keyword.
pub proof fn lemma_lookup_push(pairs: Pairs, p: (Seq<char>, Seq<char>), key: Seq<char>)
    ensures
        lookup(pairs.push(p), key) == (if lookup(pairs, key) is Some {
            lookup(pairs, key)
        } else if p.0 == key {
            Some(p.1)
        } else {
            None
        }),
    decreases pairs.len(),
{
    if pairs.len() > 0 {
        lemma_lookup_push(pairs.drop_first(), p, key);
        assert(pairs.push(p).drop_first() == pairs.drop_first().push(p));
    } else {
        assert(pairs.push(p).drop_first() == Seq::<(Seq<char>, Seq<char>)>::empty());
        reveal_with_fuel(lookup, 2);
    }
}

/// In a merge a value that is there already is kept; only keywords that are
/// not there take the other list's value.
pub proof fn law_merge_keeps_what_is_there(pairs: Pairs, more: Pairs, key: Seq<char>)
    ensures
        lookup(merged(pairs, more), key) == (if lookup(pairs, key) is Some {
            lookup(pairs, key)
        } else {
            lookup(more, key)
        }),
    decreases more.len(),
{
    if more.len() > 0 {
        law_merge_keeps_what_is_there(pairs, more.drop_last(), key);
        law_merge_keeps_what_is_there(pairs, more.drop_last(), more.last().0);
        lemma_lookup_push(merged(pairs, more.drop_last()), more.last(), key);
        lemma_lookup_push(more.drop_last(), more.last(), key);
        assert(more.drop_last().push(more.last()) == more);
    }
}

proof fn lemma_lookup_without(pairs: Pairs, gone: Seq<char>, key: Seq<char>)
    ensures
        lookup(without(pairs, gone), key) == (if key == gone {
            None
        } else {
            lookup(pairs, key)
        }),
    decreases pairs.len(),
{
    if pairs.len() > 0 {
        lemma_lookup_without(pairs.drop_last(), gone, key);
        lemma_lookup_push(pairs.drop_last(), pairs.last(), key);
        assert(pairs.drop_last().push(pairs.last()) == pairs);
        lemma_lookup_push(without(pairs.drop_last(), gone), pairs.last(), key);
    }
}

/// A value that is set is the one found, and no other keyword is touched.
pub proof fn law_insert_sets_one_value(
    pairs: Pairs,
    set: Seq<char>,
    value: Seq<char>,
    key: Seq<char>,
)
    ensures
        lookup(without(pairs, set).push((set, value)), key) == (if key == set {
            Some(value)
        } else {
            lookup(pairs, key)
        }),
{
    lemma_lookup_without(pairs, set, key);
    lemma_lookup_push(without(pairs, set), (set, value), key);
}

/// What is shown of the parameters does not depend on the credentials: lists
/// that differ in the values of sensitive keywords alone look the same.
pub proof fn law_credentials_do_not_show(a: Pairs, b: Pairs, declared: Seq<Seq<char>>)
    requires
        a.len() == b.len(),
        forall|i: int|
            0 <= i < a.len() ==> (#[trigger] a[i]).0 == b[i].0 && (a[i].1 == b[i].1 || is_sensitive(
                a[i].0,
                declared,
            )),
    ensures
        described(a, declared) == described(b, declared),
    decreases a.len(),
{
    if a.len() > 0 {
        assert(a.last() == a[a.len() - 1] && b.last() == b[b.len() - 1]);
        assert forall|i: int| 0 <= i < a.drop_last().len() implies (#[trigger] a.drop_last()[i]).0
            == b.drop_last()[i].0 && (a.drop_last()[i].1 == b.drop_last()[i].1 || is_sensitive(
            a.drop_last()[i].0,
            declared,
        )) by {
            assert(a.drop_last()[i] == a[i]);
        }
        law_credentials_do_not_show(a.drop_last(), b.drop_last(), declared);
    }
}

proof fn lemma_index_is(s: Seq<char>, i: int, j: int, c: char)
    requires
        0 <= i <= j < s.len(),
        s[j] == c,
        forall|k: int| i <= k < j ==> s[k] != c,
    ensures
        index_of(s, i, c) == j,
    decreases j - i,
{
    if i < j {
        lemma_index_is(s, i + 1, j, c);
    }
}

/// Whether a keyword can be read back from a connection string: it is in small
/// letters, holds neither an equals sign nor a semicolon, and has no white space at
/// its ends.
pub open spec fn is_keyword(key: Seq<char>) -> bool {
    &&& forall|i: int|
        0 <= i < key.len() ==> #[trigger] key[i] != '=' && key[i] != ';' && !('A' <= key[i] <= 'Z')
    &&& key.len() > 0 ==> !is_whitespace(key[0]) && !is_whitespace(key.last())
}

/// One pair as it stands in a connection string.
#[verifier::opaque]
spec fn written(p: (Seq<char>, Seq<char>)) -> Seq<char> {
    p.0 + "="@ + (if needs_braces(p.1) {
        "{"@ + p.1 + "}"@
    } else {
        p.1
    }) + ";"@
}

/// The parts of a pair in a connection string, by their places.
proof fn lemma_pair_layout(
    t: Seq<char>,
    a: Seq<char>,
    p: (Seq<char>, Seq<char>),
    b: Seq<char>,
)
    requires
        t == a + written(p) + b,
    ensures
        ({
            let i = a.len() as int;
            let eq = i + p.0.len();
            let value = if needs_braces(p.1) {
                eq + 2
            } else {
                eq + 1
            };
            let end = (a + written(p)).len() - 1;
            &&& end < t.len()
            &&& t.subrange(i, eq) == p.0
            &&& t[eq] == '='
            &&& t.subrange(value, value + p.1.len()) == p.1
            &&& t[end] == ';'
            &&& needs_braces(p.1) ==> t[eq + 1] == '{' && t[value + p.1.len()] == '}' && end
                == value + p.1.len() + 1
            &&& !needs_braces(p.1) ==> end == value + p.1.len()
        }),
{
    reveal(written);
    reveal_strlit("=");
    reveal_strlit("{");
    reveal_strlit("}");
    reveal_strlit(";");
    let i = a.len() as int;
    let eq = i + p.0.len();
    assert(t.subrange(i, eq) =~= p.0);
    if needs_braces(p.1) {
        assert(t.subrange(eq + 2, eq + 2 + p.1.len()) =~= p.1);
    } else {
        assert(t.subrange(eq + 1, eq + 1 + p.1.len()) =~= p.1);
    }
}

proof fn lemma_keyword_is_read(key: Seq<char>)
    requires
        is_keyword(key),
    ensures
        lowercase(trim(key)) == key,
{
    crate::text::law_trimming_takes_the_white_space_around(Seq::empty(), key, Seq::empty());
    assert(lowercase(key) =~= key) by {
        assert forall|k: int| 0 <= k < key.len() implies lowercase(key)[k] == key[k] by {
            crate::text::law_small_letters(key, k);
        }
    }
}

/// A value that stands by itself, up to the semicolon at `end`.
proof fn lemma_plain_value_is_read(
    t: Seq<char>,
    i: int,
    eq: int,
    end: int,
    key: Seq<char>,
    value: Seq<char>,
    acc: Pairs,
)
    requires
        0 <= i <= eq < end < t.len(),
        is_keyword(key),
        !needs_braces(value),
        t.subrange(i, eq) == key,
        t[eq] == '=',
        t.subrange(eq + 1, end) == value,
        t[end] == ';',
    ensures
        parsed_from(t, i, acc) == parsed_from(t, end + 1, added(acc, key, value)),
{
    lemma_keyword_is_read(key);
    assert forall|k: int| i <= k < eq implies t[k] != '=' && t[k] != ';' by {
        assert(t[k] == key[k - i]);
    }
    lemma_index_is(t, i, eq, '=');
    assert forall|k: int| i <= k < end implies t[k] != ';' by {
        if k > eq {
            assert(t[k] == value[k - eq - 1]);
            assert(value.contains(value[k - eq - 1]));
        }
    }
    lemma_index_is(t, i, end, ';');
    if value.len() > 0 {
        assert(t[eq + 1] == value[0]);
    }
}

/// A value in braces, with the semicolon at `end` behind them.
proof fn lemma_braced_value_is_read(
    t: Seq<char>,
    i: int,
    eq: int,
    end: int,
    key: Seq<char>,
    value: Seq<char>,
    acc: Pairs,
)
    requires
        0 <= i <= eq,
        eq + 2 <= end - 1,
        end < t.len(),
        is_keyword(key),
        !value.contains('}'),
        t.subrange(i, eq) == key,
        t[eq] == '=',
        t[eq + 1] == '{',
        t.subrange(eq + 2, end - 1) == value,
        t[end - 1] == '}',
        t[end] == ';',
    ensures
        parsed_from(t, i, acc) == parsed_from(t, end + 1, added(acc, key, value)),
{
    lemma_keyword_is_read(key);
    assert forall|k: int| i <= k < eq implies t[k] != '=' && t[k] != ';' by {
        assert(t[k] == key[k - i]);
    }
    lemma_index_is(t, i, eq, '=');
    assert forall|k: int| eq + 2 <= k < end - 1 implies t[k] != '}' by {
        assert(t[k] == value[k - eq - 2]);
        assert(value.contains(value[k - eq - 2]));
    }
    lemma_index_is(t, eq + 2, end - 1, '}');
    lemma_index_is(t, end - 1, end, ';');
    lemma_first_is_later(t, i, eq, ';');
}

proof fn lemma_pair_is_read(
    t: Seq<char>,
    a: Seq<char>,
    p: (Seq<char>, Seq<char>),
    b: Seq<char>,
    acc: Pairs,
)
    requires
        t == a + written(p) + b,
        is_keyword(p.0),
        !p.1.contains('}'),
    ensures
        parsed_from(t, a.len() as int, acc) == parsed_from(
            t,
            (a + written(p)).len() as int,
            added(acc, p.0, p.1),
        ),
{
    let i = a.len() as int;
    let eq = i + p.0.len();
    let end = (a + written(p)).len() - 1;
    lemma_pair_layout(t, a, p, b);
    if needs_braces(p.1) {
        lemma_braced_value_is_read(t, i, eq, end, p.0, p.1, acc);
    } else {
        lemma_plain_value_is_read(t, i, eq, end, p.0, p.1, acc);
    }
}

proof fn lemma_first_is_later(s: Seq<char>, i: int, j: int, c: char)
    requires
        0 <= i <= j < s.len(),
        forall|k: int| i <= k <= j ==> s[k] != c,
    ensures
        index_of(s, i, c) > j,
    decreases j - i,
{
    if i < j {
        lemma_first_is_later(s, i + 1, j, c);
    } else {
        lemma_index_of(s, i + 1, c);
    }
}

proof fn lemma_rendered_next(pairs: Pairs, n: int)
    requires
        0 <= n < pairs.len(),
    ensures
        rendered(pairs.take(n + 1)) == rendered(pairs.take(n)) + written(pairs[n]),
{
    reveal(written);
    let with = pairs.take(n + 1);
    assert(with.drop_last() == pairs.take(n));
    assert(with.last() == pairs[n]);
    assert(rendered(with) =~= rendered(pairs.take(n)) + written(pairs[n]));
}

proof fn lemma_rendered_front(pairs: Pairs, n: int)
    requires
        0 <= n <= pairs.len(),
    ensures
        rendered(pairs.take(n)).is_prefix_of(rendered(pairs)),
    decreases pairs.len() - n,
{
    if n < pairs.len() {
        lemma_rendered_front(pairs, n + 1);
        lemma_rendered_next(pairs, n);
        let short = rendered(pairs.take(n));
        let long = rendered(pairs.take(n + 1));
        assert(long.take(short.len() as int) == short);
        assert(rendered(pairs).take(short.len() as int) == long.take(short.len() as int));
    } else {
        assert(pairs.take(n) == pairs);
    }
}

proof fn lemma_rendered_is_parsed(pairs: Pairs, n: int)
    requires
        0 <= n <= pairs.len(),
        forall|i: int|
            0 <= i < pairs.len() ==> is_keyword((#[trigger] pairs[i]).0) && !pairs[i].1.contains(
                '}',
            ),
    ensures
        parsed(rendered(pairs)) == parsed_from(
            rendered(pairs),
            rendered(pairs.take(n)).len() as int,
            merged(Seq::empty(), pairs.take(n)),
        ),
    decreases n,
{
    if n > 0 {
        lemma_rendered_is_parsed(pairs, n - 1);
        let t = rendered(pairs);
        let front = pairs.take(n - 1);
        let with = pairs.take(n);
        assert(with.drop_last() == front);
        assert(with.last() == pairs[n - 1]);
        let a = rendered(front);
        lemma_rendered_front(pairs, n);
        lemma_rendered_next(pairs, n - 1);
        let w = a + written(pairs[n - 1]);
        let b = t.skip(w.len() as int);
        assert(t == w + b);
        assert(is_keyword(pairs[n - 1].0));
        lemma_pair_is_read(t, a, pairs[n - 1], b, merged(Seq::empty(), front));
    } else {
        assert(pairs.take(0) == Seq::<(Seq<char>, Seq<char>)>::empty());
    }
}

/// Parameters that are written as a connection string are read back from it, every
/// keyword with its value, credentials included.
pub proof fn law_a_connection_string_reads_back(pairs: Pairs, key: Seq<char>)
    requires
        forall|i: int|
            0 <= i < pairs.len() ==> is_keyword((#[trigger] pairs[i]).0) && !pairs[i].1.contains(
                '}',
            ),
    ensures
        lookup(parsed(rendered(pairs)), key) == lookup(pairs, key),
{
    lemma_rendered_is_parsed(pairs, pairs.len() as int);
    assert(pairs.take(pairs.len() as int) == pairs);
    law_merge_keeps_what_is_there(Seq::empty(), pairs, key);
}

/// A pair in a connection string is found by its keyword, whatever the case and the
/// white space around it.
pub proof fn law_a_pair_is_found_by_its_keyword(key: Seq<char>, value: Seq<char>)
    requires
        forall|i: int| 0 <= i < key.len() ==> #[trigger] key[i] != '=' && key[i] != ';',
        key.len() > 0 && !is_whitespace(key[0]) && !is_whitespace(key.last()),
        forall|i: int| 0 <= i < value.len() ==> #[trigger] value[i] != ';' && value[i] != '{',
        value.len() > 0 && !is_whitespace(value[0]) && !is_whitespace(value.last()),
    ensures
        lookup(
            parsed(seq![' '] + key + seq![' ', '=', ' '] + value + seq![' ', ';']),
            lowercase(key),
        ) == Some(value),
        lookup(parsed(key + seq!['='] + value), lowercase(key)) == Some(value),
{
    let one = key + seq!['='] + value;
    let n = key.len() as int;
    assert forall|k: int| 0 <= k < n implies one[k] == key[k] by {}
    assert forall|k: int| 0 <= k < value.len() implies one[n + 1 + k] == value[k] by {}
    assert(one[n] == '=');
    lemma_index_is(one, 0, n, '=');
    lemma_nowhere(one, 0, ';');
    assert(one.subrange(0, n) == key);
    assert(one.subrange(n + 1, one.len() as int) == value);
    crate::text::law_trimming_takes_the_white_space_around(Seq::empty(), key, Seq::empty());
    crate::text::law_trimming_takes_the_white_space_around(Seq::empty(), value, Seq::empty());
    let none = Seq::<(Seq<char>, Seq<char>)>::empty();
    reveal_with_fuel(parsed_from, 3);
    reveal_with_fuel(lookup, 3);
    assert(parsed(one) == none.push((lowercase(key), value)));

    let two = seq![' '] + key + seq![' ', '=', ' '] + value + seq![' ', ';'];
    let m = n + 2;
    assert forall|k: int| 0 <= k < n implies two[1 + k] == key[k] by {}
    assert forall|k: int| 0 <= k < value.len() implies two[m + 2 + k] == value[k] by {}
    assert(two[m] == '=');
    lemma_index_is(two, 0, m, '=');
    let end = two.len() - 1;
    assert forall|k: int| 0 <= k < end implies two[k] != ';' by {
        if 1 <= k < 1 + n {
            assert(two[k] == key[k - 1]);
        } else if m + 2 <= k < m + 2 + value.len() {
            assert(two[k] == value[k - m - 2]);
        }
    }
    assert(two[end] == ';');
    lemma_index_is(two, 0, end, ';');
    assert(two.subrange(0, m) == seq![' '] + key + seq![' ']);
    assert(two.subrange(m + 1, end) == seq![' '] + value + seq![' ']);
    assert(two[m + 1] == ' ');
    crate::text::law_trimming_takes_the_white_space_around(seq![' '], key, seq![' ']);
    crate::text::law_trimming_takes_the_white_space_around(seq![' '], value, seq![' ']);
    assert(parsed(two) == none.push((lowercase(key), value)));
}

proof fn lemma_nowhere(s: Seq<char>, i: int, c: char)
    requires
        0 <= i <= s.len(),
        forall|k: int| i <= k < s.len() ==> s[k] != c,
    ensures
        index_of(s, i, c) == s.len(),
    decreases s.len() - i,
{
    if i < s.len() {
        lemma_nowhere(s, i + 1, c);
    }
}

/// A keyword that holds `pwd`, `password`, `secret` or `token`, wherever, or that
/// the backend declared, has its value hidden; any other has it shown.
pub proof fn law_which_values_are_hidden(
    front: Seq<char>,
    back: Seq<char>,
    value: Seq<char>,
    declared: Seq<Seq<char>>,
    own: Seq<char>,
)
    requires
        declared.contains(own),
    ensures
        ({
            let shown = |key: Seq<char>, v: Seq<char>| described(seq![(key, v)], declared);
            let hidden = |key: Seq<char>| shown(key, value) == key + "=***;"@;
            &&& hidden(front + "pwd"@ + back)
            &&& hidden(front + "password"@ + back)
            &&& hidden(front + "secret"@ + back)
            &&& hidden(front + "token"@ + back)
            &&& hidden(own)
        }),
{
    lemma_hidden(front, "pwd"@, back, value, declared);
    lemma_hidden(front, "password"@, back, value, declared);
    lemma_hidden(front, "secret"@, back, value, declared);
    lemma_hidden(front, "token"@, back, value, declared);
    lemma_shown(own, value, declared);
}

proof fn lemma_hidden(
    front: Seq<char>,
    part: Seq<char>,
    back: Seq<char>,
    value: Seq<char>,
    declared: Seq<Seq<char>>,
)
    requires
        part == "pwd"@ || part == "password"@ || part == "secret"@ || part == "token"@,
    ensures
        described(seq![(front + part + back, value)], declared) == front + part + back + "=***;"@,
{
    let key = front + part + back;
    let i = front.len() as int;
    assert(key.subrange(i, i + part.len()) == part);
    assert(has_part(key, part));
    lemma_shown(key, value, declared);
}

proof fn lemma_shown(key: Seq<char>, value: Seq<char>, declared: Seq<Seq<char>>)
    ensures
        is_sensitive(key, declared) ==> described(seq![(key, value)], declared) == key + "=***;"@,
        !is_sensitive(key, declared) ==> described(seq![(key, value)], declared) == key + "="@
            + value + ";"@,
{
    let one = seq![(key, value)];
    reveal_with_fuel(described, 2);
    reveal_strlit("=");
    reveal_strlit("***");
    reveal_strlit(";");
    reveal_strlit("=***;");
    assert(one.drop_last() == Seq::<(Seq<char>, Seq<char>)>::empty());
    assert(one.last() == (key, value));
    assert(described(one, declared) =~= Seq::<char>::empty() + key + "="@ + (if is_sensitive(
        key,
        declared,
    ) {
        "***"@
    } else {
        value
    }) + ";"@);
    assert(Seq::<char>::empty() + key =~= key);
    assert(key + "="@ + "***"@ + ";"@ =~= key + "=***;"@);
}

/// A keyword of which no part is one of those words, and that was not declared, is
/// shown with its value.
pub proof fn law_other_values_are_shown(
    key: Seq<char>,
    value: Seq<char>,
    declared: Seq<Seq<char>>,
)
    requires
        !declared.contains(key),
        forall|i: int, j: int|
            0 <= i <= j <= key.len() ==> ({
                let part = #[trigger] key.subrange(i, j);
                part != "pwd"@ && part != "password"@ && part != "secret"@ && part != "token"@
            }),
    ensures
        described(seq![(key, value)], declared) == key + "="@ + value + ";"@,
{
    lemma_shown(key, value, declared);
}

/// The keywords of parameters are in small letters, wherever they come from, and a
/// merge keeps them so.
pub proof fn law_keywords_are_in_small_letters(
    s: Seq<char>,
    list: Seq<(String, String)>,
    a: Pairs,
    b: Pairs,
)
    requires
        all_small(a),
        all_small(b),
    ensures
        all_small(parsed(s)),
        all_small(pairs_of(list)),
        all_small(merged(a, b)),
{
    lemma_parsed_keys(s, 0, Seq::empty());
    lemma_listed_keys(list);
    lemma_merged_keys(a, b);
}

proof fn lemma_merged_keys(a: Pairs, b: Pairs)
    requires
        all_small(a),
        all_small(b),
    ensures
        all_small(merged(a, b)),
    decreases b.len(),
{
    if b.len() > 0 {
        assert forall|i: int| 0 <= i < b.drop_last().len() implies lowercase(
            (#[trigger] b.drop_last()[i]).0,
        ) == b.drop_last()[i].0 by {
            assert(b.drop_last()[i] == b[i]);
        }
        lemma_merged_keys(a, b.drop_last());
        assert(b.last() == b[b.len() - 1]);
    }
}

/// Whether all keywords are in small letters.
pub open spec fn all_small(pairs: Pairs) -> bool {
    forall|i: int| 0 <= i < pairs.len() ==> lowercase((#[trigger] pairs[i]).0) == pairs[i].0
}

proof fn lemma_lowercase_twice(s: Seq<char>)
    ensures
        lowercase(lowercase(s)) == lowercase(s),
{
    if s.len() > 0 {
        crate::text::law_small_letters(s, 0);
    } else {
        assert(lowercase(lowercase(s)) =~= lowercase(s));
    }
}

proof fn lemma_parsed_keys(s: Seq<char>, i: int, pairs: Pairs)
    requires
        all_small(pairs),
    ensures
        all_small(parsed_from(s, i, pairs)),
    decreases s.len() + 1 - i,
{
    if 0 <= i < s.len() {
        let eq = index_of(s, i, '=');
        let end = index_of(s, i, ';');
        lemma_index_of(s, i, '=');
        lemma_index_of(s, i, ';');
        if eq >= end {
            lemma_parsed_keys(s, end + 1, pairs);
        } else {
            lemma_lowercase_twice(trim(s.subrange(i, eq)));
            lemma_index_of(s, eq + 2, '}');
            lemma_index_of(s, index_of(s, eq + 2, '}'), ';');
            let key = lowercase(trim(s.subrange(i, eq)));
            if eq + 1 < s.len() && s[eq + 1] == '{' {
                let close = index_of(s, eq + 2, '}');
                lemma_parsed_keys(
                    s,
                    index_of(s, close, ';') + 1,
                    added(pairs, key, s.subrange(eq + 2, close)),
                );
            } else {
                lemma_parsed_keys(s, end + 1, added(pairs, key, trim(s.subrange(eq + 1, end))));
            }
        }
    }
}

proof fn lemma_listed_keys(list: Seq<(String, String)>)
    ensures
        all_small(pairs_of(list)),
    decreases list.len(),
{
    if list.len() > 0 {
        lemma_listed_keys(list.drop_last());
        lemma_lowercase_twice(list.last().0@);
    }
}

proof fn lemma_what_is_there_stays(s: Seq<char>, i: int, pairs: Pairs, key: Seq<char>)
    requires
        lookup(pairs, key) is Some,
    ensures
        lookup(parsed_from(s, i, pairs), key) == lookup(pairs, key),
    decreases s.len() + 1 - i,
{
    if 0 <= i < s.len() {
        let eq = index_of(s, i, '=');
        let end = index_of(s, i, ';');
        lemma_index_of(s, i, '=');
        lemma_index_of(s, i, ';');
        if eq >= end {
            lemma_what_is_there_stays(s, end + 1, pairs, key);
        } else {
            let k = lowercase(trim(s.subrange(i, eq)));
            lemma_index_of(s, eq + 2, '}');
            lemma_index_of(s, index_of(s, eq + 2, '}'), ';');
            if eq + 1 < s.len() && s[eq + 1] == '{' {
                let close = index_of(s, eq + 2, '}');
                let value = s.subrange(eq + 2, close);
                lemma_lookup_push(pairs, (k, value), key);
                lemma_what_is_there_stays(
                    s,
                    index_of(s, close, ';') + 1,
                    added(pairs, k, value),
                    key,
                );
            } else {
                let value = trim(s.subrange(eq + 1, end));
                lemma_lookup_push(pairs, (k, value), key);
                lemma_what_is_there_stays(s, end + 1, added(pairs, k, value), key);
            }
        }
    }
}

/// Of a keyword that is given twice the first value counts, whatever follows it in the
/// connection string.
pub proof fn law_the_first_value_counts(key: Seq<char>, value: Seq<char>, rest: Seq<char>)
    requires
        is_keyword(key),
        !value.contains('}'),
    ensures
        lookup(parsed(rendered(seq![(key, value)]) + rest), key) == Some(value),
{
    let none = Seq::<(Seq<char>, Seq<char>)>::empty();
    let p = (key, value);
    lemma_rendered_next(seq![p], 0);
    assert(seq![p].take(1) =~= seq![p]);
    assert(seq![p].take(0) =~= none);
    assert(rendered(none) =~= Seq::<char>::empty());
    assert(rendered(seq![p]) =~= written(p));
    let t = written(p) + rest;
    assert(none.len() == 0);
    assert(Seq::<char>::empty() + written(p) + rest =~= t);
    lemma_pair_is_read(t, Seq::empty(), p, rest, none);
    lemma_lookup_push(none, p, key);
    lemma_what_is_there_stays(
        t,
        (Seq::<char>::empty() + written(p)).len() as int,
        none.push(p),
        key,
    );
}

} // verus!
