//! Text building blocks: characters, trimming, comparison.

use vstd::prelude::*;

verus! {

/// `String::push` appends the given character to the end of the text.
pub assume_specification[ String::push ](s: &mut String, c: char)
    ensures
        final(s)@ == old(s)@.push(c),
;

/// The characters of `s`, in order.
pub fn chars_of(s: &str) -> (r: Vec<char>)
    ensures
        r@ == s@,
{
    let mut r: Vec<char> = Vec::new();
    for c in it: s.chars()
        invariant
            it.seq() == s@,
            r@ == s@.take(it.index()),
    {
        r.push(c);
        assert(s@.take(it.index() + 1) == s@.take(it.index()).push(c));
    }
    assert(s@.take(s@.len() as int) == s@);
    r
}

/// The text made of `chars`.
pub fn string_of(chars: &[char]) -> (r: String)
    ensures
        r@ == chars@,
{
    let mut r = String::new();
    for i in 0..chars.len()
        invariant
            r@ == chars@.take(i as int),
    {
        r.push(chars[i]);
        assert(chars@.take(i + 1) == chars@.take(i as int).push(chars[i as int]));
    }
    assert(chars@.take(chars@.len() as int) == chars@);
    r
}

/// Appends `more` to `out`.
pub fn push_all(out: &mut Vec<char>, more: &[char])
    ensures
        final(out)@ == old(out)@ + more@,
{
    let ghost before = out@;
    for i in 0..more.len()
        invariant
            out@ == before + more@.take(i as int),
    {
        out.push(more[i]);
        assert(before + more@.take(i + 1) == (before + more@.take(i as int)).push(more[i as int]));
    }
    assert(more@.take(more@.len() as int) == more@);
}

/// Appends the characters of `more` to `out`.
pub fn push_text(out: &mut Vec<char>, more: &str)
    ensures
        final(out)@ == old(out)@ + more@,
{
    let chars = chars_of(more);
    push_all(out, chars.as_slice());
}

/// Whether `chars` spells `text`.
pub fn spells(chars: &[char], text: &str) -> (r: bool)
    ensures
        r == (chars@ == text@),
{
    let other = chars_of(text);
    if chars.len() != other.len() {
        return false;
    }
    for i in 0..chars.len()
        invariant
            chars@.len() == other@.len(),
            other@ == text@,
            forall|j: int| 0 <= j < i ==> chars@[j] == other@[j],
    {
        if chars[i] != other[i] {
            assert(chars@ != text@);
            return false;
        }
    }
    assert(chars@ == text@);
    true
}

/// Whether two texts are the same, character for character.
pub fn same_text(a: &str, b: &str) -> (r: bool)
    ensures
        r == (a@ == b@),
{
    let chars = chars_of(a);
    spells(chars.as_slice(), b)
}

/// The characters Unicode calls white space.
pub open spec fn is_whitespace(c: char) -> bool {
    let u = c as u32;
    ||| 0x9 <= u <= 0xd
    ||| u == 0x20
    ||| u == 0x85
    ||| u == 0xa0
    ||| u == 0x1680
    ||| 0x2000 <= u <= 0x200a
    ||| u == 0x2028
    ||| u == 0x2029
    ||| u == 0x202f
    ||| u == 0x205f
    ||| u == 0x3000
}

/// Whether `c` is white space.
pub fn whitespace(c: char) -> (r: bool)
    ensures
        r == is_whitespace(c),
{
    let u: u32 = c as u32;
    (0x9 <= u && u <= 0xd) || u == 0x20 || u == 0x85 || u == 0xa0 || u == 0x1680 || (0x2000 <= u
        && u <= 0x200a) || u == 0x2028 || u == 0x2029 || u == 0x202f || u == 0x205f || u == 0x3000
}

/// ASCII letters and digits.
pub open spec fn is_alphanumeric(c: char) -> bool {
    ('0' <= c <= '9') || ('A' <= c <= 'Z') || ('a' <= c <= 'z')
}

/// Whether `c` is an ASCII letter or digit.
pub fn alphanumeric(c: char) -> (r: bool)
    ensures
        r == is_alphanumeric(c),
{
    ('0' <= c && c <= '9') || ('A' <= c && c <= 'Z') || ('a' <= c && c <= 'z')
}

/// An ASCII capital as its small letter, any other character as it is.
pub open spec fn lower(c: char) -> char {
    if 'A' <= c <= 'Z' {
        (c as u8 + 32) as u8 as char
    } else {
        c
    }
}

/// An ASCII capital as its small letter, any other character as it is.
pub fn to_lower(c: char) -> (r: char)
    ensures
        r == lower(c),
{
    if 'A' <= c && c <= 'Z' {
        (c as u8 + 32) as char
    } else {
        c
    }
}

/// `s` with every ASCII capital made small.
pub open spec fn lowercase(s: Seq<char>) -> Seq<char> {
    s.map_values(|c: char| lower(c))
}

/// `chars` with every ASCII capital made small.
pub fn to_lowercase(chars: &[char]) -> (r: Vec<char>)
    ensures
        r@ == lowercase(chars@),
{
    let mut r: Vec<char> = Vec::new();
    for i in 0..chars.len()
        invariant
            r@ == lowercase(chars@.take(i as int)),
    {
        r.push(to_lower(chars[i]));
        assert(lowercase(chars@.take(i + 1)) == lowercase(chars@.take(i as int)).push(
            lower(chars[i as int]),
        ));
    }
    assert(chars@.take(chars@.len() as int) == chars@);
    r
}

/// Whether two texts differ at most in the case of ASCII letters.
pub fn same_ignoring_case(a: &str, b: &str) -> (r: bool)
    ensures
        r == (lowercase(a@) == lowercase(b@)),
{
    let x = chars_of(a);
    let y = chars_of(b);
    let small_x = to_lowercase(x.as_slice());
    let small_y = to_lowercase(y.as_slice());
    let text = string_of(small_y.as_slice());
    spells(small_x.as_slice(), text.as_str())
}

/// `s` without the white space in front.
pub open spec fn trim_start(s: Seq<char>) -> Seq<char>
    decreases s.len(),
{
    if s.len() > 0 && is_whitespace(s[0]) {
        trim_start(s.drop_first())
    } else {
        s
    }
}

/// `s` without the white space at the end.
pub open spec fn trim_end(s: Seq<char>) -> Seq<char>
    decreases s.len(),
{
    if s.len() > 0 && is_whitespace(s.last()) {
        trim_end(s.drop_last())
    } else {
        s
    }
}

/// `s` without the white space at either end.
pub open spec fn trim(s: Seq<char>) -> Seq<char> {
    trim_end(trim_start(s))
}

/// `chars` without the white space in front.
pub fn trimmed_start<'a>(chars: &'a [char]) -> (r: &'a [char])
    ensures
        r@ == trim_start(chars@),
{
    let mut i: usize = 0;
    assert(chars@.subrange(0, chars@.len() as int) == chars@);
    while i < chars.len() && whitespace(chars[i])
        invariant
            i <= chars@.len(),
            trim_start(chars@) == trim_start(chars@.subrange(i as int, chars@.len() as int)),
        decreases chars@.len() - i,
    {
        assert(chars@.subrange(i as int, chars@.len() as int).drop_first() == chars@.subrange(
            i + 1,
            chars@.len() as int,
        ));
        i = i + 1;
    }
    vstd::slice::slice_subrange(chars, i, chars.len())
}

/// `chars` without the white space at the end.
pub fn trimmed_end<'a>(chars: &'a [char]) -> (r: &'a [char])
    ensures
        r@ == trim_end(chars@),
{
    let mut n: usize = chars.len();
    assert(chars@.subrange(0, n as int) == chars@);
    while n > 0 && whitespace(chars[n - 1])
        invariant
            n <= chars@.len(),
            trim_end(chars@) == trim_end(chars@.subrange(0, n as int)),
        decreases n,
    {
        assert(chars@.subrange(0, n as int).drop_last() == chars@.subrange(0, n - 1));
        n = n - 1;
    }
    vstd::slice::slice_subrange(chars, 0, n)
}

/// `chars` without the white space at either end.
pub fn trimmed<'a>(chars: &'a [char]) -> (r: &'a [char])
    ensures
        r@ == trim(chars@),
{
    trimmed_end(trimmed_start(chars))
}

/// The digit for `n`, in bases up to sixteen.
pub open spec fn digit(n: int) -> char {
    if n < 10 {
        ('0' as int + n) as char
    } else {
        ('a' as int + (n - 10)) as char
    }
}

/// `n` written in `base`, without leading zeros.
pub open spec fn digits(n: nat, base: nat) -> Seq<char>
    decreases n,
{
    if n < base || base < 2 {
        seq![digit(n as int)]
    } else {
        proof {
            assert(n / base < n) by (nonlinear_arith)
                requires
                    n >= base,
                    base >= 2,
            ;
        }
        digits(n / base, base).push(digit((n % base) as int))
    }
}

/// `n` in decimal, with a minus sign where it is negative.
pub open spec fn decimal(n: int) -> Seq<char> {
    if n < 0 {
        seq!['-'] + digits((-n) as nat, 10)
    } else {
        digits(n as nat, 10)
    }
}

/// `n` in hexadecimal, behind `0x`.
pub open spec fn hexadecimal(n: nat) -> Seq<char> {
    "0x"@ + digits(n, 16)
}

fn digit_of(n: u64) -> (r: char)
    requires
        n < 16,
    ensures
        r == digit(n as int),
{
    if n < 10 {
        (48 + n as u8) as char
    } else {
        (97 + (n as u8 - 10)) as char
    }
}

/// Appends `n` written in `base`.
fn push_digits(out: &mut String, n: u64, base: u64)
    requires
        2 <= base <= 16,
    ensures
        final(out)@ == old(out)@ + digits(n as nat, base as nat),
    decreases n,
{
    if n < base {
        out.push(digit_of(n));
    } else {
        assert(n / base < n) by (nonlinear_arith)
            requires
                n >= base,
                base >= 2,
        ;
        push_digits(out, n / base, base);
        out.push(digit_of(n % base));
    }
    assert(out@ == old(out)@ + digits(n as nat, base as nat));
}

/// `n` in decimal.
pub fn decimal_of(n: i64) -> (r: String)
    ensures
        r@ == decimal(n as int),
{
    let mut r = String::new();
    if n < 0 {
        r.push('-');
        push_digits(&mut r, (-(n as i128)) as u64, 10);
    } else {
        push_digits(&mut r, n as u64, 10);
    }
    assert(r@ == decimal(n as int));
    r
}

/// `n` in decimal.
pub fn unsigned_of(n: usize) -> (r: String)
    ensures
        r@ == decimal(n as int),
{
    let mut r = String::new();
    push_digits(&mut r, n as u64, 10);
    assert(r@ == decimal(n as int));
    r
}

/// `n` in hexadecimal, behind `0x`.
pub fn hexadecimal_of(n: usize) -> (r: String)
    ensures
        r@ == hexadecimal(n as nat),
{
    let mut r = "0x".to_owned();
    push_digits(&mut r, n as u64, 16);
    r
}

/// Two texts one after the other.
pub fn join2(a: &str, b: &str) -> (r: String)
    ensures
        r@ == a@ + b@,
{
    let mut r = a.to_owned();
    r.append(b);
    r
}

/// Three texts one after the other.
pub fn join3(a: &str, b: &str, c: &str) -> (r: String)
    ensures
        r@ == a@ + b@ + c@,
{
    let mut r = a.to_owned();
    r.append(b);
    r.append(c);
    r
}

/// Whether a text is made of ASCII characters.
pub open spec fn is_ascii_text(s: Seq<char>) -> bool {
    forall|i: int| 0 <= i < s.len() ==> s[i] as u32 <= 0x7f
}

/// A character with `a` to `z` in upper case.
pub open spec fn ascii_upper(c: char) -> char {
    if 'a' <= c <= 'z' {
        (c as u32 - 32) as char
    } else {
        c
    }
}

/// What `str::to_uppercase` gives for a text: its Unicode upper case, which can
/// be longer than the text and which no table here repeats.
pub uninterp spec fn uppercase_of(s: Seq<char>) -> Seq<char>;

/// `str::to_uppercase`: the Unicode upper case of `s`, a function of `s` alone.
/// Of ASCII characters, `a` to `z` become `A` to `Z` and the others stay.
#[verifier::external_body]
pub(crate) fn to_uppercase(s: &str) -> (r: String)
    ensures
        r@ == uppercase_of(s@),
        is_ascii_text(s@) ==> r@ == s@.map_values(|c: char| ascii_upper(c)),
{
    s.to_uppercase()
}

/// What `{:?}` writes for a text: the text in double quotes, with the characters
/// escaped that `char::escape_debug` escapes.
pub uninterp spec fn quoted_of(s: Seq<char>) -> Seq<char>;

/// `format!` with `{:?}`: the `Debug` form of `s`, a function of `s` alone.
#[verifier::external_body]
pub(crate) fn quoted(s: &str) -> (r: String)
    ensures
        r@ == quoted_of(s@),
{
    format!("{:?}", s)
}

// ---------------------------------------------------------------------------
// Laws
// ---------------------------------------------------------------------------

/// Where the white space in front of a text ends.
pub proof fn lemma_trim_start(s: Seq<char>) -> (k: int)
    ensures
        0 <= k <= s.len(),
        trim_start(s) == s.subrange(k, s.len() as int),
        forall|i: int| 0 <= i < k ==> is_whitespace(#[trigger] s[i]),
        k < s.len() ==> !is_whitespace(s[k]),
    decreases s.len(),
{
    if s.len() > 0 && is_whitespace(s[0]) {
        let k = lemma_trim_start(s.drop_first());
        assert(s.drop_first().subrange(k, s.len() - 1) == s.subrange(k + 1, s.len() as int));
        assert forall|i: int| 0 <= i < k + 1 implies is_whitespace(#[trigger] s[i]) by {
            if i > 0 {
                assert(s[i] == s.drop_first()[i - 1]);
            }
        }
        k + 1
    } else {
        assert(s.subrange(0, s.len() as int) == s);
        0
    }
}

/// Where the white space at the end of a text starts.
pub proof fn lemma_trim_end(s: Seq<char>) -> (k: int)
    ensures
        0 <= k <= s.len(),
        trim_end(s) == s.subrange(0, k),
        forall|i: int| k <= i < s.len() ==> is_whitespace(#[trigger] s[i]),
        k > 0 ==> !is_whitespace(s[k - 1]),
    decreases s.len(),
{
    if s.len() > 0 && is_whitespace(s.last()) {
        let k = lemma_trim_end(s.drop_last());
        assert(s.drop_last().subrange(0, k) == s.subrange(0, k));
        assert forall|i: int| k <= i < s.len() implies is_whitespace(#[trigger] s[i]) by {
            if i < s.len() - 1 {
                assert(s[i] == s.drop_last()[i]);
            }
        }
        k
    } else {
        assert(s.subrange(0, s.len() as int) == s);
        s.len() as int
    }
}

/// A text is trimmed of the white space around it and of nothing else: white
/// space, however much, around a text that neither starts nor ends in any is what
/// goes.
pub proof fn law_trimming_takes_the_white_space_around(
    front: Seq<char>,
    s: Seq<char>,
    back: Seq<char>,
)
    requires
        forall|i: int| 0 <= i < front.len() ==> is_whitespace(#[trigger] front[i]),
        forall|i: int| 0 <= i < back.len() ==> is_whitespace(#[trigger] back[i]),
        s.len() > 0 ==> !is_whitespace(s[0]) && !is_whitespace(s.last()),
    ensures
        trim(front + s + back) == s,
        trim_end(s + back) == s,
        trim(s) == s,
{
    let all = front + s + back;
    let k = lemma_trim_start(all);
    if s.len() > 0 {
        assert(all[front.len() as int] == s[0]);
        assert forall|i: int| 0 <= i < front.len() implies is_whitespace(all[i]) by {
            assert(all[i] == front[i]);
        }
        assert(k == front.len());
        assert(trim_start(all) == s + back);
        lemma_trim_end_of(s, back);
        let k2 = lemma_trim_start(s);
        assert(k2 == 0);
        assert(s.subrange(0, s.len() as int) == s);
        lemma_trim_end_of(s, Seq::empty());
        assert(s + Seq::<char>::empty() == s);
    } else {
        assert forall|i: int| 0 <= i < all.len() implies is_whitespace(all[i]) by {
            if i < front.len() {
                assert(all[i] == front[i]);
            } else {
                assert(all[i] == back[i - front.len()]);
            }
        }
        assert(k == all.len());
        assert(trim_start(all) == Seq::<char>::empty());
        assert(s == Seq::<char>::empty());
        assert(trim_end(s) == s);
        lemma_trim_end_of(s, back);
    }
}

proof fn lemma_trim_end_of(s: Seq<char>, back: Seq<char>)
    requires
        forall|i: int| 0 <= i < back.len() ==> is_whitespace(#[trigger] back[i]),
        s.len() > 0 ==> !is_whitespace(s.last()),
    ensures
        trim_end(s + back) == s,
{
    let all = s + back;
    let k = lemma_trim_end(all);
    assert forall|i: int| s.len() <= i < all.len() implies is_whitespace(all[i]) by {
        assert(all[i] == back[i - s.len()]);
    }
    if s.len() > 0 {
        assert(all[s.len() - 1] == s.last());
    }
    assert(k == s.len());
    assert(all.subrange(0, k) == s);
}

/// The blanks, tabs and line ends of ASCII are white space, and its letters,
/// digits and marks are not.
pub proof fn law_what_is_white_space_in_ascii(c: char)
    requires
        c as u32 <= 0x7f,
    ensures
        is_whitespace(c) == (c == ' ' || c == '\t' || c == '\n' || c == '\r' || c as u32 == 0xb
            || c as u32 == 0xc),
{
}

/// Small letters differ from a text in its ASCII capitals alone, by the distance of
/// the two alphabets.
pub proof fn law_small_letters(s: Seq<char>, i: int)
    requires
        0 <= i < s.len(),
    ensures
        lowercase(s).len() == s.len(),
        'A' <= s[i] <= 'Z' ==> lowercase(s)[i] as u32 == s[i] as u32 + 32,
        !('A' <= s[i] <= 'Z') ==> lowercase(s)[i] == s[i],
        lowercase(lowercase(s)) == lowercase(s),
{
    assert forall|j: int| 0 <= j < s.len() implies lower(lower(s[j])) == lower(s[j]) by {
        lemma_lower_twice(s[j]);
    }
    assert(lowercase(lowercase(s)) =~= lowercase(s));
    lemma_lower_twice(s[i]);
}

proof fn lemma_lower_twice(c: char)
    ensures
        lower(lower(c)) == lower(c),
        'A' <= c <= 'Z' ==> lower(c) as u32 == c as u32 + 32 && 'a' <= lower(c) <= 'z',
{
}

/// The number that decimal digits stand for.
pub open spec fn value_of(s: Seq<char>) -> int
    decreases s.len(),
{
    if s.len() == 0 {
        0
    } else {
        10 * value_of(s.drop_last()) + (s.last() as int - '0' as int)
    }
}

proof fn lemma_digits_value(n: nat)
    ensures
        value_of(digits(n, 10)) == n,
        digits(n, 10).len() >= 1,
        n > 0 ==> digits(n, 10)[0] != '0',
        forall|i: int| 0 <= i < digits(n, 10).len() ==> '0' <= #[trigger] digits(n, 10)[i] <= '9',
    decreases n,
{
    if n >= 10 {
        lemma_digits_value(n / 10);
        assert(digits(n, 10).drop_last() == digits(n / 10, 10));
    } else {
        reveal_with_fuel(value_of, 2);
        assert(digits(n, 10).drop_last() == Seq::<char>::empty());
    }
}

/// A number that is written is the one that its digits stand for, without zeros in
/// front and behind a minus sign where it is negative.
pub proof fn law_a_number_is_written_by_its_digits(n: int)
    ensures
        n >= 0 ==> value_of(decimal(n)) == n && decimal(n).len() >= 1,
        n > 0 ==> decimal(n)[0] != '0',
        n < 0 ==> decimal(n)[0] == '-' && value_of(decimal(n).skip(1)) == -n,
{
    if n >= 0 {
        lemma_digits_value(n as nat);
    } else {
        lemma_digits_value((-n) as nat);
        assert(decimal(n).skip(1) == digits((-n) as nat, 10));
    }
}

/// A small letter of ASCII and its capital differ by 32, and any other character of ASCII
/// is its own capital.
pub proof fn law_capital_letters(c: char)
    ensures
        'a' <= c <= 'z' ==> ascii_upper(c) as u32 + 32 == c as u32 && lower(ascii_upper(c)) == c,
        !('a' <= c <= 'z') ==> ascii_upper(c) == c,
{
}

} // verus!
