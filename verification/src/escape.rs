//! ODBC escape-sequence translation (`{fn}`, `{d}`, `{t}`, `{ts}`, `{oj}`,
//! `{escape}`).
//!
//! One scanner shared by every backend. It rewrites escapes only in real SQL
//! text: string literals, quoted identifiers and comments are copied as they
//! stand. Backends supply an [`EscapeDialect`] for the parts that differ.

use vstd::prelude::*;
use vstd::slice::slice_subrange;

use crate::errors::{ErrorView, OdbcError};
use crate::text::{
    alphanumeric, chars_of, is_alphanumeric, is_whitespace, law_small_letters,
    law_trimming_takes_the_white_space_around, lowercase, push_all, push_text, spells, string_of,
    to_lowercase, trim, trim_end, trimmed, trimmed_end, whitespace,
};
use crate::types::SqlState;
use crate::types::sql_state::{OPTIONAL_FEATURE_NOT_IMPLEMENTED, SYNTAX_ERROR_OR_ACCESS_VIOLATION};

verus! {

/// The rules of a dialect as mathematical functions.
pub struct DialectModel {
    /// Identifier-quote open and close pairs; the first match counts.
    pub quotes: Seq<(char, char)>,
    /// The data source's name for a scalar function, where it differs.
    pub remap: spec_fn(Seq<char>) -> Option<Seq<char>>,
    /// The replacement for a whole call, from its name and arguments.
    pub rewrite: spec_fn(Seq<char>, Seq<char>) -> Option<Seq<char>>,
    /// `{d <lit>}` from the literal.
    pub date: spec_fn(Seq<char>) -> Seq<char>,
    /// `{t <lit>}` from the literal.
    pub time: spec_fn(Seq<char>) -> Seq<char>,
    /// `{ts <lit>}` from the literal.
    pub timestamp: spec_fn(Seq<char>) -> Seq<char>,
}

/// What the rules of a dialect answered. A question that they were not asked has
/// no answer here.
pub struct RuleAnswers {
    pub remap: spec_fn(Seq<char>) -> Option<Option<Seq<char>>>,
    pub rewrite: spec_fn(Seq<char>, Seq<char>) -> Option<Option<Seq<char>>>,
    pub date: spec_fn(Seq<char>) -> Option<Seq<char>>,
    pub time: spec_fn(Seq<char>) -> Option<Seq<char>>,
    pub timestamp: spec_fn(Seq<char>) -> Option<Seq<char>>,
}

/// What the rules of a dialect answered for the escapes of a statement, each by
/// the place where its `{` stands. A rule is asked at most once for one escape,
/// and may answer otherwise at another.
pub struct Answers {
    /// Identifier-quote open and close pairs; the first match counts.
    pub quotes: Seq<(char, char)>,
    /// The answers at a place.
    pub at: spec_fn(int) -> RuleAnswers,
}

impl DialectModel {
    /// The answers to every question.
    pub open spec fn answers(self) -> RuleAnswers {
        RuleAnswers {
            remap: |x: Seq<char>| Some((self.remap)(x)),
            rewrite: |x: Seq<char>, y: Seq<char>| Some((self.rewrite)(x, y)),
            date: |x: Seq<char>| Some((self.date)(x)),
            time: |x: Seq<char>| Some((self.time)(x)),
            timestamp: |x: Seq<char>| Some((self.timestamp)(x)),
        }
    }

    /// The same answers at every place.
    pub open spec fn everywhere(self) -> Answers {
        Answers { quotes: self.quotes, at: |place: int| self.answers() }
    }
}

/// Why a translation comes to no text.
pub enum Stop {
    /// It fails.
    Failure(ErrorView),
    /// It needs an answer that there is none of.
    Unanswered,
}

/// What a text translates to.
pub type Translation = Result<Seq<char>, Stop>;

/// A translation that needed no answer beyond those there were.
pub open spec fn complete(r: Result<Seq<char>, ErrorView>) -> Translation {
    match r {
        Ok(text) => Ok(text),
        Err(e) => Err(Stop::Failure(e)),
    }
}

/// How deeply escapes may nest before translation gives up.
pub const MAX_ESCAPE_DEPTH: usize = 64;

// ---------------------------------------------------------------------------
// What stands in a text verbatim
// ---------------------------------------------------------------------------

/// The closing quote of the first pair that `c` opens.
pub open spec fn close_of(quotes: Seq<(char, char)>, c: char) -> Option<char>
    decreases quotes.len(),
{
    if quotes.len() == 0 {
        None
    } else if quotes[0].0 == c {
        Some(quotes[0].1)
    } else {
        close_of(quotes.drop_first(), c)
    }
}

/// The index just past the closing quote, for a quoted text whose inside
/// starts at `i`; the end of `s` where it is never closed. With `doubled` a
/// closing quote written twice stays inside.
pub open spec fn quoted_end(s: Seq<char>, i: int, close: char, doubled: bool) -> int
    decreases s.len() - i,
{
    if i >= s.len() {
        s.len() as int
    } else if s[i] != close {
        quoted_end(s, i + 1, close, doubled)
    } else if doubled && i + 1 < s.len() && s[i + 1] == close {
        quoted_end(s, i + 2, close, doubled)
    } else {
        i + 1
    }
}

/// The index just past the line that `i` is on.
pub open spec fn line_end(s: Seq<char>, i: int) -> int
    decreases s.len() - i,
{
    if i >= s.len() {
        s.len() as int
    } else if s[i] == '\n' {
        i + 1
    } else {
        line_end(s, i + 1)
    }
}

/// The index just past the first `*/` at or after `i`.
pub open spec fn block_end(s: Seq<char>, i: int) -> int
    decreases s.len() - i,
{
    if i >= s.len() {
        s.len() as int
    } else if s[i] == '*' && i + 1 < s.len() && s[i + 1] == '/' {
        i + 2
    } else {
        block_end(s, i + 1)
    }
}

/// Where a string literal, a quoted identifier or a comment starts at `i`:
/// the index just past it.
pub open spec fn verbatim_end(quotes: Seq<(char, char)>, s: Seq<char>, i: int) -> Option<int> {
    if s[i] == '\'' {
        Some(quoted_end(s, i + 1, '\'', true))
    } else if close_of(quotes, s[i]) is Some {
        let close = close_of(quotes, s[i])->0;
        Some(quoted_end(s, i + 1, close, s[i] == close))
    } else if s[i] == '-' && i + 1 < s.len() && s[i + 1] == '-' {
        Some(line_end(s, i))
    } else if s[i] == '/' && i + 1 < s.len() && s[i + 1] == '*' {
        Some(block_end(s, i + 2))
    } else {
        None
    }
}

/// A quoted text ends past its start and within the text.
pub proof fn lemma_quoted_end(s: Seq<char>, i: int, close: char, doubled: bool)
    requires
        i <= s.len(),
    ensures
        i <= quoted_end(s, i, close, doubled) <= s.len(),
    decreases s.len() - i,
{
    if i < s.len() {
        if s[i] != close {
            lemma_quoted_end(s, i + 1, close, doubled);
        } else if doubled && i + 1 < s.len() && s[i + 1] == close {
            lemma_quoted_end(s, i + 2, close, doubled);
        }
    }
}

/// A line ends past its start and within the text.
pub proof fn lemma_line_end(s: Seq<char>, i: int)
    requires
        i <= s.len(),
    ensures
        i <= line_end(s, i) <= s.len(),
        i < s.len() ==> i < line_end(s, i),
    decreases s.len() - i,
{
    if i < s.len() && s[i] != '\n' {
        lemma_line_end(s, i + 1);
    }
}

/// A block comment ends past its start and within the text.
pub proof fn lemma_block_end(s: Seq<char>, i: int)
    requires
        i <= s.len(),
    ensures
        i <= block_end(s, i) <= s.len(),
    decreases s.len() - i,
{
    if i < s.len() && !(s[i] == '*' && i + 1 < s.len() && s[i + 1] == '/') {
        lemma_block_end(s, i + 1);
    }
}

/// What stands verbatim at `i` ends past `i` and within the text.
pub proof fn lemma_verbatim_end(quotes: Seq<(char, char)>, s: Seq<char>, i: int)
    requires
        0 <= i < s.len(),
    ensures
        verbatim_end(quotes, s, i) matches Some(e) ==> i < e <= s.len(),
{
    lemma_quoted_end(s, i + 1, '\'', true);
    if close_of(quotes, s[i]) is Some {
        let close = close_of(quotes, s[i])->0;
        lemma_quoted_end(s, i + 1, close, s[i] == close);
    }
    lemma_line_end(s, i);
    if i + 1 < s.len() {
        lemma_block_end(s, i + 2);
    }
}

// ---------------------------------------------------------------------------
// Matching brackets
// ---------------------------------------------------------------------------

/// The `}` that closes the `depth` braces open at `i`; what stands verbatim
/// does not count.
pub open spec fn brace_close(
    quotes: Seq<(char, char)>,
    s: Seq<char>,
    i: int,
    depth: int,
) -> Option<int>
    decreases s.len() - i,
{
    if i < 0 || i >= s.len() {
        None
    } else {
        proof {
            lemma_verbatim_end(quotes, s, i);
        }
        match verbatim_end(quotes, s, i) {
            Some(e) => brace_close(quotes, s, e, depth),
            None => if s[i] == '{' {
                brace_close(quotes, s, i + 1, depth + 1)
            } else if s[i] == '}' {
                if depth == 1 {
                    Some(i)
                } else {
                    brace_close(quotes, s, i + 1, depth - 1)
                }
            } else {
                brace_close(quotes, s, i + 1, depth)
            },
        }
    }
}

/// The `)` before `limit` that closes the `depth` parentheses open at `i`;
/// what stands verbatim does not count, and neither does a `)` that closes
/// nothing.
pub open spec fn paren_close(
    quotes: Seq<(char, char)>,
    s: Seq<char>,
    i: int,
    limit: int,
    depth: int,
) -> Option<int>
    decreases s.len() - i,
{
    if i < 0 || i >= limit || i >= s.len() {
        None
    } else {
        proof {
            lemma_verbatim_end(quotes, s, i);
        }
        match verbatim_end(quotes, s, i) {
            Some(e) => paren_close(quotes, s, e, limit, depth),
            None => if s[i] == '(' {
                paren_close(quotes, s, i + 1, limit, depth + 1)
            } else if s[i] == ')' && depth == 1 {
                Some(i)
            } else if s[i] == ')' && depth > 1 {
                paren_close(quotes, s, i + 1, limit, depth - 1)
            } else {
                paren_close(quotes, s, i + 1, limit, depth)
            },
        }
    }
}

/// The matching brace is a `}` at or after the place the search starts.
pub proof fn lemma_brace_close(quotes: Seq<(char, char)>, s: Seq<char>, i: int, depth: int)
    requires
        0 <= i,
    ensures
        brace_close(quotes, s, i, depth) matches Some(c) ==> i <= c < s.len() && s[c] == '}',
    decreases s.len() - i,
{
    if i < s.len() {
        lemma_verbatim_end(quotes, s, i);
        match verbatim_end(quotes, s, i) {
            Some(e) => lemma_brace_close(quotes, s, e, depth),
            None => {
                lemma_brace_close(quotes, s, i + 1, depth + 1);
                lemma_brace_close(quotes, s, i + 1, depth - 1);
                lemma_brace_close(quotes, s, i + 1, depth);
            },
        }
    }
}

/// The matching parenthesis is a `)` at or after the place the search starts
/// and before the limit; where nothing is open yet it is further on.
pub proof fn lemma_paren_close(
    quotes: Seq<(char, char)>,
    s: Seq<char>,
    i: int,
    limit: int,
    depth: int,
)
    requires
        0 <= i,
        limit <= s.len(),
    ensures
        paren_close(quotes, s, i, limit, depth) matches Some(c) ==> {
            &&& i <= c < limit
            &&& s[c] == ')'
            &&& depth == 0 ==> i < c
        },
    decreases s.len() - i,
{
    if i < limit {
        lemma_verbatim_end(quotes, s, i);
        match verbatim_end(quotes, s, i) {
            Some(e) => lemma_paren_close(quotes, s, e, limit, depth),
            None => {
                lemma_paren_close(quotes, s, i + 1, limit, depth + 1);
                lemma_paren_close(quotes, s, i + 1, limit, depth - 1);
                lemma_paren_close(quotes, s, i + 1, limit, depth);
            },
        }
    }
}

// ---------------------------------------------------------------------------
// What a text translates to
// ---------------------------------------------------------------------------

/// The first index at or after `i` that holds no white space.
pub open spec fn skip_space(s: Seq<char>, i: int) -> int
    decreases s.len() - i,
{
    if i < s.len() && is_whitespace(s[i]) {
        skip_space(s, i + 1)
    } else {
        i
    }
}

/// Whether `c` can stand in a word: a letter, a digit, or with `underscore` an
/// underscore.
pub open spec fn is_word(c: char, underscore: bool) -> bool {
    is_alphanumeric(c) || (underscore && c == '_')
}

/// The index just past the word that starts at `i`.
pub open spec fn word_end(s: Seq<char>, i: int, underscore: bool) -> int
    decreases s.len() - i,
{
    if i < s.len() && is_word(s[i], underscore) {
        word_end(s, i + 1, underscore)
    } else {
        i
    }
}

/// Skipping white space passes over white space alone.
pub proof fn lemma_skip_space(s: Seq<char>, i: int)
    requires
        0 <= i <= s.len(),
    ensures
        i <= skip_space(s, i) <= s.len(),
        forall|j: int| i <= j < skip_space(s, i) ==> is_whitespace(#[trigger] s[j]),
    decreases s.len() - i,
{
    if i < s.len() && is_whitespace(s[i]) {
        lemma_skip_space(s, i + 1);
    }
}

/// A word holds word characters alone.
pub proof fn lemma_word_end(s: Seq<char>, i: int, underscore: bool)
    requires
        0 <= i <= s.len(),
    ensures
        i <= word_end(s, i, underscore) <= s.len(),
        forall|j: int| i <= j < word_end(s, i, underscore) ==> is_word(#[trigger] s[j], underscore),
    decreases s.len() - i,
{
    if i < s.len() && is_word(s[i], underscore) {
        lemma_word_end(s, i + 1, underscore);
    }
}

/// The parts of the escape at `open`, in their order: the keyword, a function
/// name after it, what follows the name, and the closing brace.
pub proof fn lemma_escape_layout(quotes: Seq<(char, char)>, s: Seq<char>, open: int)
    requires
        0 <= open < s.len(),
    ensures
        ({
            let kw = skip_space(s, open + 1);
            let k = word_end(s, kw, false);
            let name = skip_space(s, k);
            let n = word_end(s, name, true);
            let p = skip_space(s, n);
            &&& open < kw <= k <= name <= n <= p <= s.len()
            &&& brace_close(quotes, s, open + 1, 1) matches Some(close) ==> {
                &&& p <= close < s.len()
                &&& s[close] == '}'
            }
        }),
{
    let kw = skip_space(s, open + 1);
    lemma_skip_space(s, open + 1);
    let k = word_end(s, kw, false);
    lemma_word_end(s, kw, false);
    let name = skip_space(s, k);
    lemma_skip_space(s, k);
    let n = word_end(s, name, true);
    lemma_word_end(s, name, true);
    lemma_skip_space(s, n);
    lemma_brace_close(quotes, s, open + 1, 1);
}

/// The failure for escapes nested too deep.
pub open spec fn too_deep() -> ErrorView {
    ErrorView::general(
        "Escape sequences nested deeper than 64 levels"@,
        SYNTAX_ERROR_OR_ACCESS_VIOLATION@,
    )
}

/// The failure for an escape without its closing brace.
pub open spec fn unterminated() -> ErrorView {
    ErrorView::general(
        "unterminated ODBC escape sequence (missing '}')"@,
        SYNTAX_ERROR_OR_ACCESS_VIOLATION@,
    )
}

/// The failure for a stored-procedure call.
pub open spec fn call_unsupported() -> ErrorView {
    ErrorView::general(
        "stored-procedure escape ({call ...}) is not supported by this driver"@,
        OPTIONAL_FEATURE_NOT_IMPLEMENTED@,
    )
}

/// The failure for a stored-procedure call with a return value.
pub open spec fn return_call_unsupported() -> ErrorView {
    ErrorView::general(
        "stored-procedure escape ({?= call ...}) is not supported by this driver"@,
        OPTIONAL_FEATURE_NOT_IMPLEMENTED@,
    )
}

/// `text` in front of what `rest` translated to.
pub open spec fn prepend(text: Seq<char>, rest: Translation) -> Translation {
    match rest {
        Ok(r) => Ok(text + r),
        Err(e) => Err(e),
    }
}

/// An answer as a translation.
pub open spec fn given(text: Option<Seq<char>>) -> Translation {
    match text {
        Some(t) => Ok(t),
        None => Err(Stop::Unanswered),
    }
}

/// What `s` translates to, `depth` escapes inside the statement, by the rules of
/// `m`.
pub open spec fn translated(m: DialectModel, s: Seq<char>, depth: int) -> Result<
    Seq<char>,
    ErrorView,
> {
    match translated_at(m.everywhere(), s, 0, depth) {
        Ok(text) => Ok(text),
        Err(Stop::Failure(e)) => Err(e),
        Err(Stop::Unanswered) => arbitrary(),
    }
}

/// What `s`, which starts at `base` in the statement and stands `depth` escapes
/// inside it, translates to where the rules answer `a`.
pub open spec fn translated_at(a: Answers, s: Seq<char>, base: int, depth: int) -> Translation
    decreases s.len(), s.len() + 1, 0int,
{
    if depth > MAX_ESCAPE_DEPTH {
        Err(Stop::Failure(too_deep()))
    } else {
        translated_from(a, s, base, 0, depth)
    }
}

/// What `s` from `i` on translates to: escapes are replaced, everything else
/// stays.
pub open spec fn translated_from(
    a: Answers,
    s: Seq<char>,
    base: int,
    i: int,
    depth: int,
) -> Translation
    decreases s.len(), s.len() - i, 2int,
{
    if i < 0 || i >= s.len() {
        Ok(Seq::empty())
    } else {
        proof {
            lemma_verbatim_end(a.quotes, s, i);
            lemma_escape_layout(a.quotes, s, i);
        }
        match verbatim_end(a.quotes, s, i) {
            Some(e) => prepend(s.subrange(i, e), translated_from(a, s, base, e, depth)),
            None => if s[i] == '{' {
                match (
                    translated_escape(a, s, base, i, depth),
                    brace_close(a.quotes, s, i + 1, 1),
                ) {
                    (Ok(text), Some(close)) => prepend(
                        text,
                        translated_from(a, s, base, close + 1, depth),
                    ),
                    (Err(e), _) => Err(e),
                    (Ok(_), None) => Err(Stop::Failure(unterminated())),
                }
            } else {
                prepend(seq![s[i]], translated_from(a, s, base, i + 1, depth))
            },
        }
    }
}

/// What the escape at `open` is replaced by.
pub open spec fn translated_escape(
    a: Answers,
    s: Seq<char>,
    base: int,
    open: int,
    depth: int,
) -> Translation
    decreases s.len(), s.len() - open, 1int,
{
    let rules = (a.at)(base + open);
    let kw = skip_space(s, open + 1);
    let k = word_end(s, kw, false);
    let keyword = lowercase(s.subrange(kw, k));
    if open < 0 || open >= s.len() {
        Err(Stop::Failure(unterminated()))
    } else {
        proof {
            lemma_escape_layout(a.quotes, s, open);
        }
        match brace_close(a.quotes, s, open + 1, 1) {
            None => Err(Stop::Failure(unterminated())),
            Some(close) => {
                let inner = trim(s.subrange(k, close));
                if keyword == "fn"@ {
                    let name = skip_space(s, k);
                    let n = word_end(s, name, true);
                    if name == n {
                        Ok(s.subrange(open, close + 1))
                    } else {
                        translated_call(a, s, base, base + open, name, n, close, depth)
                    }
                } else if keyword == "d"@ {
                    given((rules.date)(inner))
                } else if keyword == "t"@ {
                    given((rules.time)(inner))
                } else if keyword == "ts"@ {
                    given((rules.timestamp)(inner))
                } else if keyword == "oj"@ {
                    match translated_at(a, s.subrange(k, close), base + k, depth + 1) {
                        Ok(body) => Ok(trim(body)),
                        Err(e) => Err(e),
                    }
                } else if keyword == "escape"@ {
                    Ok("ESCAPE "@ + inner)
                } else if keyword == "call"@ {
                    Err(Stop::Failure(call_unsupported()))
                } else if kw == k && s[kw] == '?' {
                    Err(Stop::Failure(return_call_unsupported()))
                } else {
                    Ok(s.subrange(open, close + 1))
                }
            },
        }
    }
}

/// The name a scalar function goes by at the data source, where there is an
/// answer to that.
pub open spec fn remapped(g: RuleAnswers, name: Seq<char>) -> Option<Seq<char>> {
    match (g.remap)(name) {
        Some(Some(mapped)) => Some(mapped),
        Some(None) => Some(name),
        None => None,
    }
}

/// `rest` behind the name a scalar function goes by.
pub open spec fn named(name: Option<Seq<char>>, rest: Translation) -> Translation {
    match (rest, name) {
        (Ok(r), Some(n)) => Ok(n + r),
        (Ok(_), None) => Err(Stop::Unanswered),
        (Err(e), _) => Err(e),
    }
}

/// What the dialect makes of `{fn NAME...}`.
#[verifier::ext_equal]
pub enum FnCallView {
    /// It rewrote the call: this replaces the whole escape.
    Rewritten(Seq<char>),
    /// It declined the call: this is the translation of what follows the name.
    Declined(Seq<char>),
    /// No balanced pair of parentheses follows the name.
    NotACall,
}

/// What the dialect makes of `{fn NAME...}`, for a name from `name` to `n` and
/// a closing brace at `close`. A call with a balanced parenthesis pair is
/// offered to it, its arguments translated first. `place` is that of the escape.
pub open spec fn call_outcome(
    a: Answers,
    s: Seq<char>,
    base: int,
    place: int,
    name: int,
    n: int,
    close: int,
    depth: int,
) -> Result<FnCallView, Stop>
    decreases s.len(), 0int, 0int,
{
    let p = skip_space(s, n);
    if !(0 < name < n <= p <= close < s.len()) {
        Err(Stop::Failure(unterminated()))
    } else {
        proof {
            lemma_paren_close(a.quotes, s, p, close, 0);
        }
        match paren_close(a.quotes, s, p, close, 0) {
            Some(q) if s[p] == '(' => match (
                translated_at(a, s.subrange(p + 1, q), base + p + 1, depth + 1),
                translated_at(a, s.subrange(q + 1, close), base + q + 1, depth + 1),
            ) {
                (Ok(args), Ok(tail)) => match ((a.at)(place).rewrite)(
                    s.subrange(name, n),
                    trim(args),
                ) {
                    Some(Some(text)) => Ok(FnCallView::Rewritten(text + trim_end(tail))),
                    Some(None) => Ok(
                        FnCallView::Declined(s.subrange(n, p + 1) + args + seq![')'] + tail),
                    ),
                    None => Err(Stop::Unanswered),
                },
                (Err(e), _) => Err(e),
                (Ok(_), Err(e)) => Err(e),
            },
            _ => Ok(FnCallView::NotACall),
        }
    }
}

/// What `{fn NAME...}` is replaced by. Unless the dialect rewrites the call,
/// only the name changes.
pub open spec fn translated_call(
    a: Answers,
    s: Seq<char>,
    base: int,
    place: int,
    name: int,
    n: int,
    close: int,
    depth: int,
) -> Translation
    decreases s.len(), 0int, 1int,
{
    let word = remapped((a.at)(place), s.subrange(name, n));
    if !(0 < name < n <= close < s.len()) {
        Err(Stop::Failure(unterminated()))
    } else {
        match call_outcome(a, s, base, place, name, n, close, depth) {
            Ok(FnCallView::Rewritten(text)) => Ok(text),
            Ok(FnCallView::Declined(rest)) => named(word, Ok(rest)),
            Ok(FnCallView::NotACall) => named(
                word,
                translated_at(a, s.subrange(n, close), base + n, depth + 1),
            ),
            Err(e) => Err(e),
        }
    }
}

/// Whether every `{` of `s` from `i` on stands verbatim, in a string literal, a
/// quoted identifier or a comment: `s` holds no escape there.
pub open spec fn has_no_escape(quotes: Seq<(char, char)>, s: Seq<char>, i: int) -> bool
    decreases s.len() - i,
{
    if i < 0 || i >= s.len() {
        true
    } else {
        proof {
            lemma_verbatim_end(quotes, s, i);
        }
        match verbatim_end(quotes, s, i) {
            Some(e) => has_no_escape(quotes, s, e),
            None => s[i] != '{' && has_no_escape(quotes, s, i + 1),
        }
    }
}

/// A text without a brace holds no escape.
pub proof fn lemma_braceless(quotes: Seq<(char, char)>, s: Seq<char>, i: int)
    requires
        0 <= i,
        !s.contains('{'),
    ensures
        has_no_escape(quotes, s, i),
    decreases s.len() - i,
{
    if i < s.len() {
        lemma_verbatim_end(quotes, s, i);
        assert(s.contains(s[i]));
        match verbatim_end(quotes, s, i) {
            Some(e) => lemma_braceless(quotes, s, e),
            None => lemma_braceless(quotes, s, i + 1),
        }
    }
}

/// The failures a translation can end in.
pub open spec fn is_escape_failure(e: ErrorView) -> bool {
    e == too_deep() || e == unterminated() || e == call_unsupported() || e
        == return_call_unsupported()
}

// ---------------------------------------------------------------------------
// The dialect
// ---------------------------------------------------------------------------

/// Per-backend escape-translation rules.
///
/// Start from [`EscapeDialect::ansi_default`] and apply the `with_*` builders;
/// read a rule back through its accessor. The fields are private to the crate,
/// so that a rule can be added without a struct literal going stale.
#[non_exhaustive]
pub struct EscapeDialect<Remap, Rewrite, Date, Time, Timestamp> {
    pub(crate) identifier_quotes: &'static [(char, char)],
    pub(crate) remap_scalar_fn: Remap,
    pub(crate) rewrite_scalar_fn: Rewrite,
    pub(crate) render_date: Date,
    pub(crate) render_time: Time,
    pub(crate) render_timestamp: Timestamp,
}

/// A text that may be absent, by its characters.
pub open spec fn text_view(t: Option<&str>) -> Option<Seq<char>> {
    match t {
        Some(text) => Some(text@),
        None => None,
    }
}

/// A text that may be absent, by its characters.
pub open spec fn string_view(t: Option<String>) -> Option<Seq<char>> {
    match t {
        Some(text) => Some(text@),
        None => None,
    }
}

/// `f` can give `r` for `name`.
pub open spec fn may_remap<F: Fn(&str) -> Option<&'static str>>(
    f: F,
    name: Seq<char>,
    r: Option<Seq<char>>,
) -> bool {
    exists|n: &str, out: Option<&'static str>| #[trigger]
        call_ensures(f, (n,), out) && n@ == name && text_view(out) == r
}

/// `f` can give `r` for `name` and `args`.
pub open spec fn may_rewrite_call<F: Fn(&str, &str) -> Option<String>>(
    f: F,
    name: Seq<char>,
    args: Seq<char>,
    r: Option<Seq<char>>,
) -> bool {
    exists|n: &str, x: &str, out: Option<String>| #[trigger]
        call_ensures(f, (n, x), out) && n@ == name && x@ == args && string_view(out) == r
}

/// `f` can give `r` for `literal`.
pub open spec fn may_render_literal<F: Fn(&str) -> String>(
    f: F,
    literal: Seq<char>,
    r: Seq<char>,
) -> bool {
    exists|x: &str, out: String| #[trigger]
        call_ensures(f, (x,), out) && x@ == literal && out@ == r
}

/// `f` gives what `g` gives.
pub open spec fn remaps<F: Fn(&str) -> Option<&'static str>>(
    f: F,
    g: spec_fn(Seq<char>) -> Option<Seq<char>>,
) -> bool {
    forall|name: &str, r: Option<&'static str>| #[trigger]
        call_ensures(f, (name,), r) ==> text_view(r) == g(name@)
}

/// `f` gives what `g` gives.
pub open spec fn rewrites<F: Fn(&str, &str) -> Option<String>>(
    f: F,
    g: spec_fn(Seq<char>, Seq<char>) -> Option<Seq<char>>,
) -> bool {
    forall|name: &str, args: &str, r: Option<String>| #[trigger]
        call_ensures(f, (name, args), r) ==> string_view(r) == g(name@, args@)
}

/// `f` gives what `g` gives.
pub open spec fn renders<F: Fn(&str) -> String>(f: F, g: spec_fn(Seq<char>) -> Seq<char>) -> bool {
    forall|literal: &str, r: String| #[trigger]
        call_ensures(f, (literal,), r) ==> r@ == g(literal@)
}

/// A rename of scalar functions: a function from names to names, or a rule of
/// this module.
pub trait RenameRule {
    /// It can be asked for every name.
    spec fn can_rename(&self) -> bool;

    /// It can give `r` for `name`.
    spec fn may_rename(&self, name: Seq<char>, r: Option<Seq<char>>) -> bool;

    /// The data source's name for a scalar function; none keeps the name.
    fn rename(&self, name: &str) -> (r: Option<&'static str>)
        requires
            self.can_rename(),
        ensures
            self.may_rename(name@, text_view(r)),
    ;
}

impl<F: Fn(&str) -> Option<&'static str>> RenameRule for F {
    open spec fn can_rename(&self) -> bool {
        forall|name: &str| call_requires(*self, (name,))
    }

    open spec fn may_rename(&self, name: Seq<char>, r: Option<Seq<char>>) -> bool {
        may_remap(*self, name, r)
    }

    fn rename(&self, name: &str) -> (r: Option<&'static str>) {
        self(name)
    }
}

/// `rule` gives what `g` gives.
pub open spec fn always_renames<R: RenameRule>(
    rule: R,
    g: spec_fn(Seq<char>) -> Option<Seq<char>>,
) -> bool {
    forall|name: Seq<char>, r: Option<Seq<char>>| #[trigger]
        rule.may_rename(name, r) ==> r == g(name)
}

/// A rewrite of calls of scalar functions: a function of the name and the
/// arguments, or a rule of this module.
pub trait RewriteRule {
    /// It can be asked for every call.
    spec fn can_rewrite(&self) -> bool;

    /// It can give `r` for `name` and `args`.
    spec fn may_rewrite(&self, name: Seq<char>, args: Seq<char>, r: Option<Seq<char>>) -> bool;

    /// The replacement for a whole call; none declines it.
    fn rewrite(&self, name: &str, args: &str) -> (r: Option<String>)
        requires
            self.can_rewrite(),
        ensures
            self.may_rewrite(name@, args@, string_view(r)),
    ;
}

impl<F: Fn(&str, &str) -> Option<String>> RewriteRule for F {
    open spec fn can_rewrite(&self) -> bool {
        forall|name: &str, args: &str| call_requires(*self, (name, args))
    }

    open spec fn may_rewrite(
        &self,
        name: Seq<char>,
        args: Seq<char>,
        r: Option<Seq<char>>,
    ) -> bool {
        may_rewrite_call(*self, name, args, r)
    }

    fn rewrite(&self, name: &str, args: &str) -> (r: Option<String>) {
        self(name, args)
    }
}

/// `rule` gives what `g` gives.
pub open spec fn always_rewrites<R: RewriteRule>(
    rule: R,
    g: spec_fn(Seq<char>, Seq<char>) -> Option<Seq<char>>,
) -> bool {
    forall|name: Seq<char>, args: Seq<char>, r: Option<Seq<char>>| #[trigger]
        rule.may_rewrite(name, args, r) ==> r == g(name, args)
}

/// A renderer of date and time literals: a function of the literal, or a rule of
/// this module.
pub trait RenderRule {
    /// It can be asked for every literal.
    spec fn can_render(&self) -> bool;

    /// It can give `r` for `literal`.
    spec fn may_render(&self, literal: Seq<char>, r: Seq<char>) -> bool;

    /// What an escape with this literal becomes.
    fn render(&self, literal: &str) -> (r: String)
        requires
            self.can_render(),
        ensures
            self.may_render(literal@, r@),
    ;
}

impl<F: Fn(&str) -> String> RenderRule for F {
    open spec fn can_render(&self) -> bool {
        forall|literal: &str| call_requires(*self, (literal,))
    }

    open spec fn may_render(&self, literal: Seq<char>, r: Seq<char>) -> bool {
        may_render_literal(*self, literal, r)
    }

    fn render(&self, literal: &str) -> (r: String) {
        self(literal)
    }
}

/// `rule` gives what `g` gives.
pub open spec fn always_renders<R: RenderRule>(
    rule: R,
    g: spec_fn(Seq<char>) -> Seq<char>,
) -> bool {
    forall|literal: Seq<char>, r: Seq<char>| #[trigger]
        rule.may_render(literal, r) ==> r == g(literal)
}

impl<Remap, Rewrite, Date, Time, Timestamp> EscapeDialect<
    Remap,
    Rewrite,
    Date,
    Time,
    Timestamp,
> where
    Remap: RenameRule,
    Rewrite: RewriteRule,
    Date: RenderRule,
    Time: RenderRule,
    Timestamp: RenderRule,
 {
    /// The identifier-quote pairs.
    pub closed spec fn quotes(&self) -> Seq<(char, char)> {
        self.identifier_quotes@
    }

    /// The rename rule.
    pub closed spec fn remap(&self) -> Remap {
        self.remap_scalar_fn
    }

    /// The rewrite rule.
    pub closed spec fn rewrite(&self) -> Rewrite {
        self.rewrite_scalar_fn
    }

    /// The `{d}` renderer.
    pub closed spec fn date(&self) -> Date {
        self.render_date
    }

    /// The `{t}` renderer.
    pub closed spec fn time(&self) -> Time {
        self.render_time
    }

    /// The `{ts}` renderer.
    pub closed spec fn timestamp(&self) -> Timestamp {
        self.render_timestamp
    }

    /// Every rule can be called on every argument.
    pub open spec fn callable(&self) -> bool {
        &&& self.remap().can_rename()
        &&& self.rewrite().can_rewrite()
        &&& self.date().can_render()
        &&& self.time().can_render()
        &&& self.timestamp().can_render()
    }

    /// The rules give what the functions of `m` give.
    pub open spec fn follows(&self, m: DialectModel) -> bool {
        &&& self.quotes() == m.quotes
        &&& always_renames(self.remap(), m.remap)
        &&& always_rewrites(self.rewrite(), m.rewrite)
        &&& always_renders(self.date(), m.date)
        &&& always_renders(self.time(), m.time)
        &&& always_renders(self.timestamp(), m.timestamp)
    }

    /// The rules can give the answers of `g`.
    pub open spec fn may_give(&self, g: RuleAnswers) -> bool {
        &&& forall|x: Seq<char>|
            (#[trigger] (g.remap)(x)) matches Some(r) ==> self.remap().may_rename(x, r)
        &&& forall|x: Seq<char>, y: Seq<char>|
            (#[trigger] (g.rewrite)(x, y)) matches Some(r) ==> self.rewrite().may_rewrite(x, y, r)
        &&& forall|x: Seq<char>|
            (#[trigger] (g.date)(x)) matches Some(r) ==> self.date().may_render(x, r)
        &&& forall|x: Seq<char>|
            (#[trigger] (g.time)(x)) matches Some(r) ==> self.time().may_render(x, r)
        &&& forall|x: Seq<char>|
            (#[trigger] (g.timestamp)(x)) matches Some(r) ==> self.timestamp().may_render(x, r)
    }

    /// The rules can answer `a`.
    pub open spec fn may_answer(&self, a: Answers) -> bool {
        a.quotes == self.quotes() && forall|place: int| self.may_give(#[trigger] (a.at)(place))
    }

    /// Identifier-quote open and close pairs copied as they stand, such as
    /// `('"', '"')` or `('[', ']')`.
    #[must_use]
    pub fn identifier_quotes(&self) -> (r: &'static [(char, char)])
        ensures
            r@ == self.quotes(),
    {
        self.identifier_quotes
    }

    /// The rename of a `{fn NAME(...)}` scalar function; `None` keeps the name.
    /// It sees the name alone. Where the argument syntax differs too, the
    /// rewrite is the rule to set.
    #[must_use]
    pub fn remap_scalar_fn(&self) -> (r: &Remap)
        ensures
            *r == self.remap(),
    {
        &self.remap_scalar_fn
    }

    /// The rewrite of a whole `{fn NAME(args)}` escape, from the name and the
    /// text between the outer parentheses, which is translated already. `None`
    /// falls back to the rename with the arguments as they are.
    #[must_use]
    pub fn rewrite_scalar_fn(&self) -> (r: &Rewrite)
        ensures
            *r == self.rewrite(),
    {
        &self.rewrite_scalar_fn
    }

    /// The renderer of `{d <lit>}`, from the literal.
    #[must_use]
    pub fn render_date(&self) -> (r: &Date)
        ensures
            *r == self.date(),
    {
        &self.render_date
    }

    /// The renderer of `{t <lit>}`.
    #[must_use]
    pub fn render_time(&self) -> (r: &Time)
        ensures
            *r == self.time(),
    {
        &self.render_time
    }

    /// The renderer of `{ts <lit>}`.
    #[must_use]
    pub fn render_timestamp(&self) -> (r: &Timestamp)
        ensures
            *r == self.timestamp(),
    {
        &self.render_timestamp
    }

    /// Replaces the identifier-quote pairs.
    #[must_use]
    pub fn with_identifier_quotes(self, quotes: &'static [(char, char)]) -> (r: Self)
        ensures
            r.quotes() == quotes@,
            r.remap() == self.remap(),
            r.rewrite() == self.rewrite(),
            r.date() == self.date(),
            r.time() == self.time(),
            r.timestamp() == self.timestamp(),
    {
        EscapeDialect {
            identifier_quotes: quotes,
            remap_scalar_fn: self.remap_scalar_fn,
            rewrite_scalar_fn: self.rewrite_scalar_fn,
            render_date: self.render_date,
            render_time: self.render_time,
            render_timestamp: self.render_timestamp,
        }
    }

    /// Sets the rename, which sees only the name. What is known of calls of `f`
    /// is then known of the rule.
    #[must_use]
    pub fn with_remap_scalar_fn<F: Fn(&str) -> Option<&'static str>>(self, f: F) -> (r:
        EscapeDialect<F, Rewrite, Date, Time, Timestamp>)
        ensures
            r.quotes() == self.quotes(),
            r.remap() == f,
            (forall|name: &str| call_requires(f, (name,))) ==> r.remap().can_rename(),
            forall|g: spec_fn(Seq<char>) -> Option<Seq<char>>| #[trigger]
                remaps(f, g) ==> always_renames(r.remap(), g),
            forall|name: Seq<char>, t: Option<Seq<char>>| #[trigger]
                r.remap().may_rename(name, t) == may_remap(f, name, t),
            r.rewrite() == self.rewrite(),
            r.date() == self.date(),
            r.time() == self.time(),
            r.timestamp() == self.timestamp(),
    {
        EscapeDialect {
            identifier_quotes: self.identifier_quotes,
            remap_scalar_fn: f,
            rewrite_scalar_fn: self.rewrite_scalar_fn,
            render_date: self.render_date,
            render_time: self.render_time,
            render_timestamp: self.render_timestamp,
        }
    }

    /// Sets the rewrite, which sees the arguments too.
    #[must_use]
    pub fn with_rewrite_scalar_fn<F: Fn(&str, &str) -> Option<String>>(self, f: F) -> (r:
        EscapeDialect<Remap, F, Date, Time, Timestamp>)
        ensures
            r.quotes() == self.quotes(),
            r.remap() == self.remap(),
            r.rewrite() == f,
            (forall|name: &str, args: &str| call_requires(f, (name, args)))
                ==> r.rewrite().can_rewrite(),
            forall|g: spec_fn(Seq<char>, Seq<char>) -> Option<Seq<char>>| #[trigger]
                rewrites(f, g) ==> always_rewrites(r.rewrite(), g),
            forall|name: Seq<char>, args: Seq<char>, t: Option<Seq<char>>| #[trigger]
                r.rewrite().may_rewrite(name, args, t) == may_rewrite_call(f, name, args, t),
            r.date() == self.date(),
            r.time() == self.time(),
            r.timestamp() == self.timestamp(),
    {
        EscapeDialect {
            identifier_quotes: self.identifier_quotes,
            remap_scalar_fn: self.remap_scalar_fn,
            rewrite_scalar_fn: f,
            render_date: self.render_date,
            render_time: self.render_time,
            render_timestamp: self.render_timestamp,
        }
    }

    /// Sets the `{d}`, `{t}` and `{ts}` renderers.
    #[must_use]
    pub fn with_datetime_renderers<
        D: Fn(&str) -> String,
        T: Fn(&str) -> String,
        S: Fn(&str) -> String,
    >(self, date: D, time: T, timestamp: S) -> (r: EscapeDialect<Remap, Rewrite, D, T, S>)
        ensures
            r.quotes() == self.quotes(),
            r.remap() == self.remap(),
            r.rewrite() == self.rewrite(),
            r.date() == date,
            r.time() == time,
            r.timestamp() == timestamp,
            (forall|literal: &str| call_requires(date, (literal,))) ==> r.date().can_render(),
            (forall|literal: &str| call_requires(time, (literal,))) ==> r.time().can_render(),
            (forall|literal: &str| call_requires(timestamp, (literal,)))
                ==> r.timestamp().can_render(),
            forall|g: spec_fn(Seq<char>) -> Seq<char>| #[trigger]
                renders(date, g) ==> always_renders(r.date(), g),
            forall|x: Seq<char>, t: Seq<char>| #[trigger]
                r.date().may_render(x, t) == may_render_literal(date, x, t),
            forall|g: spec_fn(Seq<char>) -> Seq<char>| #[trigger]
                renders(time, g) ==> always_renders(r.time(), g),
            forall|x: Seq<char>, t: Seq<char>| #[trigger]
                r.time().may_render(x, t) == may_render_literal(time, x, t),
            forall|g: spec_fn(Seq<char>) -> Seq<char>| #[trigger]
                renders(timestamp, g) ==> always_renders(r.timestamp(), g),
            forall|x: Seq<char>, t: Seq<char>| #[trigger]
                r.timestamp().may_render(x, t) == may_render_literal(timestamp, x, t),
    {
        EscapeDialect {
            identifier_quotes: self.identifier_quotes,
            remap_scalar_fn: self.remap_scalar_fn,
            rewrite_scalar_fn: self.rewrite_scalar_fn,
            render_date: date,
            render_time: time,
            render_timestamp: timestamp,
        }
    }

    fn ident_close(&self, open: char) -> (r: Option<char>)
        ensures
            r == close_of(self.quotes(), open),
    {
        let quotes = self.identifier_quotes;
        let mut i: usize = 0;
        assert(quotes@.subrange(0, quotes@.len() as int) == quotes@);
        while i < quotes.len()
            invariant
                i <= quotes@.len(),
                quotes@ == self.quotes(),
                close_of(quotes@, open) == close_of(
                    quotes@.subrange(i as int, quotes@.len() as int),
                    open,
                ),
            decreases quotes@.len() - i,
        {
            if quotes[i].0 == open {
                return Some(quotes[i].1);
            }
            assert(quotes@.subrange(i as int, quotes@.len() as int).drop_first()
                == quotes@.subrange(i + 1, quotes@.len() as int));
            i = i + 1;
        }
        None
    }
}

// ---------------------------------------------------------------------------
// The scanner
// ---------------------------------------------------------------------------

/// The index just past a quoted text whose inside starts at `from`.
fn end_of_quoted(chars: &[char], from: usize, close: char, doubled: bool) -> (r: usize)
    requires
        from <= chars@.len(),
    ensures
        r == quoted_end(chars@, from as int, close, doubled),
        from <= r <= chars@.len(),
{
    let mut i: usize = from;
    while i < chars.len()
        invariant
            from <= i <= chars@.len(),
            quoted_end(chars@, from as int, close, doubled) == quoted_end(
                chars@,
                i as int,
                close,
                doubled,
            ),
        decreases chars@.len() - i,
    {
        if chars[i] != close {
            i = i + 1;
        } else if doubled && i + 1 < chars.len() && chars[i + 1] == close {
            i = i + 2;
        } else {
            return i + 1;
        }
    }
    i
}

/// The index just past the line that `from` is on.
fn end_of_line(chars: &[char], from: usize) -> (r: usize)
    requires
        from <= chars@.len(),
    ensures
        r == line_end(chars@, from as int),
        from <= r <= chars@.len(),
{
    let mut i: usize = from;
    while i < chars.len()
        invariant
            from <= i <= chars@.len(),
            line_end(chars@, from as int) == line_end(chars@, i as int),
        decreases chars@.len() - i,
    {
        if chars[i] == '\n' {
            return i + 1;
        }
        i = i + 1;
    }
    i
}

/// The index just past the first `*/` at or after `from`.
fn end_of_block(chars: &[char], from: usize) -> (r: usize)
    requires
        from <= chars@.len(),
    ensures
        r == block_end(chars@, from as int),
        from <= r <= chars@.len(),
{
    let mut i: usize = from;
    while i < chars.len()
        invariant
            from <= i <= chars@.len(),
            block_end(chars@, from as int) == block_end(chars@, i as int),
        decreases chars@.len() - i,
    {
        if chars[i] == '*' && i + 1 < chars.len() && chars[i + 1] == '/' {
            return i + 2;
        }
        i = i + 1;
    }
    i
}

impl<Remap, Rewrite, Date, Time, Timestamp> EscapeDialect<
    Remap,
    Rewrite,
    Date,
    Time,
    Timestamp,
> where
    Remap: RenameRule,
    Rewrite: RewriteRule,
    Date: RenderRule,
    Time: RenderRule,
    Timestamp: RenderRule,
 {
    /// Where a string literal, a quoted identifier or a comment starts at `i`:
    /// the index just past it. One that is never closed runs to the end.
    fn end_of_verbatim(&self, chars: &[char], i: usize) -> (r: Option<usize>)
        requires
            i < chars@.len(),
        ensures
            match r {
                Some(e) => verbatim_end(self.quotes(), chars@, i as int) == Some(e as int) && i < e
                    <= chars@.len(),
                None => verbatim_end(self.quotes(), chars@, i as int) is None,
            },
    {
        proof {
            lemma_verbatim_end(self.quotes(), chars@, i as int);
        }
        let c = chars[i];
        if c == '\'' {
            return Some(end_of_quoted(chars, i + 1, '\'', true));
        }
        if let Some(close) = self.ident_close(c) {
            return Some(end_of_quoted(chars, i + 1, close, c == close));
        }
        if c == '-' && i + 1 < chars.len() && chars[i + 1] == '-' {
            return Some(end_of_line(chars, i));
        }
        if c == '/' && i + 1 < chars.len() && chars[i + 1] == '*' {
            return Some(end_of_block(chars, i + 2));
        }
        None
    }

    /// The `}` matching the `{` at `open`.
    fn find_matching_brace(&self, chars: &[char], open: usize) -> (r: Result<usize, OdbcError>)
        requires
            open < chars@.len(),
        ensures
            match r {
                Ok(close) => brace_close(self.quotes(), chars@, open + 1, 1) == Some(close as int)
                    && open < close < chars@.len() && chars@[close as int] == '}',
                Err(e) => brace_close(self.quotes(), chars@, open + 1, 1) is None && e@
                    == unterminated(),
            },
    {
        proof {
            lemma_brace_close(self.quotes(), chars@, open + 1, 1);
        }
        assert(open < chars.len());
        let mut depth: usize = 1;
        let mut i: usize = open + 1;
        while i < chars.len()
            invariant
                open < i <= chars@.len(),
                1 <= depth <= i,
                brace_close(self.quotes(), chars@, open + 1, 1) == brace_close(
                    self.quotes(),
                    chars@,
                    i as int,
                    depth as int,
                ),
                brace_close(self.quotes(), chars@, open + 1, 1) matches Some(c) ==> open < c
                    < chars@.len() && chars@[c] == '}',
            decreases chars@.len() - i,
        {
            if let Some(e) = self.end_of_verbatim(chars, i) {
                i = e;
            } else {
                let c = chars[i];
                if c == '{' {
                    depth = depth + 1;
                } else if c == '}' {
                    if depth == 1 {
                        return Ok(i);
                    }
                    depth = depth - 1;
                }
                i = i + 1;
            }
        }
        Err(
            OdbcError::general(
                "unterminated ODBC escape sequence (missing '}')",
                SqlState::syntax_error_or_access_violation(),
            ),
        )
    }

    /// The `)` before `limit` matching the `(` at `open`. An unbalanced call
    /// has none; the data source will reject it.
    fn find_matching_paren(&self, chars: &[char], open: usize, limit: usize) -> (r: Option<usize>)
        requires
            open <= limit <= chars@.len(),
        ensures
            match r {
                Some(q) => paren_close(self.quotes(), chars@, open as int, limit as int, 0) == Some(
                    q as int,
                ) && open < q < limit && chars@[q as int] == ')',
                None => paren_close(self.quotes(), chars@, open as int, limit as int, 0) is None,
            },
    {
        proof {
            lemma_paren_close(self.quotes(), chars@, open as int, limit as int, 0);
        }
        let mut depth: usize = 0;
        let mut i: usize = open;
        while i < limit
            invariant
                open <= i <= chars@.len(),
                limit <= chars@.len(),
                depth <= i,
                paren_close(self.quotes(), chars@, open as int, limit as int, 0) == paren_close(
                    self.quotes(),
                    chars@,
                    i as int,
                    limit as int,
                    depth as int,
                ),
                paren_close(self.quotes(), chars@, open as int, limit as int, 0) matches Some(c)
                    ==> open < c < limit && chars@[c] == ')',
            decreases chars@.len() - i,
        {
            if let Some(e) = self.end_of_verbatim(chars, i) {
                i = e;
            } else {
                let c = chars[i];
                if c == '(' {
                    depth = depth + 1;
                } else if c == ')' {
                    if depth == 1 {
                        return Some(i);
                    }
                    if depth > 1 {
                        depth = depth - 1;
                    }
                }
                i = i + 1;
            }
        }
        None
    }
}

/// What the dialect makes of `{fn NAME...}`.
enum FnCall {
    /// It rewrote the call: this replaces the whole escape.
    Rewritten(Vec<char>),
    /// It declined the call: this is the translation of what follows the name.
    Declined(Vec<char>),
    /// No balanced pair of parentheses follows the name; nothing is translated
    /// yet.
    NotACall,
}

impl View for FnCall {
    type V = FnCallView;

    closed spec fn view(&self) -> FnCallView {
        match self {
            FnCall::Rewritten(text) => FnCallView::Rewritten(text@),
            FnCall::Declined(rest) => FnCallView::Declined(rest@),
            FnCall::NotACall => FnCallView::NotACall,
        }
    }
}

/// A translation by its view: the characters, or the failure.
spec fn chars_outcome(r: Result<Vec<char>, OdbcError>) -> Translation {
    match r {
        Ok(out) => Ok(out@),
        Err(e) => Err(Stop::Failure(e@)),
    }
}

/// A translation by its view: the characters, or the failure.
pub open spec fn text_outcome(r: Result<String, OdbcError>) -> Result<Seq<char>, ErrorView> {
    match r {
        Ok(out) => Ok(out@),
        Err(e) => Err(e@),
    }
}

proof fn lemma_prepend(a: Seq<char>, b: Seq<char>, rest: Translation)
    ensures
        prepend(a, prepend(b, rest)) == prepend(a + b, rest),
        prepend(Seq::<char>::empty(), rest) == rest,
{
    if let Ok(r) = rest {
        assert(a + (b + r) == (a + b) + r);
        assert(Seq::<char>::empty() + r == r);
    }
}

/// The first index at or after `from` that holds no white space.
fn after_space(chars: &[char], from: usize) -> (r: usize)
    requires
        from <= chars@.len(),
    ensures
        r == skip_space(chars@, from as int),
        from <= r <= chars@.len(),
{
    let mut i: usize = from;
    while i < chars.len() && whitespace(chars[i])
        invariant
            from <= i <= chars@.len(),
            skip_space(chars@, from as int) == skip_space(chars@, i as int),
        decreases chars@.len() - i,
    {
        i = i + 1;
    }
    i
}

/// The index just past the word that starts at `from`.
fn after_word(chars: &[char], from: usize, underscore: bool) -> (r: usize)
    requires
        from <= chars@.len(),
    ensures
        r == word_end(chars@, from as int, underscore),
        from <= r <= chars@.len(),
{
    let mut i: usize = from;
    while i < chars.len() && (alphanumeric(chars[i]) || (underscore && chars[i] == '_'))
        invariant
            from <= i <= chars@.len(),
            word_end(chars@, from as int, underscore) == word_end(chars@, i as int, underscore),
        decreases chars@.len() - i,
    {
        i = i + 1;
    }
    i
}

/// The text between two indices without the white space around it.
fn inner_trimmed(chars: &[char], from: usize, close: usize) -> (r: String)
    requires
        from <= close <= chars@.len(),
    ensures
        r@ == trim(chars@.subrange(from as int, close as int)),
{
    string_of(trimmed(slice_subrange(chars, from, close)))
}

// While a text is translated, the answers that the rules gave are gathered, and
// with them it is known what the text comes to whatever the rules answer at the
// places still to come.

/// No answer to any question.
spec fn no_rule_answers() -> RuleAnswers {
    RuleAnswers {
        remap: |x: Seq<char>| None,
        rewrite: |x: Seq<char>, y: Seq<char>| None,
        date: |x: Seq<char>| None,
        time: |x: Seq<char>| None,
        timestamp: |x: Seq<char>| None,
    }
}

/// No answers at any place.
spec fn no_answers(quotes: Seq<(char, char)>) -> Answers {
    Answers { quotes, at: |place: int| no_rule_answers() }
}

/// The same answers at the places from `lo` on and before `hi`.
spec fn agree(a: Answers, b: Answers, lo: int, hi: int) -> bool {
    a.quotes == b.quotes && forall|place: int|
        lo <= place < hi ==> (a.at)(place) == #[trigger] (b.at)(place)
}

/// The answers of `a` before `cut`, and those of `b` from there on.
spec fn spliced(a: Answers, b: Answers, cut: int) -> Answers {
    Answers {
        quotes: a.quotes,
        at: |place: int|
            if place < cut {
                (a.at)(place)
            } else {
                (b.at)(place)
            },
    }
}

/// `a` with the rules of `m` at `place`.
spec fn with_rules(a: Answers, place: int, m: RuleAnswers) -> Answers {
    Answers {
        quotes: a.quotes,
        at: |p: int|
            if p == place {
                m
            } else {
                (a.at)(p)
            },
    }
}

/// `s` comes to `r` with the answers of `a` for its own places.
spec fn comes_to(
    a: Answers,
    s: Seq<char>,
    base: int,
    depth: int,
    r: Translation,
) -> bool {
    forall|b: Answers| #[trigger]
        agree(a, b, base, base + s.len()) ==> translated_at(b, s, base, depth) == r
}

/// `s` up to `i` comes to `out` with the answers of `a` for the places there.
spec fn comes_so_far(
    a: Answers,
    s: Seq<char>,
    base: int,
    i: int,
    depth: int,
    out: Seq<char>,
) -> bool {
    forall|b: Answers| #[trigger]
        agree(a, b, base, base + i) ==> translated_at(b, s, base, depth) == prepend(
            out,
            translated_from(b, s, base, i, depth),
        )
}

/// The escape at `open` comes to `r` with the answers of `a` for the places from
/// there on and before `end`.
spec fn escape_comes_to(
    a: Answers,
    s: Seq<char>,
    base: int,
    open: int,
    end: int,
    depth: int,
    r: Translation,
) -> bool {
    forall|b: Answers| #[trigger]
        agree(a, b, base + open, base + end) ==> translated_escape(b, s, base, open, depth) == r
}

/// The call comes to `r` with the rewrite of `a` at `place` and its answers for
/// the places behind it.
spec fn call_comes_to(
    a: Answers,
    s: Seq<char>,
    base: int,
    place: int,
    name: int,
    n: int,
    close: int,
    depth: int,
    r: Result<FnCallView, Stop>,
) -> bool {
    forall|b: Answers| #[trigger]
        agree(a, b, place + 1, base + close) && (b.at)(place).rewrite == (a.at)(place).rewrite
            ==> call_outcome(b, s, base, place, name, n, close, depth) == r
}

proof fn lemma_comes_to(
    a: Answers,
    s: Seq<char>,
    base: int,
    depth: int,
    r: Translation,
)
    requires
        comes_to(a, s, base, depth, r),
    ensures
        translated_at(a, s, base, depth) == r,
{
    assert(agree(a, a, base, base + s.len()));
}

proof fn lemma_verbatim_step(
    a: Answers,
    s: Seq<char>,
    base: int,
    i: int,
    depth: int,
    out: Seq<char>,
)
    requires
        0 <= i < s.len(),
        comes_so_far(a, s, base, i, depth, out),
    ensures
        verbatim_end(a.quotes, s, i) matches Some(e) ==> comes_so_far(
            a,
            s,
            base,
            e,
            depth,
            out + s.subrange(i, e),
        ),
        verbatim_end(a.quotes, s, i) is None && s[i] != '{' ==> comes_so_far(
            a,
            s,
            base,
            i + 1,
            depth,
            out + seq![s[i]],
        ),
{
    lemma_verbatim_end(a.quotes, s, i);
    if let Some(e) = verbatim_end(a.quotes, s, i) {
        assert forall|b: Answers| #[trigger] agree(a, b, base, base + e) implies translated_at(
            b,
            s,
            base,
            depth,
        ) == prepend(out + s.subrange(i, e), translated_from(b, s, base, e, depth)) by {
            assert(agree(a, b, base, base + i));
            lemma_prepend(out, s.subrange(i, e), translated_from(b, s, base, e, depth));
        }
    } else if s[i] != '{' {
        assert forall|b: Answers| #[trigger]
            agree(a, b, base, base + (i + 1)) implies translated_at(
            b,
            s,
            base,
            depth,
        ) == prepend(out + seq![s[i]], translated_from(b, s, base, i + 1, depth)) by {
            assert(agree(a, b, base, base + i));
            lemma_prepend(out, seq![s[i]], translated_from(b, s, base, i + 1, depth));
        }
    }
}

proof fn lemma_escape_step(
    a: Answers,
    e: Answers,
    s: Seq<char>,
    base: int,
    i: int,
    next: int,
    depth: int,
    out: Seq<char>,
    text: Seq<char>,
)
    requires
        0 <= i < next <= s.len(),
        comes_so_far(a, s, base, i, depth, out),
        verbatim_end(a.quotes, s, i) is None,
        s[i] == '{',
        a.quotes == e.quotes,
        brace_close(a.quotes, s, i + 1, 1) == Some(next - 1),
        escape_comes_to(e, s, base, i, next, depth, Ok(text)),
    ensures
        comes_so_far(spliced(a, e, base + i), s, base, next, depth, out + text),
{
    let c = spliced(a, e, base + i);
    assert forall|b: Answers| #[trigger] agree(c, b, base, base + next) implies translated_at(
        b,
        s,
        base,
        depth,
    ) == prepend(out + text, translated_from(b, s, base, next, depth)) by {
        assert forall|place: int| base <= place < base + i implies (a.at)(place) == #[trigger] (
        b.at)(place) by {
            assert((c.at)(place) == (b.at)(place));
        }
        assert(agree(a, b, base, base + i));
        assert forall|place: int| base + i <= place < base + next implies (e.at)(place)
            == #[trigger] (b.at)(place) by {
            assert((c.at)(place) == (b.at)(place));
        }
        assert(agree(e, b, base + i, base + next));
        lemma_prepend(out, text, translated_from(b, s, base, next, depth));
    }
}

proof fn lemma_escape_failure(
    a: Answers,
    e: Answers,
    s: Seq<char>,
    base: int,
    i: int,
    depth: int,
    out: Seq<char>,
    failure: Stop,
)
    requires
        0 <= i < s.len(),
        comes_so_far(a, s, base, i, depth, out),
        verbatim_end(a.quotes, s, i) is None,
        s[i] == '{',
        a.quotes == e.quotes,
        escape_comes_to(e, s, base, i, s.len() as int, depth, Err(failure)),
    ensures
        comes_to(spliced(a, e, base + i), s, base, depth, Err(failure)),
{
    let c = spliced(a, e, base + i);
    assert forall|b: Answers| #[trigger] agree(c, b, base, base + s.len()) implies translated_at(
        b,
        s,
        base,
        depth,
    ) == Err::<Seq<char>, Stop>(failure) by {
        assert forall|place: int| base <= place < base + i implies (a.at)(place) == #[trigger] (
        b.at)(place) by {
            assert((c.at)(place) == (b.at)(place));
        }
        assert(agree(a, b, base, base + i));
        assert forall|place: int| base + i <= place < base + s.len() implies (e.at)(place)
            == #[trigger] (b.at)(place) by {
            assert((c.at)(place) == (b.at)(place));
        }
        assert(agree(e, b, base + i, base + s.len()));
    }
}

/// The arguments and what stands behind them, and the rewrite between.
proof fn lemma_call_parts(
    a: Answers,
    b: Answers,
    s: Seq<char>,
    base: int,
    place: int,
    n: int,
    p: int,
    q: int,
    close: int,
    depth: int,
    args: Translation,
    tail: Translation,
    m: RuleAnswers,
)
    requires
        0 <= n <= p < q < close <= s.len(),
        place < base + n,
        a.quotes == b.quotes,
        comes_to(a, s.subrange(p + 1, q), base + p + 1, depth, args),
        comes_to(b, s.subrange(q + 1, close), base + q + 1, depth, tail),
    ensures
        forall|c: Answers| #[trigger]
            agree(with_rules(spliced(a, b, base + q + 1), place, m), c, place + 1, base + close)
                ==> {
                &&& c.quotes == a.quotes
                &&& translated_at(c, s.subrange(p + 1, q), base + p + 1, depth) == args
                &&& translated_at(c, s.subrange(q + 1, close), base + q + 1, depth) == tail
            },
{
    let d = with_rules(spliced(a, b, base + q + 1), place, m);
    assert forall|c: Answers| #[trigger] agree(d, c, place + 1, base + close) implies {
        &&& c.quotes == a.quotes
        &&& translated_at(c, s.subrange(p + 1, q), base + p + 1, depth) == args
        &&& translated_at(c, s.subrange(q + 1, close), base + q + 1, depth) == tail
    } by {
        assert forall|x: int| base + p + 1 <= x < base + q implies (a.at)(x) == #[trigger] (c.at)(
            x,
        ) by {
            assert((d.at)(x) == (c.at)(x));
        }
        assert(agree(a, c, base + p + 1, base + p + 1 + s.subrange(p + 1, q).len()));
        assert forall|x: int| base + q + 1 <= x < base + close implies (b.at)(x) == #[trigger] (
        c.at)(x) by {
            assert((d.at)(x) == (c.at)(x));
        }
        assert(agree(b, c, base + q + 1, base + q + 1 + s.subrange(q + 1, close).len()));
    }
}

/// An escape by its view: the replacement, or the failure.
spec fn escape_outcome(r: Result<(Vec<char>, usize), OdbcError>) -> Translation {
    match r {
        Ok((text, _)) => Ok(text@),
        Err(e) => Err(Stop::Failure(e@)),
    }
}

/// Where an escape of `s` ends; one that fails is taken to the end of `s`.
spec fn escape_end(s: Seq<char>, r: Result<(Vec<char>, usize), OdbcError>) -> int {
    match r {
        Ok((_, next)) => next as int,
        Err(_) => s.len() as int,
    }
}

/// A call by its view.
spec fn call_view(r: Result<FnCall, OdbcError>) -> Result<FnCallView, Stop> {
    match r {
        Ok(call) => Ok(call@),
        Err(e) => Err(Stop::Failure(e@)),
    }
}

/// An escape starts at `open` and ends at `close`; its keyword ends at `k`, and is
/// `keyword` in small letters.
spec fn is_escape(
    quotes: Seq<(char, char)>,
    s: Seq<char>,
    open: int,
    k: int,
    close: int,
    keyword: Seq<char>,
) -> bool {
    let kw = skip_space(s, open + 1);
    &&& 0 <= open < k <= close < s.len()
    &&& k == word_end(s, kw, false)
    &&& lowercase(s.subrange(kw, k)) == keyword
    &&& brace_close(quotes, s, open + 1, 1) == Some(close)
}

/// `g`, and `r` as the answer to `x`.
spec fn answering<T>(g: spec_fn(Seq<char>) -> Option<T>, x: Seq<char>, r: T) -> spec_fn(
    Seq<char>,
) -> Option<T> {
    |y: Seq<char>|
        if y == x {
            Some(r)
        } else {
            g(y)
        }
}

/// `g`, and `r` as the answer to `x` and `y`.
spec fn answering_call(
    g: spec_fn(Seq<char>, Seq<char>) -> Option<Option<Seq<char>>>,
    x: Seq<char>,
    y: Seq<char>,
    r: Option<Seq<char>>,
) -> spec_fn(Seq<char>, Seq<char>) -> Option<Option<Seq<char>>> {
    |v: Seq<char>, w: Seq<char>|
        if v == x && w == y {
            Some(r)
        } else {
            g(v, w)
        }
}

/// Where the dialect does not rewrite the call, the escape comes to the mapped
/// name and `rest`, with the rewrite of `a` at `place` and its answers for the
/// places behind it.
spec fn rest_comes_to(
    a: Answers,
    s: Seq<char>,
    base: int,
    place: int,
    name: int,
    n: int,
    close: int,
    depth: int,
    rest: Seq<char>,
) -> bool {
    forall|b: Answers| #[trigger]
        agree(a, b, place + 1, base + close) && (b.at)(place).rewrite == (a.at)(place).rewrite
            ==> translated_call(b, s, base, place, name, n, close, depth) == named(
            remapped((b.at)(place), s.subrange(name, n)),
            Ok(rest),
        )
}

proof fn lemma_keywords_differ()
    ensures
        "d"@ != "fn"@,
        "t"@ != "fn"@,
        "ts"@ != "fn"@,
        "t"@ != "d"@,
        "ts"@ != "d"@,
        "ts"@ != "t"@,
{
    reveal_strlit("fn");
    reveal_strlit("d");
    reveal_strlit("t");
    reveal_strlit("ts");
    assert("t"@[0] != "d"@[0]);
    assert("ts"@[0] != "fn"@[0]);
    assert("ts"@.len() != "t"@.len());
}

/// The body of an `{oj ...}` decides what it comes to.
proof fn lemma_join(
    a: Answers,
    s: Seq<char>,
    base: int,
    open: int,
    k: int,
    close: int,
    depth: int,
    body: Translation,
)
    requires
        is_escape(a.quotes, s, open, k, close, "oj"@),
        comes_to(a, s.subrange(k, close), base + k, depth + 1, body),
    ensures
        escape_comes_to(
            a,
            s,
            base,
            open,
            match body {
                Ok(_) => close + 1,
                Err(_) => s.len() as int,
            },
            depth,
            match body {
                Ok(text) => Ok(trim(text)),
                Err(e) => Err(e),
            },
        ),
{
    let end = match body {
        Ok(_) => close + 1,
        Err(_) => s.len() as int,
    };
    assert forall|b: Answers| #[trigger] agree(a, b, base + open, base + end) implies (
    translated_escape(b, s, base, open, depth) == match body {
        Ok(text) => Ok::<Seq<char>, Stop>(trim(text)),
        Err(e) => Err::<Seq<char>, Stop>(e),
    }) by {
        assert(agree(a, b, base + k, base + k + s.subrange(k, close).len()));
        reveal_strlit("oj");
        reveal_strlit("fn");
        reveal_strlit("d");
        reveal_strlit("t");
        reveal_strlit("ts");
        assert("oj"@[0] != "fn"@[0]);
        assert("oj"@[0] != "ts"@[0]);
    }
}

/// No balanced pair of parentheses follows the name that ends at `n`.
spec fn is_no_call(quotes: Seq<(char, char)>, s: Seq<char>, n: int, close: int) -> bool {
    let p = skip_space(s, n);
    s[p] != '(' || paren_close(quotes, s, p, close, 0) is None
}

/// A call that fails or is rewritten is all that its escape comes to.
proof fn lemma_call_ends(
    a: Answers,
    s: Seq<char>,
    base: int,
    open: int,
    k: int,
    name: int,
    n: int,
    close: int,
    end: int,
    depth: int,
    call: Result<FnCallView, Stop>,
    r: Translation,
)
    requires
        is_escape(a.quotes, s, open, k, close, "fn"@),
        name == skip_space(s, k),
        n == word_end(s, name, true),
        name < n,
        close < end <= s.len(),
        call_comes_to(a, s, base, base + open, name, n, close, depth, call),
        match call {
            Ok(FnCallView::Rewritten(text)) => r == Ok::<Seq<char>, Stop>(text),
            Err(e) => r == Err::<Seq<char>, Stop>(e),
            _ => false,
        },
    ensures
        escape_comes_to(a, s, base, open, end, depth, r),
{
    lemma_escape_layout(a.quotes, s, open);
    assert forall|b: Answers| #[trigger] agree(a, b, base + open, base + end) implies (
    translated_escape(b, s, base, open, depth) == r) by {
        assert((a.at)(base + open) == (b.at)(base + open));
        assert(agree(a, b, base + open + 1, base + close));
    }
}

/// Where no call follows the name, what stands behind it decides the escape.
proof fn lemma_no_call(
    c: Answers,
    s: Seq<char>,
    base: int,
    open: int,
    k: int,
    name: int,
    n: int,
    close: int,
    depth: int,
    piece: Translation,
)
    requires
        is_escape(c.quotes, s, open, k, close, "fn"@),
        name == skip_space(s, k),
        n == word_end(s, name, true),
        name < n,
        is_no_call(c.quotes, s, n, close),
        comes_to(c, s.subrange(n, close), base + n, depth + 1, piece),
    ensures
        match piece {
            Ok(rest) => rest_comes_to(c, s, base, base + open, name, n, close, depth, rest),
            Err(e) => escape_comes_to(c, s, base, open, s.len() as int, depth, Err(e)),
        },
{
    lemma_escape_layout(c.quotes, s, open);
    let place = base + open;
    let word = s.subrange(name, n);
    assert forall|b: Answers| #[trigger] agree(c, b, place + 1, base + close) implies (
    translated_call(b, s, base, place, name, n, close, depth) == named(
        remapped((b.at)(place), word),
        piece,
    )) by {
        assert(agree(c, b, base + n, base + n + s.subrange(n, close).len()));
    }
    if let Err(e) = piece {
        assert forall|b: Answers| #[trigger] agree(c, b, base + open, base + s.len()) implies (
        translated_escape(b, s, base, open, depth) == Err::<Seq<char>, Stop>(e)) by {
            assert(agree(c, b, place + 1, base + close));
        }
    }
}

impl<Remap, Rewrite, Date, Time, Timestamp> EscapeDialect<
    Remap,
    Rewrite,
    Date,
    Time,
    Timestamp,
> where
    Remap: RenameRule,
    Rewrite: RewriteRule,
    Date: RenderRule,
    Time: RenderRule,
    Timestamp: RenderRule,
 {
    /// Where the rules give what the functions of `m` give, these have all the
    /// answers that the rules can give.
    proof fn lemma_follows(&self, m: DialectModel, a: Answers)
        requires
            self.follows(m),
            self.may_answer(a),
        ensures
            has_more(a, m.everywhere()),
    {
        let b = m.everywhere();
        assert forall|place: int| has_more_at((a.at)(place), #[trigger] (b.at)(place)) by {
            assert(self.may_give((a.at)(place)));
            assert((b.at)(place) == m.answers());
        }
    }

    proof fn lemma_no_answers(&self)
        ensures
            self.may_answer(no_answers(self.quotes())),
    {
    }

    proof fn lemma_spliced(&self, a: Answers, b: Answers, cut: int)
        requires
            self.may_answer(a),
            self.may_answer(b),
        ensures
            self.may_answer(spliced(a, b, cut)),
    {
        let c = spliced(a, b, cut);
        assert forall|place: int| self.may_give(#[trigger] (c.at)(place)) by {
            assert(self.may_give((a.at)(place)));
            assert(self.may_give((b.at)(place)));
        }
    }

    proof fn lemma_with_rules(&self, a: Answers, place: int, m: RuleAnswers)
        requires
            self.may_answer(a),
            self.may_give(m),
        ensures
            self.may_answer(with_rules(a, place, m)),
    {
        let c = with_rules(a, place, m);
        assert forall|p: int| self.may_give(#[trigger] (c.at)(p)) by {
            assert(self.may_give((a.at)(p)));
        }
    }

    /// Translates `chars`, which start at `base` in the statement and stand `depth`
    /// escapes inside it.
    fn translate_slice(&self, chars: &[char], depth: usize, Ghost(base): Ghost<int>) -> (r: Result<
        Vec<char>,
        OdbcError,
    >)
        requires
            self.callable(),
            depth <= MAX_ESCAPE_DEPTH + 1,
        ensures
            exists|a: Answers| #[trigger]
                self.may_answer(a) && comes_to(a, chars@, base, depth as int, chars_outcome(r)),
        decreases chars@.len(), chars@.len() + 1, 0int,
    {
        let ghost mut a = no_answers(self.quotes());
        proof {
            self.lemma_no_answers();
        }
        if depth > MAX_ESCAPE_DEPTH {
            assert(comes_to(a, chars@, base, depth as int, Err(Stop::Failure(too_deep()))));
            return Err(
                OdbcError::general(
                    "Escape sequences nested deeper than 64 levels",
                    SqlState::syntax_error_or_access_violation(),
                ),
            );
        }
        let mut out: Vec<char> = Vec::new();
        let mut i: usize = 0;
        proof {
            assert forall|b: Answers| translated_at(b, chars@, base, depth as int) == prepend(
                out@,
                #[trigger] translated_from(b, chars@, base, 0, depth as int),
            ) by {
                lemma_prepend(out@, out@, translated_from(b, chars@, base, 0, depth as int));
            }
        }
        while i < chars.len()
            invariant
                self.callable(),
                depth <= MAX_ESCAPE_DEPTH,
                i <= chars@.len(),
                self.may_answer(a),
                comes_so_far(a, chars@, base, i as int, depth as int, out@),
            decreases chars@.len() - i,
        {
            let ghost before = out@;
            let ghost start = i as int;
            proof {
                lemma_verbatim_step(a, chars@, base, start, depth as int, before);
            }
            if let Some(e) = self.end_of_verbatim(chars, i) {
                push_all(&mut out, slice_subrange(chars, i, e));
                i = e;
            } else if chars[i] == '{' {
                let step = self.translate_escape(chars, i, depth, Ghost(base));
                let ghost e = choose|e: Answers| #[trigger]
                    self.may_answer(e) && escape_comes_to(
                        e,
                        chars@,
                        base,
                        start,
                        escape_end(chars@, step),
                        depth as int,
                        escape_outcome(step),
                    );
                match step {
                    Ok((text, next)) => {
                        push_all(&mut out, text.as_slice());
                        i = next;
                        proof {
                            lemma_escape_step(
                                a,
                                e,
                                chars@,
                                base,
                                start,
                                next as int,
                                depth as int,
                                before,
                                text@,
                            );
                            self.lemma_spliced(a, e, base + start);
                            a = spliced(a, e, base + start);
                        }
                    },
                    Err(failure) => {
                        proof {
                            lemma_escape_failure(
                                a,
                                e,
                                chars@,
                                base,
                                start,
                                depth as int,
                                before,
                                Stop::Failure(failure@),
                            );
                            self.lemma_spliced(a, e, base + start);
                        }
                        return Err(failure);
                    },
                }
            } else {
                out.push(chars[i]);
                i = i + 1;
                assert(out@ == before + seq![chars@[start]]);
            }
        }
        proof {
            assert(out@ + Seq::<char>::empty() == out@);
            assert(comes_to(a, chars@, base, depth as int, Ok(out@)));
        }
        Ok(out)
    }

    /// Translates the escape whose `{` is at `open`: its replacement, and the
    /// index just past its `}`.
    fn translate_escape(
        &self,
        chars: &[char],
        open: usize,
        depth: usize,
        Ghost(base): Ghost<int>,
    ) -> (r: Result<(Vec<char>, usize), OdbcError>)
        requires
            self.callable(),
            depth <= MAX_ESCAPE_DEPTH,
            open < chars@.len(),
        ensures
            r matches Ok((_, next)) ==> open < next <= chars@.len() && brace_close(
                self.quotes(),
                chars@,
                open + 1,
                1,
            ) == Some(next - 1),
            exists|a: Answers| #[trigger]
                self.may_answer(a) && escape_comes_to(
                    a,
                    chars@,
                    base,
                    open as int,
                    escape_end(chars@, r),
                    depth as int,
                    escape_outcome(r),
                ),
        decreases chars@.len(), chars@.len() - open, 1int,
    {
        let ghost none = no_answers(self.quotes());
        proof {
            self.lemma_no_answers();
            lemma_escape_layout(self.quotes(), chars@, open as int);
        }
        assert(open < chars.len());
        let kw = after_space(chars, open + 1);
        let k = after_word(chars, kw, false);
        let keyword = to_lowercase(slice_subrange(chars, kw, k));
        let close = match self.find_matching_brace(chars, open) {
            Ok(close) => close,
            Err(e) => {
                assert(escape_comes_to(
                    none,
                    chars@,
                    base,
                    open as int,
                    chars@.len() as int,
                    depth as int,
                    Err(Stop::Failure(unterminated())),
                ));
                return Err(e);
            },
        };
        if spells(keyword.as_slice(), "fn") {
            return self.translate_function(chars, open, k, close, depth, Ghost(base));
        }
        if spells(keyword.as_slice(), "d") || spells(keyword.as_slice(), "t") || spells(
            keyword.as_slice(),
            "ts",
        ) {
            return Ok(
                (
                    self.translate_literal(
                        chars,
                        keyword.as_slice(),
                        open,
                        k,
                        close,
                        depth,
                        Ghost(base),
                    ),
                    close + 1,
                ),
            );
        }
        let mut out: Vec<char> = Vec::new();
        if spells(keyword.as_slice(), "oj") {
            let body = self.translate_slice(
                slice_subrange(chars, k, close),
                depth + 1,
                Ghost(base + k),
            );
            let ghost a = choose|a: Answers| #[trigger]
                self.may_answer(a) && comes_to(
                    a,
                    chars@.subrange(k as int, close as int),
                    base + k,
                    depth + 1,
                    chars_outcome(body),
                );
            proof {
                lemma_join(
                    a,
                    chars@,
                    base,
                    open as int,
                    k as int,
                    close as int,
                    depth as int,
                    chars_outcome(body),
                );
            }
            match body {
                Ok(body) => push_all(&mut out, trimmed(body.as_slice())),
                Err(e) => {
                    return Err(e);
                },
            }
        } else if spells(keyword.as_slice(), "escape") {
            push_text(&mut out, "ESCAPE ");
            push_all(&mut out, trimmed(slice_subrange(chars, k, close)));
            assert(escape_comes_to(
                none,
                chars@,
                base,
                open as int,
                close + 1,
                depth as int,
                Ok(out@),
            ));
        } else if spells(keyword.as_slice(), "call") {
            assert(escape_comes_to(
                none,
                chars@,
                base,
                open as int,
                chars@.len() as int,
                depth as int,
                Err(Stop::Failure(call_unsupported())),
            ));
            return Err(
                OdbcError::general(
                    "stored-procedure escape ({call ...}) is not supported by this driver",
                    SqlState::optional_feature_not_implemented(),
                ),
            );
        } else if kw == k && chars[kw] == '?' {
            assert(escape_comes_to(
                none,
                chars@,
                base,
                open as int,
                chars@.len() as int,
                depth as int,
                Err(Stop::Failure(return_call_unsupported())),
            ));
            return Err(
                OdbcError::general(
                    "stored-procedure escape ({?= call ...}) is not supported by this driver",
                    SqlState::optional_feature_not_implemented(),
                ),
            );
        } else {
            push_all(&mut out, slice_subrange(chars, open, close + 1));
            assert(escape_comes_to(
                none,
                chars@,
                base,
                open as int,
                close + 1,
                depth as int,
                Ok(out@),
            ));
        }
        Ok((out, close + 1))
    }

    /// Translates the escape at `open` of a date, a time or a timestamp, whose
    /// literal stands from `k` to its `}` at `close`.
    fn translate_literal(
        &self,
        chars: &[char],
        keyword: &[char],
        open: usize,
        k: usize,
        close: usize,
        depth: usize,
        Ghost(base): Ghost<int>,
    ) -> (r: Vec<char>)
        requires
            self.callable(),
            is_escape(self.quotes(), chars@, open as int, k as int, close as int, keyword@),
            keyword@ == "d"@ || keyword@ == "t"@ || keyword@ == "ts"@,
        ensures
            exists|a: Answers| #[trigger]
                self.may_answer(a) && escape_comes_to(
                    a,
                    chars@,
                    base,
                    open as int,
                    close + 1,
                    depth as int,
                    Ok(r@),
                ),
    {
        let literal = inner_trimmed(chars, k, close);
        let ghost rules = no_rule_answers();
        let ghost x = literal@;
        proof {
            self.lemma_no_answers();
            lemma_keywords_differ();
        }
        let text = if spells(keyword, "d") {
            assert(self.render_date == self.date());
            self.render_date.render(literal.as_str())
        } else if spells(keyword, "t") {
            assert(self.render_time == self.time());
            self.render_time.render(literal.as_str())
        } else {
            assert(self.render_timestamp == self.timestamp());
            self.render_timestamp.render(literal.as_str())
        };
        let mut out: Vec<char> = Vec::new();
        push_text(&mut out, text.as_str());
        proof {
            let m = if keyword@ == "d"@ {
                RuleAnswers { date: answering(rules.date, x, text@), ..rules }
            } else if keyword@ == "t"@ {
                RuleAnswers { time: answering(rules.time, x, text@), ..rules }
            } else {
                RuleAnswers { timestamp: answering(rules.timestamp, x, text@), ..rules }
            };
            assert(self.may_give(m));
            let a = with_rules(no_answers(self.quotes()), base + open, m);
            self.lemma_with_rules(no_answers(self.quotes()), base + open, m);
            assert forall|b: Answers| #[trigger]
                agree(a, b, base + open, base + (close + 1)) implies translated_escape(
                b,
                chars@,
                base,
                open as int,
                depth as int,
            ) == Ok::<Seq<char>, Stop>(out@) by {
                assert((a.at)(base + open) == (b.at)(base + open));
            }
        }
        out
    }

    /// Translates the escape `{fn NAME...}` at `open`, whose keyword ends at `k`,
    /// with its `}` at `close`.
    fn translate_function(
        &self,
        chars: &[char],
        open: usize,
        k: usize,
        close: usize,
        depth: usize,
        Ghost(base): Ghost<int>,
    ) -> (r: Result<(Vec<char>, usize), OdbcError>)
        requires
            self.callable(),
            depth <= MAX_ESCAPE_DEPTH,
            is_escape(self.quotes(), chars@, open as int, k as int, close as int, "fn"@),
        ensures
            r matches Ok((_, next)) ==> next == close + 1,
            exists|a: Answers| #[trigger]
                self.may_answer(a) && escape_comes_to(
                    a,
                    chars@,
                    base,
                    open as int,
                    escape_end(chars@, r),
                    depth as int,
                    escape_outcome(r),
                ),
        decreases chars@.len(), chars@.len() - open, 0int,
    {
        proof {
            self.lemma_no_answers();
            lemma_escape_layout(self.quotes(), chars@, open as int);
        }
        let name = after_space(chars, k);
        let n = after_word(chars, name, true);
        let mut out: Vec<char> = Vec::new();
        assert(close < chars.len());
        if name == n {
            push_all(&mut out, slice_subrange(chars, open, close + 1));
            assert(escape_comes_to(
                no_answers(self.quotes()),
                chars@,
                base,
                open as int,
                close + 1,
                depth as int,
                Ok(out@),
            ));
            return Ok((out, close + 1));
        }
        let ghost place = base + open;
        let ghost s = chars@;
        let call = self.translate_call(chars, name, n, close, depth, Ghost(base), Ghost(place));
        let ghost a = choose|a: Answers| #[trigger]
            self.may_answer(a) && call_comes_to(
                a,
                s,
                base,
                place,
                name as int,
                n as int,
                close as int,
                depth as int,
                call_view(call),
            );
        let ghost mut c = a;
        let rest: Vec<char> = match call {
            Err(e) => {
                proof {
                    lemma_call_ends(
                        a,
                        s,
                        base,
                        open as int,
                        k as int,
                        name as int,
                        n as int,
                        close as int,
                        s.len() as int,
                        depth as int,
                        Err(Stop::Failure(e@)),
                        Err(Stop::Failure(e@)),
                    );
                }
                return Err(e);
            },
            Ok(FnCall::Rewritten(text)) => {
                proof {
                    lemma_call_ends(
                        a,
                        s,
                        base,
                        open as int,
                        k as int,
                        name as int,
                        n as int,
                        close as int,
                        close + 1,
                        depth as int,
                        Ok(FnCallView::Rewritten(text@)),
                        Ok(text@),
                    );
                }
                return Ok((text, close + 1));
            },
            Ok(FnCall::Declined(rest)) => {
                assert(rest_comes_to(
                    a,
                    s,
                    base,
                    place,
                    name as int,
                    n as int,
                    close as int,
                    depth as int,
                    rest@,
                ));
                rest
            },
            Ok(FnCall::NotACall) => {
                let piece = self.translate_slice(
                    slice_subrange(chars, n, close),
                    depth + 1,
                    Ghost(base + n),
                );
                proof {
                    c = choose|c: Answers| #[trigger]
                        self.may_answer(c) && comes_to(
                            c,
                            s.subrange(n as int, close as int),
                            base + n,
                            depth + 1,
                            chars_outcome(piece),
                        );
                    lemma_no_call(
                        c,
                        s,
                        base,
                        open as int,
                        k as int,
                        name as int,
                        n as int,
                        close as int,
                        depth as int,
                        chars_outcome(piece),
                    );
                }
                match piece {
                    Ok(rest) => rest,
                    Err(e) => {
                        return Err(e);
                    },
                }
            },
        };
        let word = string_of(slice_subrange(chars, name, n));
        assert(self.remap_scalar_fn == self.remap());
        let mapped = self.remap_scalar_fn.rename(word.as_str());
        match mapped {
            Some(text) => push_text(&mut out, text),
            None => push_text(&mut out, word.as_str()),
        }
        push_all(&mut out, rest.as_slice());
        proof {
            let was = (c.at)(place);
            let m = RuleAnswers {
                remap: answering(was.remap, word@, text_view(mapped)),
                ..was
            };
            assert(self.may_give(was));
            assert(self.may_give(m));
            self.lemma_with_rules(c, place, m);
            let d = with_rules(c, place, m);
            assert(named(remapped(m, word@), Ok(rest@)) == Ok::<Seq<char>, Stop>(out@));
            assert forall|b: Answers| #[trigger]
                agree(d, b, base + open, base + (close + 1)) implies translated_escape(
                b,
                s,
                base,
                open as int,
                depth as int,
            ) == Ok::<Seq<char>, Stop>(out@) by {
                assert((d.at)(place) == (b.at)(place));
                assert forall|p: int| place + 1 <= p < base + close implies (c.at)(p)
                    == #[trigger] (b.at)(p) by {
                    assert((d.at)(p) == (b.at)(p));
                }
                assert(agree(c, b, place + 1, base + close));
            }
            assert(escape_comes_to(
                d,
                s,
                base,
                open as int,
                close + 1,
                depth as int,
                Ok(out@),
            ));
        }
        Ok((out, close + 1))
    }

    /// Offers `{fn NAME...}` to the dialect, for a name from `name` to `n` and a
    /// closing brace at `close`. The arguments are translated once, whether the
    /// dialect rewrites the call or declines it.
    fn translate_call(
        &self,
        chars: &[char],
        name: usize,
        n: usize,
        close: usize,
        depth: usize,
        Ghost(base): Ghost<int>,
        Ghost(place): Ghost<int>,
    ) -> (r: Result<FnCall, OdbcError>)
        requires
            self.callable(),
            depth <= MAX_ESCAPE_DEPTH,
            0 < name < n <= skip_space(chars@, n as int) <= close < chars@.len(),
            place < base + n,
        ensures
            exists|a: Answers| #[trigger]
                self.may_answer(a) && call_comes_to(
                    a,
                    chars@,
                    base,
                    place,
                    name as int,
                    n as int,
                    close as int,
                    depth as int,
                    call_view(r),
                ),
            r matches Ok(FnCall::NotACall) ==> is_no_call(
                self.quotes(),
                chars@,
                n as int,
                close as int,
            ),
        decreases chars@.len(), 0int, 0int,
    {
        let ghost s = chars@;
        let ghost none = no_answers(self.quotes());
        proof {
            self.lemma_no_answers();
        }
        let word = string_of(slice_subrange(chars, name, n));
        let p = after_space(chars, n);
        let arg_close = if chars[p] == '(' {
            self.find_matching_paren(chars, p, close)
        } else {
            None
        };
        let q = match arg_close {
            Some(q) => q,
            None => {
                assert(call_comes_to(
                    none,
                    s,
                    base,
                    place,
                    name as int,
                    n as int,
                    close as int,
                    depth as int,
                    Ok(FnCallView::NotACall),
                ));
                return Ok(FnCall::NotACall);
            },
        };
        let args = self.translate_slice(
            slice_subrange(chars, p + 1, q),
            depth + 1,
            Ghost(base + p + 1),
        );
        let ghost x = choose|x: Answers| #[trigger]
            self.may_answer(x) && comes_to(
                x,
                s.subrange(p + 1, q as int),
                base + p + 1,
                depth + 1,
                chars_outcome(args),
            );
        let args = match args {
            Ok(args) => args,
            Err(e) => {
                assert(call_comes_to(
                    x,
                    s,
                    base,
                    place,
                    name as int,
                    n as int,
                    close as int,
                    depth as int,
                    Err(Stop::Failure(e@)),
                )) by {
                    assert forall|b: Answers| #[trigger]
                        agree(x, b, place + 1, base + close) && (b.at)(place).rewrite == (x.at)(
                            place,
                        ).rewrite implies call_outcome(
                        b,
                        s,
                        base,
                        place,
                        name as int,
                        n as int,
                        close as int,
                        depth as int,
                    ) == Err::<FnCallView, Stop>(Stop::Failure(e@)) by {
                        assert(agree(
                            x,
                            b,
                            base + p + 1,
                            base + p + 1 + s.subrange(p + 1, q as int).len(),
                        ));
                    }
                }
                return Err(e);
            },
        };
        let tail = self.translate_slice(
            slice_subrange(chars, q + 1, close),
            depth + 1,
            Ghost(base + q + 1),
        );
        let ghost y = choose|y: Answers| #[trigger]
            self.may_answer(y) && comes_to(
                y,
                s.subrange(q + 1, close as int),
                base + q + 1,
                depth + 1,
                chars_outcome(tail),
            );
        let ghost ahead = spliced(x, y, base + q + 1);
        proof {
            self.lemma_spliced(x, y, base + q + 1);
        }
        let tail = match tail {
            Ok(tail) => tail,
            Err(e) => {
                proof {
                    let rules = no_rule_answers();
                    let d = with_rules(ahead, place, rules);
                    self.lemma_with_rules(ahead, place, rules);
                    lemma_call_parts(
                        x,
                        y,
                        s,
                        base,
                        place,
                        n as int,
                        p as int,
                        q as int,
                        close as int,
                        depth + 1,
                        Ok(args@),
                        Err(Stop::Failure(e@)),
                        rules,
                    );
                    assert(call_comes_to(
                        d,
                        s,
                        base,
                        place,
                        name as int,
                        n as int,
                        close as int,
                        depth as int,
                        Err(Stop::Failure(e@)),
                    ));
                }
                return Err(e);
            },
        };
        let arg_text = string_of(trimmed(args.as_slice()));
        let mut out: Vec<char> = Vec::new();
        assert(self.rewrite_scalar_fn == self.rewrite());
        let rewritten = self.rewrite_scalar_fn.rewrite(word.as_str(), arg_text.as_str());
        let ghost was = no_rule_answers();
        let ghost m = RuleAnswers {
            rewrite: answering_call(was.rewrite, word@, arg_text@, string_view(rewritten)),
            ..was
        };
        let ghost d = with_rules(ahead, place, m);
        proof {
            assert(self.may_give(m));
            self.lemma_with_rules(ahead, place, m);
            lemma_call_parts(
                x,
                y,
                s,
                base,
                place,
                n as int,
                p as int,
                q as int,
                close as int,
                depth + 1,
                Ok(args@),
                Ok(tail@),
                m,
            );
            assert((d.at)(place) == m);
        }
        match rewritten {
            Some(text) => {
                push_text(&mut out, text.as_str());
                push_all(&mut out, trimmed_end(tail.as_slice()));
                assert(out@ == text@ + trim_end(tail@));
                assert(call_comes_to(
                    d,
                    s,
                    base,
                    place,
                    name as int,
                    n as int,
                    close as int,
                    depth as int,
                    Ok(FnCallView::Rewritten(out@)),
                ));
                Ok(FnCall::Rewritten(out))
            },
            None => {
                push_all(&mut out, slice_subrange(chars, n, p + 1));
                push_all(&mut out, args.as_slice());
                out.push(')');
                push_all(&mut out, tail.as_slice());
                assert(out@ == chars@.subrange(n as int, p + 1) + args@ + seq![')'] + tail@);
                assert(call_comes_to(
                    d,
                    s,
                    base,
                    place,
                    name as int,
                    n as int,
                    close as int,
                    depth as int,
                    Ok(FnCallView::Declined(out@)),
                ));
                Ok(FnCall::Declined(out))
            },
        }
    }
}

// ---------------------------------------------------------------------------
// The ANSI dialect
// ---------------------------------------------------------------------------

/// The neutral rules: `"`-quoted identifiers, every function kept, and
/// `DATE`, `TIME` and `TIMESTAMP` in front of the literals.
pub open spec fn ansi_model() -> DialectModel {
    DialectModel {
        quotes: seq![('"', '"')],
        remap: |name: Seq<char>| None,
        rewrite: |name: Seq<char>, args: Seq<char>| None,
        date: |x: Seq<char>| "DATE "@ + x,
        time: |x: Seq<char>| "TIME "@ + x,
        timestamp: |x: Seq<char>| "TIMESTAMP "@ + x,
    }
}

/// The rename that keeps every name.
pub struct AnsiNames;

impl RenameRule for AnsiNames {
    open spec fn can_rename(&self) -> bool {
        true
    }

    open spec fn may_rename(&self, name: Seq<char>, r: Option<Seq<char>>) -> bool {
        r is None
    }

    fn rename(&self, _name: &str) -> (r: Option<&'static str>) {
        None
    }
}

/// The rewrite that declines every call.
pub struct AnsiCalls;

impl RewriteRule for AnsiCalls {
    open spec fn can_rewrite(&self) -> bool {
        true
    }

    open spec fn may_rewrite(
        &self,
        name: Seq<char>,
        args: Seq<char>,
        r: Option<Seq<char>>,
    ) -> bool {
        r is None
    }

    fn rewrite(&self, _name: &str, _args: &str) -> (r: Option<String>) {
        None
    }
}

/// The renderer that puts `DATE` in front of the literal.
pub struct AnsiDate;

impl RenderRule for AnsiDate {
    open spec fn can_render(&self) -> bool {
        true
    }

    open spec fn may_render(&self, literal: Seq<char>, r: Seq<char>) -> bool {
        r == "DATE "@ + literal
    }

    fn render(&self, literal: &str) -> (r: String) {
        "DATE ".to_owned().concat(literal)
    }
}

/// The renderer that puts `TIME` in front of the literal.
pub struct AnsiTime;

impl RenderRule for AnsiTime {
    open spec fn can_render(&self) -> bool {
        true
    }

    open spec fn may_render(&self, literal: Seq<char>, r: Seq<char>) -> bool {
        r == "TIME "@ + literal
    }

    fn render(&self, literal: &str) -> (r: String) {
        "TIME ".to_owned().concat(literal)
    }
}

/// The renderer that puts `TIMESTAMP` in front of the literal.
pub struct AnsiTimestamp;

impl RenderRule for AnsiTimestamp {
    open spec fn can_render(&self) -> bool {
        true
    }

    open spec fn may_render(&self, literal: Seq<char>, r: Seq<char>) -> bool {
        r == "TIMESTAMP "@ + literal
    }

    fn render(&self, literal: &str) -> (r: String) {
        "TIMESTAMP ".to_owned().concat(literal)
    }
}

impl EscapeDialect<AnsiNames, AnsiCalls, AnsiDate, AnsiTime, AnsiTimestamp> {
    /// The neutral dialect, for a backend with no rules of its own.
    pub fn ansi_default() -> (r: Self)
        ensures
            r.callable(),
            r.follows(ansi_model()),
    {
        let r = EscapeDialect {
            identifier_quotes: &[('"', '"')],
            remap_scalar_fn: AnsiNames,
            rewrite_scalar_fn: AnsiCalls,
            render_date: AnsiDate,
            render_time: AnsiTime,
            render_timestamp: AnsiTimestamp,
        };
        assert(r.quotes() == seq![('"', '"')]);
        r
    }
}

/// Translates the ODBC escapes in `sql`: the rewritten statement, or the
/// failure for an unsupported escape (`{call}`, `HYC00`), an unterminated one
/// (`42000`), or one nested more than 64 levels deep (`42000`).
pub fn translate_escapes<Remap, Rewrite, Date, Time, Timestamp>(
    sql: &str,
    dialect: &EscapeDialect<Remap, Rewrite, Date, Time, Timestamp>,
) -> (r: Result<String, OdbcError>) where
    Remap: RenameRule,
    Rewrite: RewriteRule,
    Date: RenderRule,
    Time: RenderRule,
    Timestamp: RenderRule,

    requires
        dialect.callable(),
    ensures
        forall|m: DialectModel| #[trigger]
            dialect.follows(m) ==> text_outcome(r) == translated(m, sql@, 0),
        exists|a: Answers| #[trigger]
            dialect.may_answer(a) && translated_at(a, sql@, 0, 0) == complete(text_outcome(r)),
        has_no_escape(dialect.quotes(), sql@, 0) ==> text_outcome(r) == Ok::<Seq<char>, ErrorView>(
            sql@,
        ),
        !sql@.contains('{') ==> text_outcome(r) == Ok::<Seq<char>, ErrorView>(sql@),
        r matches Err(e) ==> is_escape_failure(e@),
{
    let chars = chars_of(sql);
    let outcome = dialect.translate_slice(chars.as_slice(), 0, Ghost(0));
    proof {
        let a = choose|a: Answers| #[trigger]
            dialect.may_answer(a) && comes_to(a, sql@, 0, 0, chars_outcome(outcome));
        lemma_comes_to(a, sql@, 0, 0, chars_outcome(outcome));
        assert forall|m: DialectModel| #[trigger] dialect.follows(m) implies translated_at(
            m.everywhere(),
            sql@,
            0,
            0,
        ) == chars_outcome(outcome) by {
            dialect.lemma_follows(m, a);
            lemma_more_answers(a, m.everywhere(), sql@, 0, 0);
        }
        law_translation_failures(a, sql@, 0, 0);
        if !sql@.contains('{') {
            lemma_braceless(dialect.quotes(), sql@, 0);
        }
        if has_no_escape(dialect.quotes(), sql@, 0) {
            law_text_without_escapes_is_unchanged(a, sql@, 0);
        }
    }
    match outcome {
        Ok(out) => Ok(string_of(out.as_slice())),
        Err(e) => Err(e),
    }
}

// ---------------------------------------------------------------------------
// Laws
// ---------------------------------------------------------------------------

proof fn lemma_no_escape_from(a: Answers, s: Seq<char>, base: int, i: int, depth: int)
    requires
        0 <= i <= s.len(),
        has_no_escape(a.quotes, s, i),
    ensures
        translated_from(a, s, base, i, depth) == Ok::<Seq<char>, Stop>(
            s.subrange(i, s.len() as int),
        ),
    decreases s.len() - i,
{
    if i < s.len() {
        lemma_verbatim_end(a.quotes, s, i);
        let next = match verbatim_end(a.quotes, s, i) {
            Some(e) => e,
            None => i + 1,
        };
        lemma_no_escape_from(a, s, base, next, depth);
        assert(s.subrange(i, next) + s.subrange(next, s.len() as int) == s.subrange(
            i,
            s.len() as int,
        ));
        assert(s.subrange(i, i + 1) == seq![s[i]]);
    } else {
        assert(s.subrange(i, s.len() as int) == Seq::<char>::empty());
    }
}

/// A statement whose braces all stand in string literals, quoted identifiers
/// and comments is not changed, whatever the dialect's other rules.
pub proof fn law_text_without_escapes_is_unchanged(a: Answers, s: Seq<char>, base: int)
    requires
        has_no_escape(a.quotes, s, 0),
    ensures
        translated_at(a, s, base, 0) == Ok::<Seq<char>, Stop>(s),
{
    lemma_no_escape_from(a, s, base, 0, 0);
    assert(s.subrange(0, s.len() as int) == s);
}

/// A statement without a brace is not changed, whatever the dialect.
pub proof fn law_plain_text_is_unchanged(a: Answers, s: Seq<char>, base: int)
    requires
        !s.contains('{'),
    ensures
        translated_at(a, s, base, 0) == Ok::<Seq<char>, Stop>(s),
{
    lemma_braceless(a.quotes, s, 0);
    law_text_without_escapes_is_unchanged(a, s, base);
}

/// A string literal, a quoted identifier or a comment is copied as it stands,
/// whatever it holds, and translation goes on behind it.
pub proof fn law_verbatim_text_is_unchanged(a: Answers, s: Seq<char>, base: int, i: int, depth: int)
    requires
        0 <= i < s.len(),
        verbatim_end(a.quotes, s, i) is Some,
    ensures
        ({
            let e = verbatim_end(a.quotes, s, i)->0;
            &&& i < e <= s.len()
            &&& translated_from(a, s, base, i, depth) == prepend(
                s.subrange(i, e),
                translated_from(a, s, base, e, depth),
            )
            &&& e == s.len() ==> translated_from(a, s, base, i, depth) == Ok::<Seq<char>, Stop>(
                s.subrange(i, e),
            )
        }),
{
    lemma_verbatim_end(a.quotes, s, i);
    let e = verbatim_end(a.quotes, s, i)->0;
    assert(s.subrange(i, e) + Seq::<char>::empty() == s.subrange(i, e));
}

/// Translation fails only for nesting beyond the limit, an unterminated escape
/// or a stored-procedure call.
pub proof fn law_translation_failures(a: Answers, s: Seq<char>, base: int, depth: int)
    ensures
        translated_at(a, s, base, depth) matches Err(Stop::Failure(e)) ==> is_escape_failure(e),
    decreases s.len(), s.len() + 1, 0int,
{
    if depth <= MAX_ESCAPE_DEPTH {
        lemma_failures_from(a, s, base, 0, depth);
    }
}

proof fn lemma_failures_from(a: Answers, s: Seq<char>, base: int, i: int, depth: int)
    requires
        0 <= i,
    ensures
        translated_from(a, s, base, i, depth) matches Err(Stop::Failure(e)) ==> is_escape_failure(
            e,
        ),
    decreases s.len(), s.len() - i, 2int,
{
    if i < s.len() {
        lemma_verbatim_end(a.quotes, s, i);
        lemma_escape_layout(a.quotes, s, i);
        match verbatim_end(a.quotes, s, i) {
            Some(e) => lemma_failures_from(a, s, base, e, depth),
            None => {
                lemma_failures_from(a, s, base, i + 1, depth);
                lemma_failures_in_escape(a, s, base, i, depth);
                if let Some(close) = brace_close(a.quotes, s, i + 1, 1) {
                    lemma_failures_from(a, s, base, close + 1, depth);
                }
            },
        }
    }
}

proof fn lemma_failures_in_escape(a: Answers, s: Seq<char>, base: int, open: int, depth: int)
    requires
        0 <= open < s.len(),
    ensures
        translated_escape(a, s, base, open, depth) matches Err(Stop::Failure(e))
            ==> is_escape_failure(e),
    decreases s.len(), s.len() - open, 1int,
{
    lemma_escape_layout(a.quotes, s, open);
    let kw = skip_space(s, open + 1);
    let k = word_end(s, kw, false);
    let name = skip_space(s, k);
    let n = word_end(s, name, true);
    let p = skip_space(s, n);
    if let Some(close) = brace_close(a.quotes, s, open + 1, 1) {
        law_translation_failures(a, s.subrange(k, close), base + k, depth + 1);
        law_translation_failures(a, s.subrange(n, close), base + n, depth + 1);
        lemma_paren_close(a.quotes, s, p, close, 0);
        if let Some(q) = paren_close(a.quotes, s, p, close, 0) {
            law_translation_failures(a, s.subrange(p + 1, q), base + p + 1, depth + 1);
            law_translation_failures(a, s.subrange(q + 1, close), base + q + 1, depth + 1);
        }
    }
}

// A part of a text is scanned as it is within the whole, up to where the part
// ends.

/// `w` is the part of `t` from `off` on.
spec fn is_part(w: Seq<char>, t: Seq<char>, off: int) -> bool {
    &&& 0 <= off
    &&& off + w.len() <= t.len()
    &&& w == t.subrange(off, off + w.len())
}

proof fn lemma_quoted_in_part(
    w: Seq<char>,
    t: Seq<char>,
    off: int,
    j: int,
    close: char,
    doubled: bool,
)
    requires
        is_part(w, t, off),
        0 <= j <= w.len(),
    ensures
        ({
            let e = quoted_end(w, j, close, doubled);
            let whole = quoted_end(t, off + j, close, doubled);
            if e < w.len() {
                whole == off + e
            } else {
                off + w.len() <= whole
            }
        }),
    decreases w.len() - j,
{
    lemma_quoted_end(t, off + j, close, doubled);
    if j < w.len() {
        assert(w[j] == t[off + j]);
        if w[j] != close {
            lemma_quoted_in_part(w, t, off, j + 1, close, doubled);
        } else if j + 1 < w.len() {
            assert(w[j + 1] == t[off + j + 1]);
            if doubled && w[j + 1] == close {
                lemma_quoted_in_part(w, t, off, j + 2, close, doubled);
            }
        } else {
            if doubled && off + j + 1 < t.len() && t[off + j + 1] == close {
                lemma_quoted_end(t, off + j + 2, close, doubled);
            }
        }
    }
}

proof fn lemma_line_in_part(w: Seq<char>, t: Seq<char>, off: int, j: int)
    requires
        is_part(w, t, off),
        0 <= j <= w.len(),
    ensures
        if line_end(w, j) < w.len() {
            line_end(t, off + j) == off + line_end(w, j)
        } else {
            off + w.len() <= line_end(t, off + j)
        },
    decreases w.len() - j,
{
    lemma_line_end(t, off + j);
    if j < w.len() {
        assert(w[j] == t[off + j]);
        if w[j] != '\n' {
            lemma_line_in_part(w, t, off, j + 1);
        }
    }
}

proof fn lemma_block_in_part(w: Seq<char>, t: Seq<char>, off: int, j: int)
    requires
        is_part(w, t, off),
        0 <= j <= w.len(),
    ensures
        if block_end(w, j) < w.len() {
            block_end(t, off + j) == off + block_end(w, j)
        } else {
            off + w.len() <= block_end(t, off + j)
        },
    decreases w.len() - j,
{
    lemma_block_end(t, off + j);
    if j < w.len() {
        assert(w[j] == t[off + j]);
        if j + 1 < w.len() {
            assert(w[j + 1] == t[off + j + 1]);
            if !(w[j] == '*' && w[j + 1] == '/') {
                lemma_block_in_part(w, t, off, j + 1);
            }
        } else {
            assert(block_end(w, j + 1) == w.len());
            if !(t[off + j] == '*' && off + j + 1 < t.len() && t[off + j + 1] == '/') {
                lemma_block_end(t, off + j + 1);
            }
        }
    }
}

/// What stands verbatim in a part stands verbatim in the whole. It ends at the
/// same place, unless the part ends before it does; and where the part ends in
/// the middle of what could start a comment, a comment may start there.
proof fn lemma_verbatim_in_part(
    quotes: Seq<(char, char)>,
    w: Seq<char>,
    t: Seq<char>,
    off: int,
    j: int,
)
    requires
        is_part(w, t, off),
        0 <= j < w.len(),
    ensures
        match verbatim_end(quotes, w, j) {
            Some(e) => verbatim_end(quotes, t, off + j) matches Some(whole) && if e < w.len() {
                whole == off + e
            } else {
                off + w.len() <= whole
            },
            None => verbatim_end(quotes, t, off + j) is None || (j + 1 == w.len() && off + w.len()
                < t.len() && (t[off + w.len()] == '-' || t[off + w.len()] == '*')),
        },
{
    assert(w[j] == t[off + j]);
    if j + 1 < w.len() {
        assert(w[j + 1] == t[off + j + 1]);
    }
    lemma_verbatim_end(quotes, w, j);
    lemma_verbatim_end(quotes, t, off + j);
    if w[j] == '\'' {
        lemma_quoted_in_part(w, t, off, j + 1, '\'', true);
    } else if close_of(quotes, w[j]) is Some {
        let close = close_of(quotes, w[j])->0;
        lemma_quoted_in_part(w, t, off, j + 1, close, w[j] == close);
    } else if j + 1 < w.len() {
        if w[j] == '-' && w[j + 1] == '-' {
            lemma_line_in_part(w, t, off, j);
        } else if w[j] == '/' && w[j + 1] == '*' {
            lemma_block_in_part(w, t, off, j + 2);
        }
    }
}

/// A brace that is matched in a part is matched there in the whole.
proof fn lemma_brace_in_part(
    quotes: Seq<(char, char)>,
    w: Seq<char>,
    t: Seq<char>,
    off: int,
    j: int,
    depth: int,
)
    requires
        is_part(w, t, off),
        0 <= j,
        brace_close(quotes, w, j, depth) is Some,
    ensures
        brace_close(quotes, t, off + j, depth) == Some(
            off + brace_close(quotes, w, j, depth)->0,
        ),
    decreases w.len() - j,
{
    let c = brace_close(quotes, w, j, depth)->0;
    lemma_brace_close(quotes, w, j, depth);
    lemma_verbatim_end(quotes, w, j);
    lemma_verbatim_in_part(quotes, w, t, off, j);
    assert(w[j] == t[off + j]);
    match verbatim_end(quotes, w, j) {
        Some(e) => {
            lemma_brace_close(quotes, w, e, depth);
            lemma_brace_in_part(quotes, w, t, off, e, depth);
        },
        None => {
            if j + 1 == w.len() {
                assert(c == j);
            }
            if w[j] == '{' {
                lemma_brace_close(quotes, w, j + 1, depth + 1);
                lemma_brace_in_part(quotes, w, t, off, j + 1, depth + 1);
            } else if w[j] == '}' {
                if depth != 1 {
                    lemma_brace_close(quotes, w, j + 1, depth - 1);
                    lemma_brace_in_part(quotes, w, t, off, j + 1, depth - 1);
                } else {
                    assert(close_of(quotes, '}') is None);
                }
            } else {
                lemma_brace_close(quotes, w, j + 1, depth);
                lemma_brace_in_part(quotes, w, t, off, j + 1, depth);
            }
        },
    }
}

/// Parentheses before a limit within a part are matched as in the whole.
proof fn lemma_paren_in_part(
    quotes: Seq<(char, char)>,
    w: Seq<char>,
    t: Seq<char>,
    off: int,
    j: int,
    limit: int,
    depth: int,
)
    requires
        is_part(w, t, off),
        0 <= j,
        limit < w.len(),
    ensures
        paren_close(quotes, t, off + j, off + limit, depth) == (match paren_close(
            quotes,
            w,
            j,
            limit,
            depth,
        ) {
            Some(q) => Some(off + q),
            None => None,
        }),
    decreases w.len() - j,
{
    if j < limit {
        lemma_verbatim_end(quotes, w, j);
        lemma_verbatim_end(quotes, t, off + j);
        lemma_verbatim_in_part(quotes, w, t, off, j);
        assert(w[j] == t[off + j]);
        match verbatim_end(quotes, w, j) {
            Some(e) => {
                if e < w.len() {
                    lemma_paren_in_part(quotes, w, t, off, e, limit, depth);
                } else {
                    let whole = verbatim_end(quotes, t, off + j)->0;
                    assert(paren_close(quotes, w, e, limit, depth) is None);
                    assert(paren_close(quotes, t, whole, off + limit, depth) is None);
                }
            },
            None => {
                lemma_paren_in_part(quotes, w, t, off, j + 1, limit, depth + 1);
                lemma_paren_in_part(quotes, w, t, off, j + 1, limit, depth - 1);
                lemma_paren_in_part(quotes, w, t, off, j + 1, limit, depth);
            },
        }
    }
}

proof fn lemma_space_in_part(w: Seq<char>, t: Seq<char>, off: int, j: int, c: int)
    requires
        is_part(w, t, off),
        0 <= j <= c < w.len(),
        !is_whitespace(w[c]),
    ensures
        skip_space(w, j) <= c,
        skip_space(t, off + j) == off + skip_space(w, j),
    decreases c - j,
{
    assert(w[j] == t[off + j]);
    if is_whitespace(w[j]) {
        lemma_space_in_part(w, t, off, j + 1, c);
    }
}

proof fn lemma_word_in_part(
    w: Seq<char>,
    t: Seq<char>,
    off: int,
    j: int,
    c: int,
    underscore: bool,
)
    requires
        is_part(w, t, off),
        0 <= j <= c < w.len(),
        !is_word(w[c], underscore),
    ensures
        word_end(w, j, underscore) <= c,
        word_end(t, off + j, underscore) == off + word_end(w, j, underscore),
    decreases c - j,
{
    assert(w[j] == t[off + j]);
    if is_word(w[j], underscore) {
        lemma_word_in_part(w, t, off, j + 1, c, underscore);
    }
}

/// An escape that is complete in a part is replaced as it is in the whole.
proof fn lemma_escape_in_part(
    a: Answers,
    w: Seq<char>,
    t: Seq<char>,
    base: int,
    off: int,
    open: int,
    depth: int,
)
    requires
        is_part(w, t, off),
        0 <= open < w.len(),
        brace_close(a.quotes, w, open + 1, 1) is Some,
    ensures
        translated_escape(a, t, base, off + open, depth) == translated_escape(
            a,
            w,
            base + off,
            open,
            depth,
        ),
{
    let c = brace_close(a.quotes, w, open + 1, 1)->0;
    lemma_brace_close(a.quotes, w, open + 1, 1);
    lemma_brace_in_part(a.quotes, w, t, off, open + 1, 1);
    lemma_escape_layout(a.quotes, w, open);
    lemma_escape_layout(a.quotes, t, off + open);
    let kw = skip_space(w, open + 1);
    lemma_space_in_part(w, t, off, open + 1, c);
    let k = word_end(w, kw, false);
    lemma_word_in_part(w, t, off, kw, c, false);
    assert(w.subrange(kw, k) == t.subrange(off + kw, off + k));
    assert(w.subrange(k, c) == t.subrange(off + k, off + c));
    assert(w.subrange(open, c + 1) == t.subrange(off + open, off + c + 1));
    assert(w[kw] == t[off + kw]);
    let name = skip_space(w, k);
    lemma_space_in_part(w, t, off, k, c);
    let n = word_end(w, name, true);
    lemma_word_in_part(w, t, off, name, c, true);
    let p = skip_space(w, n);
    lemma_space_in_part(w, t, off, n, c);
    lemma_paren_in_part(a.quotes, w, t, off, p, c, 0);
    lemma_paren_close(a.quotes, w, p, c, 0);
    assert(w[p] == t[off + p]);
    assert(w.subrange(name, n) == t.subrange(off + name, off + n));
    assert(w.subrange(n, c) == t.subrange(off + n, off + c));
    assert(w.subrange(n, p + 1) == t.subrange(off + n, off + p + 1));
    if let Some(q) = paren_close(a.quotes, w, p, c, 0) {
        assert(w.subrange(p + 1, q) == t.subrange(off + p + 1, off + q));
        assert(w.subrange(q + 1, c) == t.subrange(off + q + 1, off + c));
    }
}

/// Whether a scan of `t` from `j` on comes to stand at `hi`, rather than inside
/// of something verbatim there.
spec fn reaches(quotes: Seq<(char, char)>, t: Seq<char>, j: int, hi: int) -> bool
    decreases hi - j,
{
    if j < 0 || j >= hi || j >= t.len() {
        j == hi
    } else {
        match verbatim_end(quotes, t, j) {
            Some(e) => j < e <= hi && reaches(quotes, t, e, hi),
            None => reaches(quotes, t, j + 1, hi),
        }
    }
}

proof fn lemma_end_is_reached(quotes: Seq<(char, char)>, t: Seq<char>, j: int)
    requires
        0 <= j <= t.len(),
    ensures
        reaches(quotes, t, j, t.len() as int),
    decreases t.len() - j,
{
    if j < t.len() {
        lemma_verbatim_end(quotes, t, j);
        match verbatim_end(quotes, t, j) {
            Some(e) => lemma_end_is_reached(quotes, t, e),
            None => lemma_end_is_reached(quotes, t, j + 1),
        }
    }
}

proof fn lemma_paren_is_reached(
    quotes: Seq<(char, char)>,
    t: Seq<char>,
    j: int,
    limit: int,
    depth: int,
)
    requires
        0 <= j,
        limit <= t.len(),
        paren_close(quotes, t, j, limit, depth) is Some,
    ensures
        ({
            let q = paren_close(quotes, t, j, limit, depth)->0;
            &&& j <= q < limit
            &&& t[q] == ')'
            &&& verbatim_end(quotes, t, q) is None
            &&& reaches(quotes, t, j, q)
        }),
    decreases t.len() - j,
{
    lemma_paren_close(quotes, t, j, limit, depth);
    lemma_verbatim_end(quotes, t, j);
    match verbatim_end(quotes, t, j) {
        Some(e) => lemma_paren_is_reached(quotes, t, e, limit, depth),
        None => {
            if t[j] == '(' {
                lemma_paren_is_reached(quotes, t, j + 1, limit, depth + 1);
            } else if t[j] == ')' && depth == 1 {
            } else if t[j] == ')' && depth > 1 {
                lemma_paren_is_reached(quotes, t, j + 1, limit, depth - 1);
            } else {
                lemma_paren_is_reached(quotes, t, j + 1, limit, depth);
            }
        },
    }
}

/// The place after a matched brace is on the way to `hi`.
proof fn lemma_reached_after_brace(
    quotes: Seq<(char, char)>,
    t: Seq<char>,
    j: int,
    depth: int,
    hi: int,
)
    requires
        0 <= j,
        hi <= t.len(),
        reaches(quotes, t, j, hi),
        brace_close(quotes, t, j, depth) matches Some(c) && c < hi,
    ensures
        reaches(quotes, t, brace_close(quotes, t, j, depth)->0 + 1, hi),
    decreases t.len() - j,
{
    lemma_brace_close(quotes, t, j, depth);
    lemma_verbatim_end(quotes, t, j);
    match verbatim_end(quotes, t, j) {
        Some(e) => lemma_reached_after_brace(quotes, t, e, depth, hi),
        None => {
            if t[j] == '{' {
                lemma_reached_after_brace(quotes, t, j + 1, depth + 1, hi);
            } else if t[j] == '}' {
                if depth != 1 {
                    lemma_reached_after_brace(quotes, t, j + 1, depth - 1, hi);
                }
            } else {
                lemma_reached_after_brace(quotes, t, j + 1, depth, hi);
            }
        },
    }
}

/// A part that translates is translated so within the whole, where the scan of
/// the whole comes to the part's end.
proof fn lemma_part_translates(
    a: Answers,
    w: Seq<char>,
    t: Seq<char>,
    base: int,
    off: int,
    i: int,
    depth: int,
)
    requires
        is_part(w, t, off),
        0 <= i <= w.len(),
        reaches(a.quotes, t, off + i, off + w.len()),
        off + w.len() < t.len() ==> t[off + w.len()] != '-' && t[off + w.len()] != '*',
        translated_from(a, w, base + off, i, depth) is Ok,
    ensures
        translated_from(a, t, base, off + i, depth) == prepend(
            translated_from(a, w, base + off, i, depth)->Ok_0,
            translated_from(a, t, base, off + w.len(), depth),
        ),
    decreases w.len() - i,
{
    let rest = translated_from(a, t, base, off + w.len(), depth);
    if i < w.len() {
        lemma_verbatim_end(a.quotes, w, i);
        lemma_verbatim_end(a.quotes, t, off + i);
        lemma_verbatim_in_part(a.quotes, w, t, off, i);
        assert(w[i] == t[off + i]);
        match verbatim_end(a.quotes, w, i) {
            Some(e) => {
                let whole = verbatim_end(a.quotes, t, off + i)->0;
                assert(whole == off + e);
                lemma_part_translates(a, w, t, base, off, e, depth);
                assert(w.subrange(i, e) == t.subrange(off + i, off + e));
                lemma_prepend(
                    w.subrange(i, e),
                    translated_from(a, w, base + off, e, depth)->Ok_0,
                    rest,
                );
            },
            None => {
                if w[i] == '{' {
                    let c = brace_close(a.quotes, w, i + 1, 1)->0;
                    assert(brace_close(a.quotes, w, i + 1, 1) is Some);
                    lemma_brace_close(a.quotes, w, i + 1, 1);
                    lemma_brace_in_part(a.quotes, w, t, off, i + 1, 1);
                    lemma_escape_in_part(a, w, t, base, off, i, depth);
                    lemma_reached_after_brace(a.quotes, t, off + i + 1, 1, off + w.len());
                    lemma_part_translates(a, w, t, base, off, c + 1, depth);
                    let text = translated_escape(a, w, base + off, i, depth)->Ok_0;
                    lemma_prepend(
                        text,
                        translated_from(a, w, base + off, c + 1, depth)->Ok_0,
                        rest,
                    );
                } else {
                    lemma_part_translates(a, w, t, base, off, i + 1, depth);
                    lemma_prepend(
                        seq![w[i]],
                        translated_from(a, w, base + off, i + 1, depth)->Ok_0,
                        rest,
                    );
                }
            },
        }
    } else {
        lemma_prepend(Seq::empty(), Seq::empty(), rest);
    }
}

/// White space and the opening parenthesis are copied, where they quote nothing.
proof fn lemma_front_is_copied(a: Answers, t: Seq<char>, base: int, i: int, p: int, depth: int)
    requires
        0 <= i <= p < t.len(),
        forall|j: int| i <= j < p ==> is_whitespace(#[trigger] t[j]),
        t[p] == '(',
        forall|j: int| i <= j <= p ==> close_of(a.quotes, #[trigger] t[j]) is None,
    ensures
        translated_from(a, t, base, i, depth) == prepend(
            t.subrange(i, p + 1),
            translated_from(a, t, base, p + 1, depth),
        ),
    decreases p - i,
{
    let rest = translated_from(a, t, base, p + 1, depth);
    assert(verbatim_end(a.quotes, t, i) is None);
    assert(t[i] != '{');
    if i < p {
        lemma_front_is_copied(a, t, base, i + 1, p, depth);
        lemma_prepend(seq![t[i]], t.subrange(i + 1, p + 1), rest);
        assert(seq![t[i]] + t.subrange(i + 1, p + 1) == t.subrange(i, p + 1));
    } else {
        assert(seq![t[p]] == t.subrange(p, p + 1));
    }
}

proof fn lemma_reaches_in_part(
    quotes: Seq<(char, char)>,
    w: Seq<char>,
    t: Seq<char>,
    off: int,
    j: int,
    hi: int,
)
    requires
        is_part(w, t, off),
        0 <= j <= hi < w.len(),
        reaches(quotes, t, off + j, off + hi),
    ensures
        reaches(quotes, w, j, hi),
    decreases hi - j,
{
    if j < hi {
        lemma_verbatim_end(quotes, w, j);
        lemma_verbatim_end(quotes, t, off + j);
        lemma_verbatim_in_part(quotes, w, t, off, j);
        match verbatim_end(quotes, w, j) {
            Some(e) => {
                lemma_reaches_in_part(quotes, w, t, off, e, hi);
            },
            None => {
                lemma_reaches_in_part(quotes, w, t, off, j + 1, hi);
            },
        }
    }
}

/// What follows the name of a call, in one piece and in its parts.
proof fn lemma_pieces_of_a_call(a: Answers, t: Seq<char>, base: int, p: int, q: int, depth: int)
    requires
        0 <= p < q < t.len(),
        forall|j: int| 0 <= j < p ==> is_whitespace(#[trigger] t[j]),
        t[p] == '(',
        forall|j: int| 0 <= j <= p ==> close_of(a.quotes, #[trigger] t[j]) is None,
        reaches(a.quotes, t, p + 1, q),
        t[q] == ')',
        verbatim_end(a.quotes, t, q) is None,
        translated_from(a, t.subrange(p + 1, q), base + p + 1, 0, depth) is Ok,
        translated_from(a, t.subrange(q + 1, t.len() as int), base + q + 1, 0, depth) is Ok,
    ensures
        translated_from(a, t, base, 0, depth) == Ok::<Seq<char>, Stop>(
            t.subrange(0, p + 1) + (translated_from(
                a,
                t.subrange(p + 1, q),
                base + p + 1,
                0,
                depth,
            )->Ok_0 + (seq![')'] + translated_from(
                a,
                t.subrange(q + 1, t.len() as int),
                base + q + 1,
                0,
                depth,
            )->Ok_0)),
        ),
{
    let args = t.subrange(p + 1, q);
    let tail = t.subrange(q + 1, t.len() as int);
    let y = translated_from(a, tail, base + q + 1, 0, depth)->Ok_0;
    lemma_front_is_copied(a, t, base, 0, p, depth);
    lemma_part_translates(a, args, t, base, p + 1, 0, depth);
    lemma_end_is_reached(a.quotes, t, q + 1);
    lemma_part_translates(a, tail, t, base, q + 1, 0, depth);
    assert(y + Seq::<char>::empty() == y);
    assert(translated_from(a, t, base, q + 1, depth) == Ok::<Seq<char>, Stop>(y));
}

/// What follows the name of a call translates in one piece to what its parts
/// translate to.
proof fn lemma_call_in_one_piece(
    a: Answers,
    s: Seq<char>,
    base: int,
    n: int,
    close: int,
    q: int,
    depth: int,
)
    requires
        0 < n <= skip_space(s, n) <= close < s.len(),
        depth < MAX_ESCAPE_DEPTH,
        s[skip_space(s, n)] == '(',
        forall|j: int|
            n <= j <= skip_space(s, n) ==> close_of(a.quotes, #[trigger] s[j]) is None,
        paren_close(a.quotes, s, skip_space(s, n), close, 0) == Some(q),
        translated_from(
            a,
            s.subrange(skip_space(s, n) + 1, q),
            base + skip_space(s, n) + 1,
            0,
            depth + 1,
        ) is Ok,
        translated_from(a, s.subrange(q + 1, close), base + q + 1, 0, depth + 1) is Ok,
    ensures
        ({
            let p = skip_space(s, n);
            let args = translated_from(a, s.subrange(p + 1, q), base + p + 1, 0, depth + 1)->Ok_0;
            let tail = translated_from(a, s.subrange(q + 1, close), base + q + 1, 0, depth + 1)->Ok_0;
            translated_from(a, s.subrange(n, close), base + n, 0, depth + 1) == Ok::<
                Seq<char>,
                Stop,
            >(s.subrange(n, p + 1) + args + seq![')'] + tail)
        }),
{
    let p = skip_space(s, n);
    let t = s.subrange(n, close);
    lemma_skip_space(s, n);
    lemma_paren_close(a.quotes, s, p, close, 0);
    assert(verbatim_end(a.quotes, s, p) is None);
    assert(paren_close(a.quotes, s, p + 1, close, 1) == Some(q));
    lemma_paren_is_reached(a.quotes, s, p + 1, close, 1);
    let args = s.subrange(p + 1, q);
    let tail = s.subrange(q + 1, close);
    assert(args == t.subrange(p + 1 - n, q - n));
    assert(tail == t.subrange(q + 1 - n, t.len() as int));
    assert(t.subrange(0, p + 1 - n) == s.subrange(n, p + 1));
    assert forall|j: int| 0 <= j < p - n implies is_whitespace(#[trigger] t[j]) by {
        assert(t[j] == s[n + j]);
    }
    assert forall|j: int| 0 <= j <= p - n implies close_of(a.quotes, #[trigger] t[j]) is None by {
        assert(t[j] == s[n + j]);
    }
    lemma_reaches_in_part(a.quotes, t, s, n, p + 1 - n, q - n);
    lemma_verbatim_in_part(a.quotes, t, s, n, q - n);
    assert(t[q - n] == s[q]);
    lemma_pieces_of_a_call(a, t, base + n, p - n, q - n, depth + 1);
    let front = s.subrange(n, p + 1);
    let x = translated_from(a, args, base + p + 1, 0, depth + 1)->Ok_0;
    let y = translated_from(a, tail, base + q + 1, 0, depth + 1)->Ok_0;
    assert(front + (x + (seq![')'] + y)) == front + x + seq![')'] + y);
}

/// A call that the dialect declines is what it is for a dialect that is never
/// asked: what follows the name comes out as it does when it is translated in
/// one piece, and only the name is mapped. Neither the parenthesis nor the white
/// space before it may quote an identifier.
pub proof fn law_declined_calls_translate_in_one_piece(
    a: Answers,
    s: Seq<char>,
    base: int,
    place: int,
    name: int,
    n: int,
    close: int,
    depth: int,
)
    requires
        call_outcome(a, s, base, place, name, n, close, depth) matches Ok(FnCallView::Declined(_)),
        forall|j: int|
            n <= j <= skip_space(s, n) ==> close_of(a.quotes, #[trigger] s[j]) is None,
    ensures
        call_outcome(a, s, base, place, name, n, close, depth) matches Ok(
            FnCallView::Declined(rest),
        ) && translated_at(a, s.subrange(n, close), base + n, depth + 1) == Ok::<Seq<char>, Stop>(
            rest,
        ),
        translated_call(a, s, base, place, name, n, close, depth) == named(
            remapped((a.at)(place), s.subrange(name, n)),
            translated_at(a, s.subrange(n, close), base + n, depth + 1),
        ),
{
    let p = skip_space(s, n);
    if let Some(q) = paren_close(a.quotes, s, p, close, 0) {
        if s[p] == '(' {
            lemma_call_in_one_piece(a, s, base, n, close, q, depth);
        }
    }
}

// The end of a text is translated as it is by itself.

proof fn lemma_verbatim_in_end(
    quotes: Seq<(char, char)>,
    w: Seq<char>,
    t: Seq<char>,
    off: int,
    j: int,
)
    requires
        is_part(w, t, off),
        off + w.len() == t.len(),
        0 <= j < w.len(),
    ensures
        verbatim_end(quotes, t, off + j) == (match verbatim_end(quotes, w, j) {
            Some(e) => Some(off + e),
            None => None,
        }),
{
    lemma_verbatim_in_part(quotes, w, t, off, j);
    lemma_verbatim_end(quotes, w, j);
    lemma_verbatim_end(quotes, t, off + j);
}

proof fn lemma_brace_in_end(
    quotes: Seq<(char, char)>,
    w: Seq<char>,
    t: Seq<char>,
    off: int,
    j: int,
    depth: int,
)
    requires
        is_part(w, t, off),
        off + w.len() == t.len(),
        0 <= j,
    ensures
        brace_close(quotes, t, off + j, depth) == (match brace_close(quotes, w, j, depth) {
            Some(c) => Some(off + c),
            None => None,
        }),
    decreases w.len() - j,
{
    if j < w.len() {
        lemma_verbatim_in_end(quotes, w, t, off, j);
        lemma_verbatim_end(quotes, w, j);
        assert(w[j] == t[off + j]);
        match verbatim_end(quotes, w, j) {
            Some(e) => lemma_brace_in_end(quotes, w, t, off, e, depth),
            None => {
                lemma_brace_in_end(quotes, w, t, off, j + 1, depth + 1);
                lemma_brace_in_end(quotes, w, t, off, j + 1, depth - 1);
                lemma_brace_in_end(quotes, w, t, off, j + 1, depth);
            },
        }
    }
}

proof fn lemma_end_translates(
    a: Answers,
    w: Seq<char>,
    t: Seq<char>,
    base: int,
    off: int,
    i: int,
    depth: int,
)
    requires
        is_part(w, t, off),
        off + w.len() == t.len(),
        0 <= i <= w.len(),
    ensures
        translated_from(a, t, base, off + i, depth) == translated_from(a, w, base + off, i, depth),
    decreases w.len() - i,
{
    if i < w.len() {
        lemma_verbatim_in_end(a.quotes, w, t, off, i);
        lemma_verbatim_end(a.quotes, w, i);
        assert(w[i] == t[off + i]);
        match verbatim_end(a.quotes, w, i) {
            Some(e) => {
                lemma_end_translates(a, w, t, base, off, e, depth);
                assert(w.subrange(i, e) == t.subrange(off + i, off + e));
            },
            None => {
                if w[i] == '{' {
                    lemma_brace_in_end(a.quotes, w, t, off, i + 1, 1);
                    lemma_brace_close(a.quotes, w, i + 1, 1);
                    match brace_close(a.quotes, w, i + 1, 1) {
                        Some(c) => {
                            lemma_escape_in_part(a, w, t, base, off, i, depth);
                            lemma_end_translates(a, w, t, base, off, c + 1, depth);
                        },
                        None => {},
                    }
                } else {
                    lemma_end_translates(a, w, t, base, off, i + 1, depth);
                }
            },
        }
    }
}

/// Whether a character is copied wherever it stands outside of what is verbatim:
/// it starts no literal, no identifier, no comment and no escape.
pub open spec fn is_plain(quotes: Seq<(char, char)>, c: char) -> bool {
    c != '\'' && c != '{' && c != '-' && c != '/' && close_of(quotes, c) is None
}

proof fn lemma_plain_front(a: Answers, t: Seq<char>, base: int, i: int, n: int, depth: int)
    requires
        0 <= i <= n <= t.len(),
        forall|j: int| i <= j < n ==> is_plain(a.quotes, #[trigger] t[j]),
    ensures
        translated_from(a, t, base, i, depth) == prepend(
            t.subrange(i, n),
            translated_from(a, t, base, n, depth),
        ),
    decreases n - i,
{
    let rest = translated_from(a, t, base, n, depth);
    if i < n {
        assert(is_plain(a.quotes, t[i]));
        lemma_plain_front(a, t, base, i + 1, n, depth);
        lemma_prepend(seq![t[i]], t.subrange(i + 1, n), rest);
        assert(seq![t[i]] + t.subrange(i + 1, n) == t.subrange(i, n));
    } else {
        lemma_prepend(Seq::empty(), Seq::empty(), rest);
        assert(t.subrange(i, n) == Seq::<char>::empty());
    }
}

/// Plain text in front of a text is kept, and moves the places of the rest:
/// where the rules answer alike there, its translation follows, or the same
/// failure comes.
pub proof fn law_plain_text_in_front_moves_the_rest(
    a: Answers,
    front: Seq<char>,
    s: Seq<char>,
    base: int,
    depth: int,
)
    requires
        forall|j: int| 0 <= j < front.len() ==> is_plain(a.quotes, #[trigger] front[j]),
    ensures
        translated_at(a, front + s, base, depth) == prepend(
            front,
            translated_at(a, s, base + front.len(), depth),
        ),
{
    let t = front + s;
    let n = front.len() as int;
    assert forall|j: int| 0 <= j < n implies is_plain(a.quotes, #[trigger] t[j]) by {
        assert(t[j] == front[j]);
    }
    lemma_plain_front(a, t, base, 0, n, depth);
    assert(t.subrange(0, n) == front);
    assert(s == t.subrange(n, n + s.len()));
    lemma_end_translates(a, s, t, base, n, 0, depth);
}

/// Plain text in front of a text is kept and changes nothing of the rest: its
/// translation follows, or the same failure comes.
pub proof fn law_plain_text_in_front_is_kept(
    m: DialectModel,
    front: Seq<char>,
    s: Seq<char>,
    depth: int,
)
    requires
        forall|j: int| 0 <= j < front.len() ==> is_plain(m.quotes, #[trigger] front[j]),
    ensures
        translated(m, front + s, depth) == (match translated(m, s, depth) {
            Ok(text) => Ok(front + text),
            Err(e) => Err(e),
        }),
{
    law_plain_text_in_front_moves_the_rest(m.everywhere(), front, s, 0, depth);
    lemma_place_free(m, s, front.len() as int, 0, depth);
}

/// `h` has the answers of `g`, and may have more.
spec fn has_more_at(g: RuleAnswers, h: RuleAnswers) -> bool {
    &&& forall|x: Seq<char>| (#[trigger] (g.remap)(x)) is Some ==> (h.remap)(x) == (g.remap)(x)
    &&& forall|x: Seq<char>, y: Seq<char>|
        (#[trigger] (g.rewrite)(x, y)) is Some ==> (h.rewrite)(x, y) == (g.rewrite)(x, y)
    &&& forall|x: Seq<char>| (#[trigger] (g.date)(x)) is Some ==> (h.date)(x) == (g.date)(x)
    &&& forall|x: Seq<char>| (#[trigger] (g.time)(x)) is Some ==> (h.time)(x) == (g.time)(x)
    &&& forall|x: Seq<char>|
        (#[trigger] (g.timestamp)(x)) is Some ==> (h.timestamp)(x) == (g.timestamp)(x)
}

/// `b` has the answers of `a`, and may have more.
spec fn has_more(a: Answers, b: Answers) -> bool {
    a.quotes == b.quotes && forall|place: int|
        has_more_at((a.at)(place), #[trigger] (b.at)(place))
}

/// More answers change nothing of a translation that needed none of them.
proof fn lemma_more_answers(a: Answers, b: Answers, s: Seq<char>, base: int, depth: int)
    requires
        has_more(a, b),
    ensures
        translated_at(a, s, base, depth) != Err::<Seq<char>, Stop>(Stop::Unanswered)
            ==> translated_at(b, s, base, depth) == translated_at(a, s, base, depth),
    decreases s.len(), s.len() + 1, 0int,
{
    if depth <= MAX_ESCAPE_DEPTH {
        lemma_more_answers_from(a, b, s, base, 0, depth);
    }
}

proof fn lemma_more_answers_from(
    a: Answers,
    b: Answers,
    s: Seq<char>,
    base: int,
    i: int,
    depth: int,
)
    requires
        0 <= i,
        has_more(a, b),
    ensures
        translated_from(a, s, base, i, depth) != Err::<Seq<char>, Stop>(Stop::Unanswered)
            ==> translated_from(b, s, base, i, depth) == translated_from(a, s, base, i, depth),
    decreases s.len(), s.len() - i, 2int,
{
    if i < s.len() {
        lemma_verbatim_end(a.quotes, s, i);
        lemma_escape_layout(a.quotes, s, i);
        match verbatim_end(a.quotes, s, i) {
            Some(e) => lemma_more_answers_from(a, b, s, base, e, depth),
            None => {
                lemma_more_answers_from(a, b, s, base, i + 1, depth);
                lemma_more_answers_in_escape(a, b, s, base, i, depth);
                if let Some(close) = brace_close(a.quotes, s, i + 1, 1) {
                    lemma_more_answers_from(a, b, s, base, close + 1, depth);
                }
            },
        }
    }
}

proof fn lemma_more_answers_in_escape(
    a: Answers,
    b: Answers,
    s: Seq<char>,
    base: int,
    open: int,
    depth: int,
)
    requires
        0 <= open < s.len(),
        has_more(a, b),
    ensures
        translated_escape(a, s, base, open, depth) != Err::<Seq<char>, Stop>(Stop::Unanswered)
            ==> translated_escape(b, s, base, open, depth) == translated_escape(
            a,
            s,
            base,
            open,
            depth,
        ),
    decreases s.len(), s.len() - open, 1int,
{
    lemma_escape_layout(a.quotes, s, open);
    assert(has_more_at((a.at)(base + open), (b.at)(base + open)));
    let kw = skip_space(s, open + 1);
    let k = word_end(s, kw, false);
    let name = skip_space(s, k);
    let n = word_end(s, name, true);
    let p = skip_space(s, n);
    if let Some(close) = brace_close(a.quotes, s, open + 1, 1) {
        lemma_more_answers(a, b, s.subrange(k, close), base + k, depth + 1);
        lemma_more_answers(a, b, s.subrange(n, close), base + n, depth + 1);
        lemma_paren_close(a.quotes, s, p, close, 0);
        if let Some(q) = paren_close(a.quotes, s, p, close, 0) {
            lemma_more_answers(a, b, s.subrange(p + 1, q), base + p + 1, depth + 1);
            lemma_more_answers(a, b, s.subrange(q + 1, close), base + q + 1, depth + 1);
        }
    }
}

/// Rules that answer every question, and alike everywhere, do not tell one place
/// from another.
proof fn lemma_place_free(m: DialectModel, s: Seq<char>, x: int, y: int, depth: int)
    ensures
        translated_at(m.everywhere(), s, x, depth) == translated_at(m.everywhere(), s, y, depth),
        translated_at(m.everywhere(), s, x, depth) != Err::<Seq<char>, Stop>(Stop::Unanswered),
    decreases s.len(), s.len() + 1, 0int,
{
    if depth <= MAX_ESCAPE_DEPTH {
        lemma_place_free_from(m, s, x, y, 0, depth);
    }
}

proof fn lemma_place_free_from(m: DialectModel, s: Seq<char>, x: int, y: int, i: int, depth: int)
    requires
        0 <= i,
    ensures
        translated_from(m.everywhere(), s, x, i, depth) == translated_from(
            m.everywhere(),
            s,
            y,
            i,
            depth,
        ),
        translated_from(m.everywhere(), s, x, i, depth) != Err::<Seq<char>, Stop>(Stop::Unanswered),
    decreases s.len(), s.len() - i, 2int,
{
    if i < s.len() {
        lemma_verbatim_end(m.quotes, s, i);
        lemma_escape_layout(m.quotes, s, i);
        match verbatim_end(m.quotes, s, i) {
            Some(e) => lemma_place_free_from(m, s, x, y, e, depth),
            None => {
                lemma_place_free_from(m, s, x, y, i + 1, depth);
                lemma_place_free_escape(m, s, x, y, i, depth);
                if let Some(close) = brace_close(m.quotes, s, i + 1, 1) {
                    lemma_place_free_from(m, s, x, y, close + 1, depth);
                }
            },
        }
    }
}

proof fn lemma_place_free_escape(
    m: DialectModel,
    s: Seq<char>,
    x: int,
    y: int,
    open: int,
    depth: int,
)
    requires
        0 <= open < s.len(),
    ensures
        translated_escape(m.everywhere(), s, x, open, depth) == translated_escape(
            m.everywhere(),
            s,
            y,
            open,
            depth,
        ),
        translated_escape(m.everywhere(), s, x, open, depth) != Err::<Seq<char>, Stop>(
            Stop::Unanswered,
        ),
    decreases s.len(), s.len() - open, 1int,
{
    lemma_escape_layout(m.quotes, s, open);
    let kw = skip_space(s, open + 1);
    let k = word_end(s, kw, false);
    let name = skip_space(s, k);
    let n = word_end(s, name, true);
    let p = skip_space(s, n);
    if let Some(close) = brace_close(m.quotes, s, open + 1, 1) {
        lemma_place_free(m, s.subrange(k, close), x + k, y + k, depth + 1);
        lemma_place_free(m, s.subrange(n, close), x + n, y + n, depth + 1);
        lemma_paren_close(m.quotes, s, p, close, 0);
        if let Some(q) = paren_close(m.quotes, s, p, close, 0) {
            lemma_place_free(m, s.subrange(p + 1, q), x + p + 1, y + p + 1, depth + 1);
            lemma_place_free(m, s.subrange(q + 1, close), x + q + 1, y + q + 1, depth + 1);
        }
    }
}

// ---------------------------------------------------------------------------
// Laws of single escapes and of what is verbatim
// ---------------------------------------------------------------------------

/// What a text in front of another comes to, with the other behind it.
pub open spec fn followed_by(
    front: Seq<char>,
    rest: Result<Seq<char>, ErrorView>,
) -> Result<Seq<char>, ErrorView> {
    match rest {
        Ok(text) => Ok(front + text),
        Err(e) => Err(e),
    }
}

/// Whether `c` opens a quoted identifier.
pub open spec fn opens(quotes: Seq<(char, char)>, c: char) -> bool {
    exists|k: int| 0 <= k < quotes.len() && (#[trigger] quotes[k]).0 == c
}

/// A character opens a quoted identifier just where one of the pairs starts with it,
/// and the first such pair says what closes it.
pub proof fn law_the_first_pair_closes(quotes: Seq<(char, char)>, c: char, k: int)
    ensures
        (close_of(quotes, c) is Some) == opens(quotes, c),
        0 <= k < quotes.len() && quotes[k].0 == c && (forall|j: int|
            0 <= j < k ==> (#[trigger] quotes[j]).0 != c) ==> close_of(quotes, c) == Some(
            quotes[k].1,
        ),
    decreases quotes.len(),
{
    if quotes.len() > 0 {
        let rest = quotes.drop_first();
        law_the_first_pair_closes(rest, c, k - 1);
        assert forall|j: int| 0 <= j < rest.len() implies rest[j] == quotes[j + 1] by {}
        if quotes[0].0 == c {
            assert(opens(quotes, c));
        } else {
            if opens(rest, c) {
                let j = choose|j: int| 0 <= j < rest.len() && (#[trigger] rest[j]).0 == c;
                assert(quotes[j + 1].0 == c);
            }
            if opens(quotes, c) {
                let j = choose|j: int| 0 <= j < quotes.len() && (#[trigger] quotes[j]).0 == c;
                assert(rest[j - 1].0 == c);
            }
            if 0 <= k < quotes.len() && quotes[k].0 == c && (forall|j: int|
                0 <= j < k ==> (#[trigger] quotes[j]).0 != c) {
                assert(k > 0);
                assert(rest[k - 1].0 == c);
                assert forall|j: int| 0 <= j < k - 1 implies (#[trigger] rest[j]).0 != c by {
                    assert(quotes[j + 1].0 != c);
                }
            }
        }
    }
}

/// What stands verbatim in front of a text is kept, and the rest is translated as it
/// is by itself.
proof fn lemma_verbatim_front(m: DialectModel, lit: Seq<char>, rest: Seq<char>, depth: int)
    requires
        lit.len() > 0,
        verbatim_end(m.quotes, lit + rest, 0) == Some(lit.len() as int),
        depth <= MAX_ESCAPE_DEPTH,
    ensures
        translated(m, lit + rest, depth) == followed_by(lit, translated(m, rest, depth)),
{
    let t = lit + rest;
    let n = lit.len() as int;
    let a = m.everywhere();
    assert(t.subrange(0, n) == lit);
    assert(rest == t.subrange(n, n + rest.len()));
    lemma_end_translates(a, rest, t, 0, n, 0, depth);
    lemma_place_free(m, rest, n, 0, depth);
}

/// An escape in front of a text is replaced, and the rest is translated as it is by
/// itself.
proof fn lemma_escape_front(m: DialectModel, esc: Seq<char>, rest: Seq<char>, depth: int)
    requires
        esc.len() > 0,
        esc[0] == '{',
        !opens(m.quotes, '{'),
        brace_close(m.quotes, esc + rest, 1, 1) == Some(esc.len() - 1),
        depth <= MAX_ESCAPE_DEPTH,
    ensures
        ({
            let r = translated_escape(m.everywhere(), esc + rest, 0, 0, depth);
            &&& r matches Ok(text) ==> translated(m, esc + rest, depth) == followed_by(
                text,
                translated(m, rest, depth),
            )
            &&& r matches Err(Stop::Failure(e)) ==> translated(m, esc + rest, depth) == Err::<
                Seq<char>,
                ErrorView,
            >(e)
        }),
{
    let t = esc + rest;
    let n = esc.len() as int;
    let a = m.everywhere();
    assert(t[0] == '{');
    law_the_first_pair_closes(m.quotes, '{', 0);
    assert(verbatim_end(m.quotes, t, 0) is None);
    assert(rest == t.subrange(n, n + rest.len()));
    lemma_end_translates(a, rest, t, 0, n, 0, depth);
    lemma_place_free(m, rest, n, 0, depth);
}

proof fn lemma_skip_run(s: Seq<char>, i: int, j: int)
    requires
        0 <= i <= j <= s.len(),
        forall|k: int| i <= k < j ==> is_whitespace(#[trigger] s[k]),
        j < s.len() ==> !is_whitespace(s[j]),
    ensures
        skip_space(s, i) == j,
    decreases j - i,
{
    if i < j {
        lemma_skip_run(s, i + 1, j);
    }
}

proof fn lemma_word_run(s: Seq<char>, i: int, j: int, underscore: bool)
    requires
        0 <= i <= j <= s.len(),
        forall|k: int| i <= k < j ==> is_word(#[trigger] s[k], underscore),
        j < s.len() ==> !is_word(s[j], underscore),
    ensures
        word_end(s, i, underscore) == j,
    decreases j - i,
{
    if i < j {
        lemma_word_run(s, i + 1, j, underscore);
    }
}

/// Whether a character is of no account in an escape: it opens nothing and closes
/// nothing.
pub open spec fn is_ordinary(quotes: Seq<(char, char)>, c: char) -> bool {
    c != '\'' && c != '{' && c != '}' && c != '(' && c != ')' && c != '-' && c != '/' && !opens(
        quotes,
        c,
    )
}

proof fn lemma_ordinary(quotes: Seq<(char, char)>, s: Seq<char>, i: int)
    requires
        0 <= i < s.len(),
        is_ordinary(quotes, s[i]) || ((s[i] == '(' || s[i] == ')' || s[i] == '}' || s[i] == '{')
            && !opens(quotes, s[i])),
    ensures
        verbatim_end(quotes, s, i) is None,
{
    law_the_first_pair_closes(quotes, s[i], 0);
}

proof fn lemma_brace_over(
    quotes: Seq<(char, char)>,
    s: Seq<char>,
    i: int,
    j: int,
    depth: int,
)
    requires
        0 <= i <= j <= s.len(),
        forall|k: int|
            i <= k < j ==> is_ordinary(quotes, #[trigger] s[k]) || ((s[k] == '(' || s[k] == ')')
                && !opens(quotes, s[k])),
    ensures
        brace_close(quotes, s, i, depth) == brace_close(quotes, s, j, depth),
    decreases j - i,
{
    if i < j {
        assert(is_ordinary(quotes, s[i]) || ((s[i] == '(' || s[i] == ')') && !opens(quotes, s[i])));
        lemma_ordinary(quotes, s, i);
        lemma_brace_over(quotes, s, i + 1, j, depth);
    }
}

proof fn lemma_paren_over(
    quotes: Seq<(char, char)>,
    s: Seq<char>,
    i: int,
    j: int,
    limit: int,
    depth: int,
)
    requires
        0 <= i <= j <= limit <= s.len(),
        forall|k: int| i <= k < j ==> is_ordinary(quotes, #[trigger] s[k]),
    ensures
        paren_close(quotes, s, i, limit, depth) == paren_close(quotes, s, j, limit, depth),
    decreases j - i,
{
    if i < j {
        assert(is_ordinary(quotes, s[i]));
        lemma_ordinary(quotes, s, i);
        lemma_paren_over(quotes, s, i + 1, j, limit, depth);
    }
}

/// Whether a text is made of blanks.
pub open spec fn is_blank(s: Seq<char>) -> bool {
    forall|i: int| 0 <= i < s.len() ==> #[trigger] s[i] == ' '
}

/// Whether a text is a name: ASCII letters, digits and underscores.
pub open spec fn is_name(s: Seq<char>) -> bool {
    s.len() > 0 && forall|i: int|
        0 <= i < s.len() ==> ('a' <= #[trigger] s[i] <= 'z') || ('A' <= s[i] <= 'Z') || ('0' <= s[i]
            <= '9') || s[i] == '_'
}

/// The escape of a call of a scalar function, in any case and with blanks where they
/// may stand.
pub open spec fn call_escape(
    f: char,
    n: char,
    gap: Seq<char>,
    name: Seq<char>,
    before: Seq<char>,
    args: Seq<char>,
    after: Seq<char>,
) -> Seq<char> {
    seq!['{', f, n] + gap + name + before + seq!['('] + args + seq![')'] + after + seq!['}']
}

/// The places of the parts of such an escape in a text that starts with it.
proof fn lemma_call_layout(
    t: Seq<char>,
    f: char,
    n: char,
    gap: Seq<char>,
    name: Seq<char>,
    before: Seq<char>,
    args: Seq<char>,
    after: Seq<char>,
    rest: Seq<char>,
)
    requires
        t == call_escape(f, n, gap, name, before, args, after) + rest,
    ensures
        ({
            let a = 3 + gap.len() as int;
            let b = a + name.len();
            let p = b + before.len();
            let q = p + 1 + args.len();
            let c = q + 1 + after.len();
            &&& c < t.len()
            &&& c + 1 == call_escape(f, n, gap, name, before, args, after).len()
            &&& t[0] == '{' && t[1] == f && t[2] == n
            &&& t.subrange(1, 3) == seq![f, n]
            &&& t.subrange(3, a) == gap
            &&& t.subrange(a, b) == name
            &&& t.subrange(b, p) == before
            &&& t[p] == '('
            &&& t.subrange(p + 1, q) == args
            &&& t[q] == ')'
            &&& t.subrange(q + 1, c) == after
            &&& t[c] == '}'
        }),
{
    let a = 3 + gap.len() as int;
    let b = a + name.len();
    let p = b + before.len();
    let q = p + 1 + args.len();
    let c = q + 1 + after.len();
    assert(t.subrange(1, 3) =~= seq![f, n]);
    assert(t.subrange(3, a) =~= gap);
    assert(t.subrange(a, b) =~= name);
    assert(t.subrange(b, p) =~= before);
    assert(t.subrange(p + 1, q) =~= args);
    assert(t.subrange(q + 1, c) =~= after);
}

/// The name that the rename rule gives for `name`: the name itself where it has none.
pub open spec fn renamed(m: DialectModel, name: Seq<char>) -> Seq<char> {
    match (m.remap)(name) {
        Some(mapped) => mapped,
        None => name,
    }
}

proof fn lemma_name_is_a_word(c: char)
    ensures
        is_word(c, true) == (('a' <= c <= 'z') || ('A' <= c <= 'Z') || ('0' <= c <= '9') || c
            == '_'),
        is_word(c, true) ==> !is_whitespace(c),
        is_word(c, false) ==> is_word(c, true),
        is_whitespace(' '),
        !is_whitespace('('),
        !is_word(' ', true),
        !is_word('(', true),
{
}

/// The keyword of a call is read in any case.
proof fn lemma_fn_keyword(f: char, n: char)
    requires
        f == 'f' || f == 'F',
        n == 'n' || n == 'N',
    ensures
        lowercase(seq![f, n]) == "fn"@,
{
    reveal_strlit("fn");
    law_small_letters(seq![f, n], 0);
    law_small_letters(seq![f, n], 1);
    assert(seq![f, n][0] == f && seq![f, n][1] == n);
    assert(lowercase(seq![f, n])[0] as u32 == 'f' as u32);
    assert(lowercase(seq![f, n])[1] as u32 == 'n' as u32);
    assert(lowercase(seq![f, n]) =~= "fn"@);
}

/// Where the parts of a call are found.
proof fn lemma_call_is_read(
    t: Seq<char>,
    f: char,
    n: char,
    gap: Seq<char>,
    name: Seq<char>,
    before: Seq<char>,
    args: Seq<char>,
    tail: Seq<char>,
    rest: Seq<char>,
)
    requires
        t == call_escape(f, n, gap, name, before, args, tail) + rest,
        f == 'f' || f == 'F',
        n == 'n' || n == 'N',
        gap.len() > 0,
        is_blank(gap),
        is_name(name),
        is_blank(before),
    ensures
        skip_space(t, 1) == 1,
        word_end(t, 1, false) == 3,
        lowercase(t.subrange(1, 3)) == "fn"@,
        skip_space(t, 3) == 3 + gap.len(),
        word_end(t, 3 + gap.len() as int, true) == 3 + gap.len() + name.len(),
        skip_space(t, 3 + gap.len() as int + name.len()) == 3 + gap.len() + name.len()
            + before.len(),
{
    lemma_call_layout(t, f, n, gap, name, before, args, tail, rest);
    let a = 3 + gap.len() as int;
    let b = a + name.len();
    let p = b + before.len();
    assert forall|k: int| 3 <= k < a implies #[trigger] t[k] == ' ' by {
        assert(t.subrange(3, a)[k - 3] == gap[k - 3]);
    }
    assert forall|k: int| a <= k < b implies is_word(#[trigger] t[k], true) by {
        assert(t.subrange(a, b)[k - a] == name[k - a]);
        lemma_name_is_a_word(t[k]);
    }
    assert forall|k: int| b <= k < p implies #[trigger] t[k] == ' ' by {
        assert(t.subrange(b, p)[k - b] == before[k - b]);
    }
    lemma_name_is_a_word(t[a]);
    lemma_name_is_a_word(t[1]);
    lemma_name_is_a_word(t[2]);
    lemma_skip_run(t, 1, 1);
    lemma_word_run(t, 1, 3, false);
    lemma_fn_keyword(f, n);
    lemma_skip_run(t, 3, a);
    lemma_word_run(t, a, b, true);
    lemma_skip_run(t, b, p);
}

/// What a call comes to by its name and by what its arguments and the text behind
/// them translate to.
pub open spec fn called(
    m: DialectModel,
    name: Seq<char>,
    before: Seq<char>,
    args: Result<Seq<char>, ErrorView>,
    tail: Result<Seq<char>, ErrorView>,
) -> Result<Seq<char>, ErrorView> {
    match (args, tail) {
        (Ok(x), Ok(y)) => match (m.rewrite)(name, trim(x)) {
            Some(text) => Ok(text + trim_end(y)),
            None => Ok(renamed(m, name) + before + seq!['('] + x + seq![')'] + y),
        },
        (Err(e), _) => Err(e),
        (Ok(_), Err(e)) => Err(e),
    }
}

/// What a call is replaced by, from where its parts stand.
proof fn lemma_called(
    m: DialectModel,
    t: Seq<char>,
    a: int,
    b: int,
    p: int,
    q: int,
    c: int,
    depth: int,
)
    requires
        0 < a < b <= p < q < c < t.len(),
        skip_space(t, b) == p,
        t[p] == '(',
        paren_close(m.quotes, t, p, c, 0) == Some(q),
    ensures
        translated_call(m.everywhere(), t, 0, 0, a, b, c, depth) == complete(
            called(
                m,
                t.subrange(a, b),
                t.subrange(b, p),
                translated(m, t.subrange(p + 1, q), depth + 1),
                translated(m, t.subrange(q + 1, c), depth + 1),
            ),
        ),
{
    let e = m.everywhere();
    let name = t.subrange(a, b);
    let args = t.subrange(p + 1, q);
    let tail = t.subrange(q + 1, c);
    lemma_place_free(m, args, p + 1, 0, depth + 1);
    lemma_place_free(m, tail, q + 1, 0, depth + 1);
    assert(t.subrange(b, p + 1) =~= t.subrange(b, p) + seq!['(']);
    assert(remapped((e.at)(0), name) == Some(renamed(m, name)));
    if translated(m, args, depth + 1) is Ok && translated(m, tail, depth + 1) is Ok {
        let x = translated(m, args, depth + 1)->Ok_0;
        let y = translated(m, tail, depth + 1)->Ok_0;
        assert(renamed(m, name) + (t.subrange(b, p + 1) + x + seq![')'] + y) =~= renamed(m, name)
            + t.subrange(b, p) + seq!['('] + x + seq![')'] + y);
    }
}

/// For every name of ASCII letters, digits and underscores that follows `{fn ` and is
/// followed by a pair of parentheses that closes before the brace does, the rewrite
/// rule is asked with exactly that whole name and the translated arguments. What it
/// gives stands for the call. Where it declines, the call starts with what the rename
/// rule gives for exactly that whole name, and nothing else of it changes but the
/// escapes inside.
pub proof fn law_a_function_goes_by_its_whole_name(
    m: DialectModel,
    f: char,
    n: char,
    gap: Seq<char>,
    name: Seq<char>,
    before: Seq<char>,
    args: Seq<char>,
    tail: Seq<char>,
    rest: Seq<char>,
    depth: int,
)
    requires
        f == 'f' || f == 'F',
        n == 'n' || n == 'N',
        gap.len() > 0,
        is_blank(gap),
        is_name(name),
        is_blank(before),
        depth <= MAX_ESCAPE_DEPTH,
        !opens(m.quotes, '{'),
        ({
            let esc = call_escape(f, n, gap, name, before, args, tail);
            let p = 3 + gap.len() + name.len() + before.len();
            &&& brace_close(m.quotes, esc + rest, 1, 1) == Some(esc.len() - 1)
            &&& paren_close(m.quotes, esc + rest, p as int, esc.len() - 1, 0) == Some(
                p + 1 + args.len() as int,
            )
        }),
    ensures
        translated(m, call_escape(f, n, gap, name, before, args, tail) + rest, depth) == match called(
            m,
            name,
            before,
            translated(m, args, depth + 1),
            translated(m, tail, depth + 1),
        ) {
            Ok(text) => followed_by(text, translated(m, rest, depth)),
            Err(e) => Err(e),
        },
{
    let esc = call_escape(f, n, gap, name, before, args, tail);
    let t = esc + rest;
    let a = 3 + gap.len() as int;
    let b = a + name.len();
    let p = b + before.len();
    let q = p + 1 + args.len();
    let c = q + 1 + tail.len();
    lemma_call_layout(t, f, n, gap, name, before, args, tail, rest);
    lemma_call_is_read(t, f, n, gap, name, before, args, tail, rest);
    lemma_called(m, t, a, b, p, q, c, depth);
    let r = translated_escape(m.everywhere(), t, 0, 0, depth);
    assert(r == translated_call(m.everywhere(), t, 0, 0, a, b, c, depth));
    lemma_escape_front(m, esc, rest, depth);
}

/// How many parentheses of `s` are open at its end.
pub open spec fn level(s: Seq<char>) -> int
    decreases s.len(),
{
    if s.len() == 0 {
        0
    } else if s.last() == '(' {
        level(s.drop_last()) + 1
    } else if s.last() == ')' {
        level(s.drop_last()) - 1
    } else {
        level(s.drop_last())
    }
}

/// Whether the parentheses of `s` pair up.
pub open spec fn is_balanced(s: Seq<char>) -> bool {
    level(s) == 0 && forall|i: int| 0 <= i <= s.len() ==> level(#[trigger] s.take(i)) >= 0
}

proof fn lemma_paren_level(
    quotes: Seq<(char, char)>,
    t: Seq<char>,
    from: int,
    args: Seq<char>,
    i: int,
    limit: int,
)
    requires
        0 <= from,
        from + args.len() <= limit <= t.len(),
        t.subrange(from, from + args.len()) == args,
        0 <= i <= args.len(),
        is_balanced(args),
        forall|k: int|
            0 <= k < args.len() ==> is_ordinary(quotes, #[trigger] args[k]) || ((args[k] == '('
                || args[k] == ')') && !opens(quotes, args[k])),
    ensures
        paren_close(quotes, t, from, limit, 1) == paren_close(
            quotes,
            t,
            from + i,
            limit,
            1 + level(args.take(i)),
        ),
    decreases i,
{
    if i > 0 {
        lemma_paren_level(quotes, t, from, args, i - 1, limit);
        assert(args.take(i).drop_last() =~= args.take(i - 1));
        assert(t.subrange(from, from + args.len())[i - 1] == args[i - 1]);
        assert(t[from + i - 1] == args[i - 1]);
        assert(level(args.take(i)) >= 0);
        assert(level(args.take(i - 1)) >= 0);
        assert(is_ordinary(quotes, args[i - 1]) || ((args[i - 1] == '(' || args[i - 1] == ')')
            && !opens(quotes, args[i - 1])));
        lemma_ordinary(quotes, t, from + i - 1);
    }
}

/// For every name of ASCII letters, digits and underscores in `{fn NAME(args)}`, with
/// arguments whose parentheses pair up, the rewrite rule is asked with that whole name
/// and the arguments without the white space around them. What it gives stands for the
/// call. Where it declines, what the rename rule gives for that whole name stands for
/// the name, and the rest of the call is as it was.
pub proof fn law_a_call_of_a_function(
    m: DialectModel,
    f: char,
    n: char,
    gap: Seq<char>,
    name: Seq<char>,
    before: Seq<char>,
    args: Seq<char>,
    tail: Seq<char>,
    rest: Seq<char>,
    depth: int,
)
    requires
        f == 'f' || f == 'F',
        n == 'n' || n == 'N',
        gap.len() > 0,
        is_blank(gap),
        is_name(name),
        is_blank(before),
        is_blank(tail),
        is_balanced(args),
        depth < MAX_ESCAPE_DEPTH,
        !opens(m.quotes, '{') && !opens(m.quotes, '}') && !opens(m.quotes, '(') && !opens(
            m.quotes,
            ')',
        ) && !opens(m.quotes, ' ') && !opens(m.quotes, f) && !opens(m.quotes, n),
        forall|k: int| 0 <= k < name.len() ==> !opens(m.quotes, #[trigger] name[k]),
        forall|k: int|
            0 <= k < args.len() ==> is_ordinary(m.quotes, #[trigger] args[k]) || args[k] == '('
                || args[k] == ')',
    ensures
        translated(m, call_escape(f, n, gap, name, before, args, tail) + rest, depth)
            == followed_by(
            match (m.rewrite)(name, trim(args)) {
                Some(text) => text,
                None => renamed(m, name) + before + seq!['('] + args + seq![')'] + tail,
            },
            translated(m, rest, depth),
        ),
{
    let esc = call_escape(f, n, gap, name, before, args, tail);
    let t = esc + rest;
    let a = 3 + gap.len() as int;
    let b = a + name.len();
    let p = b + before.len();
    let q = p + 1 + args.len();
    let c = q + 1 + tail.len();
    lemma_call_layout(t, f, n, gap, name, before, args, tail, rest);
    assert forall|k: int| 1 <= k < c implies is_ordinary(m.quotes, #[trigger] t[k]) || ((t[k] == '('
        || t[k] == ')') && !opens(m.quotes, t[k])) by {
        if k < 3 {
        } else if k < a {
            assert(t.subrange(3, a)[k - 3] == gap[k - 3]);
        } else if k < b {
            assert(t.subrange(a, b)[k - a] == name[k - a]);
        } else if k < p {
            assert(t.subrange(b, p)[k - b] == before[k - b]);
        } else if k == p || k == q {
        } else if k < q {
            assert(t.subrange(p + 1, q)[k - p - 1] == args[k - p - 1]);
        } else {
            assert(t.subrange(q + 1, c)[k - q - 1] == tail[k - q - 1]);
        }
    }
    lemma_brace_over(m.quotes, t, 1, c, 1);
    lemma_ordinary(m.quotes, t, c);
    assert(brace_close(m.quotes, t, 1, 1) == Some(c));
    lemma_ordinary(m.quotes, t, p);
    lemma_paren_level(m.quotes, t, p + 1, args, args.len() as int, c);
    assert(args.take(args.len() as int) =~= args);
    lemma_ordinary(m.quotes, t, q);
    assert(paren_close(m.quotes, t, p, c, 0) == Some(q));
    law_a_function_goes_by_its_whole_name(m, f, n, gap, name, before, args, tail, rest, depth);
    assert(!args.contains('{'));
    assert(!tail.contains('{'));
    lemma_braceless(m.quotes, args, 0);
    lemma_braceless(m.quotes, tail, 0);
    lemma_no_escape_from(m.everywhere(), args, 0, 0, depth + 1);
    lemma_no_escape_from(m.everywhere(), tail, 0, 0, depth + 1);
    assert(args.subrange(0, args.len() as int) =~= args);
    assert(tail.subrange(0, tail.len() as int) =~= tail);
    law_trimming_takes_the_white_space_around(Seq::empty(), Seq::empty(), tail);
    assert(Seq::<char>::empty() + tail =~= tail);
    if let Some(text) = (m.rewrite)(name, trim(args)) {
        assert(text + Seq::<char>::empty() =~= text);
    }
}

/// Below 65 levels a text without a brace is itself; deeper in, every text is refused.
pub proof fn law_escapes_nest_up_to_a_limit(m: DialectModel, s: Seq<char>, depth: int)
    ensures
        depth > 64 ==> translated(m, s, depth) == Err::<Seq<char>, ErrorView>(
            ErrorView::general("Escape sequences nested deeper than 64 levels"@, "42000"@),
        ),
        depth <= 64 && !s.contains('{') ==> translated(m, s, depth) == Ok::<Seq<char>, ErrorView>(
            s,
        ),
{
    if depth <= 64 && !s.contains('{') {
        lemma_braceless(m.quotes, s, 0);
        lemma_no_escape_from(m.everywhere(), s, 0, 0, depth);
        assert(s.subrange(0, s.len() as int) =~= s);
    }
}

/// An escape without its closing brace is refused.
pub proof fn law_an_escape_has_to_end(m: DialectModel, s: Seq<char>, depth: int)
    requires
        depth <= MAX_ESCAPE_DEPTH,
        !opens(m.quotes, '{') && !opens(m.quotes, '(') && !opens(m.quotes, ')'),
        forall|k: int|
            0 <= k < s.len() ==> is_ordinary(m.quotes, #[trigger] s[k]) || s[k] == '(' || s[k]
                == ')',
    ensures
        translated(m, seq!['{'] + s, depth) == Err::<Seq<char>, ErrorView>(
            ErrorView::general("unterminated ODBC escape sequence (missing '}')"@, "42000"@),
        ),
{
    let t = seq!['{'] + s;
    assert forall|k: int| 1 <= k < t.len() implies is_ordinary(m.quotes, #[trigger] t[k]) || ((t[k]
        == '(' || t[k] == ')') && !opens(m.quotes, t[k])) by {
        assert(t[k] == s[k - 1]);
    }
    lemma_brace_over(m.quotes, t, 1, t.len() as int, 1);
    lemma_ordinary(m.quotes, t, 0);
}

/// Whether `word` is `small` with any of its letters made capitals.
pub open spec fn in_any_case(word: Seq<char>, small: Seq<char>) -> bool {
    &&& word.len() == small.len()
    &&& forall|i: int|
        0 <= i < word.len() ==> 'a' <= #[trigger] small[i] <= 'z' && (word[i] == small[i] || word[i]
            as u32 + 32 == small[i] as u32)
}

proof fn lemma_in_any_case(word: Seq<char>, small: Seq<char>)
    requires
        in_any_case(word, small),
    ensures
        lowercase(word) == small,
        forall|i: int| 0 <= i < word.len() ==> is_word(#[trigger] word[i], false),
{
    assert forall|i: int| 0 <= i < word.len() implies lowercase(word)[i] == small[i] && is_word(
        #[trigger] word[i],
        false,
    ) by {
        law_small_letters(word, i);
        assert('a' <= small[i] <= 'z');
        lemma_other_case(word[i], small[i]);
    }
    if word.len() > 0 {
        law_small_letters(word, 0);
    }
    assert(lowercase(word) =~= small);
}

proof fn lemma_other_case(c: char, small: char)
    requires
        'a' <= small <= 'z',
        c == small || c as u32 + 32 == small as u32,
    ensures
        is_word(c, false),
        c == small ==> !('A' <= c <= 'Z'),
        c != small ==> 'A' <= c <= 'Z',
{
}

/// An escape of a keyword and what follows it.
pub open spec fn keyword_escape(
    word: Seq<char>,
    gap: Seq<char>,
    body: Seq<char>,
    pad: Seq<char>,
) -> Seq<char> {
    seq!['{'] + word + gap + body + pad + seq!['}']
}

proof fn lemma_keyword_layout(
    t: Seq<char>,
    word: Seq<char>,
    gap: Seq<char>,
    body: Seq<char>,
    pad: Seq<char>,
    rest: Seq<char>,
)
    requires
        t == keyword_escape(word, gap, body, pad) + rest,
    ensures
        ({
            let k = 1 + word.len() as int;
            let g = k + gap.len();
            let b = g + body.len();
            let c = b + pad.len();
            &&& c < t.len()
            &&& c + 1 == keyword_escape(word, gap, body, pad).len()
            &&& t[0] == '{'
            &&& t[c] == '}'
            &&& t.subrange(1, k) == word
            &&& t.subrange(k, g) == gap
            &&& t.subrange(g, b) == body
            &&& t.subrange(b, c) == pad
            &&& t.subrange(k, c) == gap + body + pad
            &&& t.subrange(0, c + 1) == keyword_escape(word, gap, body, pad)
        }),
{
    let k = 1 + word.len() as int;
    let g = k + gap.len();
    let b = g + body.len();
    let c = b + pad.len();
    assert(t.subrange(1, k) =~= word);
    assert(t.subrange(k, g) =~= gap);
    assert(t.subrange(g, b) =~= body);
    assert(t.subrange(b, c) =~= pad);
    assert(t.subrange(k, c) =~= gap + body + pad);
    assert(t.subrange(0, c + 1) =~= keyword_escape(word, gap, body, pad));
}

/// Whether `body` can stand behind a keyword, with `gap` between them: it starts and
/// ends with no white space, and what separates it from the keyword is white space or
/// the quote of a literal.
pub open spec fn follows_keyword(gap: Seq<char>, body: Seq<char>) -> bool {
    &&& body.len() > 0
    &&& !is_whitespace(body[0])
    &&& !is_whitespace(body.last())
    &&& gap.len() > 0 || body[0] == '\''
}

proof fn lemma_keyword_is_read(
    t: Seq<char>,
    word: Seq<char>,
    gap: Seq<char>,
    body: Seq<char>,
    pad: Seq<char>,
    rest: Seq<char>,
)
    requires
        t == keyword_escape(word, gap, body, pad) + rest,
        word.len() > 0,
        forall|i: int| 0 <= i < word.len() ==> is_word(#[trigger] word[i], false),
        is_blank(gap),
        follows_keyword(gap, body),
    ensures
        skip_space(t, 1) == 1,
        word_end(t, 1, false) == 1 + word.len(),
{
    lemma_keyword_layout(t, word, gap, body, pad, rest);
    let k = 1 + word.len() as int;
    assert forall|i: int| 1 <= i < k implies is_word(#[trigger] t[i], false) by {
        assert(t.subrange(1, k)[i - 1] == word[i - 1]);
    }
    lemma_name_is_a_word(t[1]);
    lemma_skip_run(t, 1, 1);
    if gap.len() > 0 {
        assert(t.subrange(k, k + gap.len())[0] == gap[0]);
    } else {
        assert(t.subrange(k, k + body.len())[0] == body[0]);
    }
    lemma_name_is_a_word(t[k]);
    lemma_word_run(t, 1, k, false);
}

proof fn lemma_blank(s: Seq<char>)
    requires
        is_blank(s),
    ensures
        forall|i: int| 0 <= i < s.len() ==> is_whitespace(#[trigger] s[i]),
{
    assert forall|i: int| 0 <= i < s.len() implies is_whitespace(#[trigger] s[i]) by {
        assert(s[i] == ' ');
    }
}

proof fn lemma_all_keywords_differ()
    ensures
        "fn"@ != "d"@,
        "fn"@ != "t"@,
        "fn"@ != "ts"@,
        "fn"@ != "oj"@,
        "fn"@ != "escape"@,
        "fn"@ != "call"@,
        "d"@ != "t"@,
        "d"@ != "ts"@,
        "d"@ != "oj"@,
        "d"@ != "escape"@,
        "d"@ != "call"@,
        "t"@ != "ts"@,
        "t"@ != "oj"@,
        "t"@ != "escape"@,
        "t"@ != "call"@,
        "ts"@ != "oj"@,
        "ts"@ != "escape"@,
        "ts"@ != "call"@,
        "oj"@ != "escape"@,
        "oj"@ != "call"@,
        "escape"@ != "call"@,
{
    reveal_strlit("fn");
    reveal_strlit("d");
    reveal_strlit("t");
    reveal_strlit("ts");
    reveal_strlit("oj");
    reveal_strlit("escape");
    reveal_strlit("call");
    assert("fn"@[0] == 'f');
    assert("d"@[0] == 'd');
    assert("t"@[0] == 't');
    assert("ts"@[0] == 't');
    assert("oj"@[0] == 'o');
    assert("escape"@[0] == 'e');
    assert("call"@[0] == 'c');
    assert("t"@.len() != "ts"@.len());
}

/// What stands behind the keyword decides the escape, without the white space around
/// it: a date, a time and a timestamp are what the rule of each makes of the literal,
/// an outer join is what its body translates to, the escape character follows
/// `ESCAPE`, and a call of a procedure is refused. An escape of any other keyword is
/// kept whole. What follows the escape is translated as it is by itself.
pub proof fn law_escapes_go_by_their_keyword(
    m: DialectModel,
    word: Seq<char>,
    gap: Seq<char>,
    body: Seq<char>,
    pad: Seq<char>,
    rest: Seq<char>,
    depth: int,
)
    requires
        depth <= MAX_ESCAPE_DEPTH,
        word.len() > 0,
        forall|i: int|
            0 <= i < word.len() ==> ('a' <= #[trigger] word[i] <= 'z') || ('A' <= word[i] <= 'Z'),
        is_blank(gap),
        is_blank(pad),
        follows_keyword(gap, body),
        !opens(m.quotes, '{'),
        brace_close(m.quotes, keyword_escape(word, gap, body, pad) + rest, 1, 1) == Some(
            keyword_escape(word, gap, body, pad).len() - 1,
        ),
    ensures
        ({
            let whole = translated(m, keyword_escape(word, gap, body, pad) + rest, depth);
            let behind = translated(m, rest, depth);
            let reads = |small: Seq<char>| in_any_case(word, small);
            &&& reads("d"@) ==> whole == followed_by((m.date)(body), behind)
            &&& reads("t"@) ==> whole == followed_by((m.time)(body), behind)
            &&& reads("ts"@) ==> whole == followed_by((m.timestamp)(body), behind)
            &&& reads("escape"@) ==> whole == followed_by("ESCAPE "@ + body, behind)
            &&& reads("oj"@) ==> whole == match translated(m, gap + body + pad, depth + 1) {
                Ok(join) => followed_by(trim(join), behind),
                Err(e) => Err(e),
            }
            &&& reads("call"@) ==> whole == Err::<Seq<char>, ErrorView>(
                ErrorView::general(
                    "stored-procedure escape ({call ...}) is not supported by this driver"@,
                    "HYC00"@,
                ),
            )
            &&& !reads("d"@) && !reads("t"@) && !reads("ts"@) && !reads("escape"@) && !reads("oj"@) && !reads(
                "call"@,
            ) && !reads("fn"@) ==> whole == followed_by(
                keyword_escape(word, gap, body, pad),
                behind,
            )
        }),
{
    let esc = keyword_escape(word, gap, body, pad);
    let t = esc + rest;
    let k = 1 + word.len() as int;
    let c = esc.len() - 1;
    lemma_keyword_layout(t, word, gap, body, pad, rest);
    lemma_keyword_is_read(t, word, gap, body, pad, rest);
    lemma_blank(gap);
    lemma_blank(pad);
    law_trimming_takes_the_white_space_around(gap, body, pad);
    lemma_all_keywords_differ();
    lemma_which_keyword(word, "fn"@);
    lemma_which_keyword(word, "d"@);
    lemma_which_keyword(word, "t"@);
    lemma_which_keyword(word, "ts"@);
    lemma_which_keyword(word, "oj"@);
    lemma_which_keyword(word, "escape"@);
    lemma_which_keyword(word, "call"@);
    lemma_place_free(m, gap + body + pad, k, 0, depth + 1);
    reveal_strlit("fn");
    reveal_strlit("d");
    reveal_strlit("t");
    reveal_strlit("ts");
    reveal_strlit("oj");
    reveal_strlit("escape");
    reveal_strlit("call");
    assert(t.subrange(0, c + 1) == esc);
    lemma_escape_front(m, esc, rest, depth);
}

/// A word of letters is a keyword in any case just where its small letters spell it.
proof fn lemma_which_keyword(word: Seq<char>, small: Seq<char>)
    requires
        forall|i: int|
            0 <= i < word.len() ==> ('a' <= #[trigger] word[i] <= 'z') || ('A' <= word[i] <= 'Z'),
    ensures
        (forall|i: int| 0 <= i < small.len() ==> 'a' <= #[trigger] small[i] <= 'z') ==> (lowercase(
            word,
        ) == small) == in_any_case(word, small),
{
    if in_any_case(word, small) {
        lemma_in_any_case(word, small);
    }
    if (forall|i: int| 0 <= i < small.len() ==> 'a' <= #[trigger] small[i] <= 'z') && lowercase(word)
        == small {
        if word.len() > 0 {
            law_small_letters(word, 0);
        }
        assert forall|i: int| 0 <= i < word.len() implies 'a' <= #[trigger] small[i] <= 'z' && (
        word[i] == small[i] || word[i] as u32 + 32 == small[i] as u32) by {
            law_small_letters(word, i);
        }
    }
}

/// `s` with each `quote` in it written twice.
pub open spec fn doubled(s: Seq<char>, quote: char) -> Seq<char>
    decreases s.len(),
{
    if s.len() == 0 {
        s
    } else {
        (if s[0] == quote {
            seq![quote, quote]
        } else {
            seq![s[0]]
        }) + doubled(s.drop_first(), quote)
    }
}

proof fn lemma_doubled_end(t: Seq<char>, i: int, s: Seq<char>, quote: char)
    requires
        0 <= i,
        i + doubled(s, quote).len() < t.len(),
        t.subrange(i, i + doubled(s, quote).len()) == doubled(s, quote),
        t[i + doubled(s, quote).len()] == quote,
        i + doubled(s, quote).len() + 1 < t.len() ==> t[i + doubled(s, quote).len() + 1] != quote,
    ensures
        quoted_end(t, i, quote, true) == i + doubled(s, quote).len() + 1,
    decreases s.len(),
{
    if s.len() > 0 {
        let all = doubled(s, quote);
        let rest = doubled(s.drop_first(), quote);
        let n = all.len() - rest.len();
        assert forall|k: int| 0 <= k < all.len() implies t[i + k] == #[trigger] all[k] by {
            assert(t.subrange(i, i + all.len())[k] == all[k]);
        }
        assert(all.subrange(n, all.len() as int) =~= rest);
        assert(t.subrange(i + n, i + n + rest.len()) =~= rest) by {
            assert forall|k: int| 0 <= k < rest.len() implies t[i + n + k] == rest[k] by {
                assert(all[n + k] == rest[k]);
            }
        }
        lemma_doubled_end(t, i + n, s.drop_first(), quote);
        assert(t[i] == all[0]);
        if s[0] == quote {
            assert(t[i + 1] == all[1]);
        }
    }
}

proof fn lemma_single_end(t: Seq<char>, i: int, j: int, close: char, twice: bool)
    requires
        0 <= i <= j < t.len(),
        forall|k: int| i <= k < j ==> #[trigger] t[k] != close,
        t[j] == close,
        twice && j + 1 < t.len() ==> t[j + 1] != close,
    ensures
        quoted_end(t, i, close, twice) == j + 1,
    decreases j - i,
{
    if i < j {
        lemma_single_end(t, i + 1, j, close, twice);
    }
}

/// A string literal is copied as it stands, whatever it holds, with the quotes in it
/// written twice, and what follows it is translated as it is by itself.
pub proof fn law_a_string_literal_is_kept(
    m: DialectModel,
    s: Seq<char>,
    rest: Seq<char>,
    depth: int,
)
    requires
        depth <= MAX_ESCAPE_DEPTH,
        rest.len() > 0 ==> rest[0] != '\'',
    ensures
        translated(m, seq!['\''] + doubled(s, '\'') + seq!['\''] + rest, depth) == followed_by(
            seq!['\''] + doubled(s, '\'') + seq!['\''],
            translated(m, rest, depth),
        ),
{
    let inside = doubled(s, '\'');
    let lit = seq!['\''] + inside + seq!['\''];
    let t = lit + rest;
    assert(t.subrange(1, 1 + inside.len() as int) =~= inside);
    lemma_doubled_end(t, 1, s, '\'');
    lemma_verbatim_front(m, lit, rest, depth);
}

/// An identifier in quotes is copied as it stands. Where the same character opens and
/// closes it, one inside it is written twice; where another closes it, it ends at the
/// first of those. The first pair that opens with a character counts.
pub proof fn law_a_quoted_identifier_is_kept(
    m: DialectModel,
    k: int,
    s: Seq<char>,
    rest: Seq<char>,
    depth: int,
)
    requires
        depth <= MAX_ESCAPE_DEPTH,
        0 <= k < m.quotes.len(),
        m.quotes[k].0 != '\'',
        forall|j: int| 0 <= j < k ==> (#[trigger] m.quotes[j]).0 != m.quotes[k].0,
        m.quotes[k].0 == m.quotes[k].1 ==> rest.len() > 0 ==> rest[0] != m.quotes[k].1,
        m.quotes[k].0 != m.quotes[k].1 ==> !s.contains(m.quotes[k].1),
    ensures
        ({
            let (open, close) = m.quotes[k];
            let inside = if open == close {
                doubled(s, close)
            } else {
                s
            };
            translated(m, seq![open] + inside + seq![close] + rest, depth) == followed_by(
                seq![open] + inside + seq![close],
                translated(m, rest, depth),
            )
        }),
{
    let (open, close) = m.quotes[k];
    let inside = if open == close {
        doubled(s, close)
    } else {
        s
    };
    let lit = seq![open] + inside + seq![close];
    let t = lit + rest;
    law_the_first_pair_closes(m.quotes, open, k);
    if open == close {
        assert(t.subrange(1, 1 + inside.len() as int) =~= inside);
        lemma_doubled_end(t, 1, s, close);
    } else {
        assert forall|i: int| 1 <= i < 1 + inside.len() implies #[trigger] t[i] != close by {
            assert(s.contains(s[i - 1]));
        }
        lemma_single_end(t, 1, 1 + inside.len() as int, close, false);
    }
    lemma_verbatim_front(m, lit, rest, depth);
}

proof fn lemma_line_run(t: Seq<char>, i: int, j: int)
    requires
        0 <= i <= j < t.len(),
        forall|k: int| i <= k < j ==> #[trigger] t[k] != '\n',
        t[j] == '\n',
    ensures
        line_end(t, i) == j + 1,
    decreases j - i,
{
    if i < j {
        lemma_line_run(t, i + 1, j);
    }
}

/// A comment after two hyphens is copied as it stands, to the end of its line, and
/// what follows it is translated as it is by itself.
pub proof fn law_a_line_comment_is_kept(m: DialectModel, s: Seq<char>, rest: Seq<char>, depth: int)
    requires
        depth <= MAX_ESCAPE_DEPTH,
        !opens(m.quotes, '-'),
        !s.contains('\n'),
    ensures
        translated(m, seq!['-', '-'] + s + seq!['\n'] + rest, depth) == followed_by(
            seq!['-', '-'] + s + seq!['\n'],
            translated(m, rest, depth),
        ),
{
    let lit = seq!['-', '-'] + s + seq!['\n'];
    let t = lit + rest;
    law_the_first_pair_closes(m.quotes, '-', 0);
    let j = 2 + s.len() as int;
    assert forall|k: int| 0 <= k < j implies #[trigger] t[k] != '\n' by {
        if k >= 2 {
            assert(s.contains(s[k - 2]));
        }
    }
    lemma_line_run(t, 0, j);
    lemma_verbatim_front(m, lit, rest, depth);
}

proof fn lemma_block_run(t: Seq<char>, i: int, j: int)
    requires
        0 <= i <= j,
        j + 1 < t.len(),
        forall|k: int| i <= k < j ==> !(#[trigger] t[k] == '*' && t[k + 1] == '/'),
        t[j] == '*',
        t[j + 1] == '/',
    ensures
        block_end(t, i) == j + 2,
    decreases j - i,
{
    if i < j {
        assert(!(t[i] == '*' && t[i + 1] == '/'));
        lemma_block_run(t, i + 1, j);
    }
}

/// A comment between `/*` and `*/` is copied as it stands, whatever it holds, and what
/// follows it is translated as it is by itself.
pub proof fn law_a_block_comment_is_kept(
    m: DialectModel,
    s: Seq<char>,
    rest: Seq<char>,
    depth: int,
)
    requires
        depth <= MAX_ESCAPE_DEPTH,
        !opens(m.quotes, '/'),
        forall|k: int| 0 <= k < s.len() - 1 ==> !(#[trigger] s[k] == '*' && s[k + 1] == '/'),
    ensures
        translated(m, seq!['/', '*'] + s + seq!['*', '/'] + rest, depth) == followed_by(
            seq!['/', '*'] + s + seq!['*', '/'],
            translated(m, rest, depth),
        ),
{
    let lit = seq!['/', '*'] + s + seq!['*', '/'];
    let t = lit + rest;
    law_the_first_pair_closes(m.quotes, '/', 0);
    let j = 2 + s.len() as int;
    assert forall|k: int| 2 <= k < j implies !(#[trigger] t[k] == '*' && t[k + 1] == '/') by {
        assert(t[k] == s[k - 2]);
        if k + 1 < j {
            assert(t[k + 1] == s[k - 1]);
        } else {
            assert(t[k + 1] == '*');
        }
    }
    lemma_block_run(t, 2, j);
    lemma_verbatim_front(m, lit, rest, depth);
}

/// A single character that opens nothing is kept, and so is one that starts no comment.
pub proof fn law_any_other_character_is_kept(
    m: DialectModel,
    c: char,
    rest: Seq<char>,
    depth: int,
)
    requires
        depth <= MAX_ESCAPE_DEPTH,
        c != '{' && c != '\'' && !opens(m.quotes, c),
        c == '-' && rest.len() > 0 ==> rest[0] != '-',
        c == '/' && rest.len() > 0 ==> rest[0] != '*',
    ensures
        translated(m, seq![c] + rest, depth) == followed_by(seq![c], translated(m, rest, depth)),
{
    let t = seq![c] + rest;
    law_the_first_pair_closes(m.quotes, c, 0);
    assert(rest == t.subrange(1, 1 + rest.len() as int));
    assert(verbatim_end(m.quotes, t, 0) is None);
    lemma_end_translates(m.everywhere(), rest, t, 0, 1, 0, depth);
    lemma_place_free(m, rest, 1, 0, depth);
}

/// A literal in quotes ends no escape, whatever it holds: the escape closes at the
/// brace behind it.
proof fn lemma_literal_escape_closes(
    quotes: Seq<(char, char)>,
    word: Seq<char>,
    gap: Seq<char>,
    s: Seq<char>,
    pad: Seq<char>,
    rest: Seq<char>,
)
    requires
        forall|i: int|
            0 <= i < word.len() ==> ('a' <= #[trigger] word[i] <= 'z') || ('A' <= word[i] <= 'Z'),
        forall|i: int| 0 <= i < word.len() ==> !opens(quotes, #[trigger] word[i]),
        is_blank(gap),
        is_blank(pad),
        !opens(quotes, ' '),
        !opens(quotes, '}'),
    ensures
        ({
            let esc = keyword_escape(
                word,
                gap,
                seq!['\''] + doubled(s, '\'') + seq!['\''],
                pad,
            );
            brace_close(quotes, esc + rest, 1, 1) == Some(esc.len() - 1)
        }),
{
    let inside = doubled(s, '\'');
    let lit = seq!['\''] + inside + seq!['\''];
    let esc = keyword_escape(word, gap, lit, pad);
    let t = esc + rest;
    let k = 1 + word.len() as int;
    let g = k + gap.len();
    let b = g + lit.len();
    let c = b + pad.len();
    lemma_keyword_layout(t, word, gap, lit, pad, rest);
    assert forall|i: int| 1 <= i < g implies is_ordinary(quotes, #[trigger] t[i]) by {
        if i < k {
            assert(t.subrange(1, k)[i - 1] == word[i - 1]);
        } else {
            assert(t.subrange(k, g)[i - k] == gap[i - k]);
        }
    }
    lemma_brace_over(quotes, t, 1, g, 1);
    assert(t.subrange(g, b)[0] == lit[0]);
    assert(t.subrange(g, b)[lit.len() - 1] == lit[lit.len() - 1]);
    assert(t.subrange(g + 1, g + 1 + inside.len()) =~= inside) by {
        assert forall|i: int| 0 <= i < inside.len() implies t[g + 1 + i] == inside[i] by {
            assert(t.subrange(g, b)[1 + i] == lit[1 + i]);
        }
    }
    assert(t[b] != '\'') by {
        if pad.len() > 0 {
            assert(t.subrange(b, c)[0] == pad[0]);
        }
    }
    lemma_doubled_end(t, g + 1, s, '\'');
    assert(verbatim_end(quotes, t, g) == Some(b));
    assert forall|i: int| b <= i < c implies is_ordinary(quotes, #[trigger] t[i]) by {
        assert(t.subrange(b, c)[i - b] == pad[i - b]);
    }
    lemma_brace_over(quotes, t, b, c, 1);
    lemma_ordinary(quotes, t, c);
}

/// `{d '...'}`, `{t '...'}` and `{ts '...'}`, in any case and with or without blanks,
/// are what the date, the time and the timestamp rule make of the literal with its
/// quotes, whatever it holds, and `{escape '...'}` is `ESCAPE` and the literal.
pub proof fn law_literal_escapes(
    m: DialectModel,
    word: Seq<char>,
    gap: Seq<char>,
    s: Seq<char>,
    pad: Seq<char>,
    rest: Seq<char>,
    depth: int,
)
    requires
        depth <= MAX_ESCAPE_DEPTH,
        forall|i: int|
            0 <= i < word.len() ==> ('a' <= #[trigger] word[i] <= 'z') || ('A' <= word[i] <= 'Z'),
        forall|i: int| 0 <= i < word.len() ==> !opens(m.quotes, #[trigger] word[i]),
        is_blank(gap),
        is_blank(pad),
        !opens(m.quotes, ' '),
        !opens(m.quotes, '{'),
        !opens(m.quotes, '}'),
    ensures
        ({
            let lit = seq!['\''] + doubled(s, '\'') + seq!['\''];
            let whole = translated(m, keyword_escape(word, gap, lit, pad) + rest, depth);
            let behind = translated(m, rest, depth);
            &&& in_any_case(word, "d"@) ==> whole == followed_by((m.date)(lit), behind)
            &&& in_any_case(word, "t"@) ==> whole == followed_by((m.time)(lit), behind)
            &&& in_any_case(word, "ts"@) ==> whole == followed_by((m.timestamp)(lit), behind)
            &&& in_any_case(word, "escape"@) ==> whole == followed_by("ESCAPE "@ + lit, behind)
        }),
{
    let lit = seq!['\''] + doubled(s, '\'') + seq!['\''];
    reveal_strlit("d");
    reveal_strlit("t");
    reveal_strlit("ts");
    reveal_strlit("escape");
    if word.len() > 0 {
        lemma_literal_escape_closes(m.quotes, word, gap, s, pad, rest);
        law_escapes_go_by_their_keyword(m, word, gap, lit, pad, rest, depth);
    }
}

/// `{?= call ...}` is refused, as `{call ...}` is.
pub proof fn law_a_call_with_a_result_is_refused(
    m: DialectModel,
    gap: Seq<char>,
    s: Seq<char>,
    rest: Seq<char>,
    depth: int,
)
    requires
        depth <= MAX_ESCAPE_DEPTH,
        is_blank(gap),
        !opens(m.quotes, ' ') && !opens(m.quotes, '{') && !opens(m.quotes, '}') && !opens(
            m.quotes,
            '?',
        ) && !opens(m.quotes, '(') && !opens(m.quotes, ')'),
        forall|k: int|
            0 <= k < s.len() ==> is_ordinary(m.quotes, #[trigger] s[k]) || s[k] == '(' || s[k]
                == ')',
    ensures
        translated(m, seq!['{'] + gap + seq!['?'] + s + seq!['}'] + rest, depth) == Err::<
            Seq<char>,
            ErrorView,
        >(
            ErrorView::general(
                "stored-procedure escape ({?= call ...}) is not supported by this driver"@,
                "HYC00"@,
            ),
        ),
{
    let esc = seq!['{'] + gap + seq!['?'] + s + seq!['}'];
    let t = esc + rest;
    let g = 1 + gap.len() as int;
    let c = g + 1 + s.len();
    assert forall|k: int| 1 <= k < c implies is_ordinary(m.quotes, #[trigger] t[k]) || ((t[k] == '('
        || t[k] == ')') && !opens(m.quotes, t[k])) by {
        if k < g {
            assert(t[k] == gap[k - 1]);
        } else if k > g {
            assert(t[k] == s[k - g - 1]);
        }
    }
    lemma_brace_over(m.quotes, t, 1, c, 1);
    lemma_ordinary(m.quotes, t, c);
    assert forall|k: int| 1 <= k < g implies is_whitespace(#[trigger] t[k]) by {
        assert(t[k] == gap[k - 1]);
    }
    assert(t[g] == '?');
    lemma_skip_run(t, 1, g);
    lemma_word_run(t, g, g, false);
    assert(t.subrange(g, g) =~= Seq::<char>::empty());
    assert(lowercase(t.subrange(g, g)) =~= Seq::<char>::empty());
    reveal_strlit("fn");
    reveal_strlit("d");
    reveal_strlit("t");
    reveal_strlit("ts");
    reveal_strlit("oj");
    reveal_strlit("escape");
    reveal_strlit("call");
    assert(lowercase(t.subrange(g, g)).len() == 0);
    lemma_escape_front(m, esc, rest, depth);
}

/// A function that no parentheses follow is renamed, by its whole name, and the
/// rewrite rule is not asked.
pub proof fn law_a_function_without_parentheses_is_renamed(
    m: DialectModel,
    f: char,
    n: char,
    gap: Seq<char>,
    name: Seq<char>,
    pad: Seq<char>,
    rest: Seq<char>,
    depth: int,
)
    requires
        depth < MAX_ESCAPE_DEPTH,
        f == 'f' || f == 'F',
        n == 'n' || n == 'N',
        gap.len() > 0,
        is_blank(gap),
        is_name(name),
        is_blank(pad),
        !opens(m.quotes, '{') && !opens(m.quotes, '}') && !opens(m.quotes, ' ') && !opens(
            m.quotes,
            f,
        ) && !opens(m.quotes, n),
        forall|k: int| 0 <= k < name.len() ==> !opens(m.quotes, #[trigger] name[k]),
    ensures
        translated(m, keyword_escape(seq![f, n], gap, name, pad) + rest, depth) == followed_by(
            renamed(m, name) + pad,
            translated(m, rest, depth),
        ),
{
    let word = seq![f, n];
    let esc = keyword_escape(word, gap, name, pad);
    let t = esc + rest;
    let a = 3 + gap.len() as int;
    let b = a + name.len();
    let c = b + pad.len();
    lemma_keyword_layout(t, word, gap, name, pad, rest);
    assert(t[1] == t.subrange(1, 3)[0] && t[2] == t.subrange(1, 3)[1]);
    assert forall|k: int| 3 <= k < a implies #[trigger] t[k] == ' ' by {
        assert(t.subrange(3, a)[k - 3] == gap[k - 3]);
    }
    assert forall|k: int| a <= k < b implies is_word(#[trigger] t[k], true) && !opens(
        m.quotes,
        t[k],
    ) by {
        assert(t.subrange(a, b)[k - a] == name[k - a]);
        lemma_name_is_a_word(t[k]);
    }
    assert forall|k: int| b <= k < c implies #[trigger] t[k] == ' ' by {
        assert(t.subrange(b, c)[k - b] == pad[k - b]);
    }
    assert forall|k: int| 1 <= k < c implies is_ordinary(m.quotes, #[trigger] t[k]) by {
        lemma_name_is_a_word(t[k]);
    }
    lemma_brace_over(m.quotes, t, 1, c, 1);
    lemma_ordinary(m.quotes, t, c);
    lemma_name_is_a_word(t[1]);
    lemma_name_is_a_word(t[2]);
    lemma_name_is_a_word(t[a]);
    lemma_name_is_a_word(t[c]);
    lemma_skip_run(t, 1, 1);
    lemma_word_run(t, 1, 3, false);
    lemma_fn_keyword(f, n);
    lemma_skip_run(t, 3, a);
    lemma_word_run(t, a, b, true);
    lemma_skip_run(t, b, c);
    assert(paren_close(m.quotes, t, c, c, 0) is None);
    let e = m.everywhere();
    assert(!pad.contains('{'));
    lemma_braceless(m.quotes, pad, 0);
    lemma_no_escape_from(e, pad, b, 0, depth + 1);
    assert(pad.subrange(0, pad.len() as int) =~= pad);
    assert(remapped((e.at)(0), name) == Some(renamed(m, name)));
    assert(call_outcome(e, t, 0, 0, a, b, c, depth) == Ok::<FnCallView, Stop>(
        FnCallView::NotACall,
    ));
    assert(translated_call(e, t, 0, 0, a, b, c, depth) == Ok::<Seq<char>, Stop>(
        renamed(m, name) + pad,
    ));
    lemma_escape_front(m, esc, rest, depth);
}

/// `{oj ...}` is its body without the white space around it.
pub proof fn law_an_outer_join_is_its_body(
    m: DialectModel,
    word: Seq<char>,
    gap: Seq<char>,
    body: Seq<char>,
    pad: Seq<char>,
    rest: Seq<char>,
    depth: int,
)
    requires
        depth < MAX_ESCAPE_DEPTH,
        in_any_case(word, "oj"@),
        forall|i: int| 0 <= i < word.len() ==> !opens(m.quotes, #[trigger] word[i]),
        gap.len() > 0,
        is_blank(gap),
        is_blank(pad),
        follows_keyword(gap, body),
        !opens(m.quotes, '{') && !opens(m.quotes, '}') && !opens(m.quotes, ' ') && !opens(
            m.quotes,
            '(',
        ) && !opens(m.quotes, ')'),
        forall|k: int|
            0 <= k < body.len() ==> is_ordinary(m.quotes, #[trigger] body[k]) || body[k] == '('
                || body[k] == ')',
    ensures
        translated(m, keyword_escape(word, gap, body, pad) + rest, depth) == followed_by(
            body,
            translated(m, rest, depth),
        ),
{
    let esc = keyword_escape(word, gap, body, pad);
    let t = esc + rest;
    let k = 1 + word.len() as int;
    let g = k + gap.len();
    let b = g + body.len();
    let c = b + pad.len();
    reveal_strlit("oj");
    assert forall|i: int| 0 <= i < word.len() implies ('a' <= #[trigger] word[i] <= 'z') || ('A'
        <= word[i] <= 'Z') by {
        assert('a' <= "oj"@[i] <= 'z');
        lemma_other_case(word[i], "oj"@[i]);
    }
    lemma_keyword_layout(t, word, gap, body, pad, rest);
    assert forall|i: int| 1 <= i < c implies is_ordinary(m.quotes, #[trigger] t[i]) || ((t[i] == '('
        || t[i] == ')') && !opens(m.quotes, t[i])) by {
        if i < k {
            assert(t.subrange(1, k)[i - 1] == word[i - 1]);
        } else if i < g {
            assert(t.subrange(k, g)[i - k] == gap[i - k]);
        } else if i < b {
            assert(t.subrange(g, b)[i - g] == body[i - g]);
        } else {
            assert(t.subrange(b, c)[i - b] == pad[i - b]);
        }
    }
    lemma_brace_over(m.quotes, t, 1, c, 1);
    lemma_ordinary(m.quotes, t, c);
    law_escapes_go_by_their_keyword(m, word, gap, body, pad, rest, depth);
    let inside = gap + body + pad;
    assert forall|i: int| 0 <= i < inside.len() implies inside[i] != '{' by {
        if i < gap.len() {
            assert(inside[i] == gap[i]);
        } else if i < gap.len() + body.len() {
            assert(inside[i] == body[i - gap.len()]);
        } else {
            assert(inside[i] == pad[i - gap.len() - body.len()]);
        }
    }
    law_escapes_nest_up_to_a_limit(m, inside, depth + 1);
    lemma_blank(gap);
    lemma_blank(pad);
    law_trimming_takes_the_white_space_around(gap, body, pad);
}

/// The ANSI dialect names no function otherwise and rewrites no call; a date, a time and a
/// timestamp are the literals of the standard, and an identifier is quoted with double
/// quotes alone.
pub proof fn law_the_ansi_dialect(lit: Seq<char>, name: Seq<char>, args: Seq<char>, c: char)
    ensures
        ({
            let m = ansi_model();
            &&& (m.date)(lit) == "DATE "@ + lit
            &&& (m.time)(lit) == "TIME "@ + lit
            &&& (m.timestamp)(lit) == "TIMESTAMP "@ + lit
            &&& renamed(m, name) == name
            &&& (m.rewrite)(name, args) is None
            &&& opens(m.quotes, c) == (c == '"')
            &&& close_of(m.quotes, '"') == Some('"')
        }),
{
    let m = ansi_model();
    assert(m.quotes[0] == ('"', '"'));
    law_the_first_pair_closes(m.quotes, '"', 0);
}

} // verus!
