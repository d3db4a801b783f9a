//! The translation of ODBC escape sequences.

use stackable_odbc_core::escape::{EscapeDialect, MAX_ESCAPE_DEPTH, translate_escapes};

fn remap(name: &str) -> Option<&'static str> {
    match name.to_ascii_uppercase().as_str() {
        "UCASE" => Some("upper"),
        "LCASE" => Some("lower"),
        _ => None,
    }
}
fn d(x: &str) -> String {
    format!("DATE {x}")
}
fn t(x: &str) -> String {
    format!("TIME {x}")
}
fn ts(x: &str) -> String {
    format!("TIMESTAMP {x}")
}
/// Double-quote and bracket identifiers, two remapped functions, no rewriting.
fn dialect() -> EscapeDialect<
    impl Fn(&str) -> Option<&'static str>,
    impl Fn(&str, &str) -> Option<String>,
    impl Fn(&str) -> String,
    impl Fn(&str) -> String,
    impl Fn(&str) -> String,
> {
    EscapeDialect::ansi_default()
        .with_identifier_quotes(&[('"', '"'), ('[', ']')])
        .with_remap_scalar_fn(remap)
        .with_rewrite_scalar_fn(|_: &str, _: &str| None)
        .with_datetime_renderers(d, t, ts)
}
fn tr(sql: &str) -> String {
    translate_escapes(sql, &dialect()).unwrap()
}

// ------------------------------------------------------------------
// rewrite_scalar_fn — argument-aware scalar function rewriting
// ------------------------------------------------------------------

/// A dialect that rewrites the shapes `remap_scalar_fn` cannot express:
/// an argument reordering, a bare keyword with no parentheses, and a
/// rewrite that inspects the argument text.
fn rewrite(name: &str, args: &str) -> Option<String> {
    match name.to_ascii_uppercase().as_str() {
        // Argument syntax differs, not just the name.
        "LOCATE" => {
            let (needle, haystack) = args.split_once(',')?;
            Some(format!(
                "position({} IN {})",
                needle.trim(),
                haystack.trim()
            ))
        }
        // Zero-argument calls that must emit a bare keyword: the target
        // dialect rejects `current_date()`.
        "CURDATE" if args.is_empty() => Some("current_date".to_string()),
        "USERNAME" if args.is_empty() => Some("current_user".to_string()),
        // Proves the hook sees the whole argument text, not just a name.
        "ARGS" => Some(format!("<<{args}>>")),
        _ => None,
    }
}
fn rewriting_dialect() -> EscapeDialect<
    impl Fn(&str) -> Option<&'static str>,
    impl Fn(&str, &str) -> Option<String>,
    impl Fn(&str) -> String,
    impl Fn(&str) -> String,
    impl Fn(&str) -> String,
> {
    dialect().with_rewrite_scalar_fn(rewrite)
}
fn rtr(sql: &str) -> String {
    translate_escapes(sql, &rewriting_dialect()).unwrap()
}

#[test]
fn rewrite_scalar_fn_can_reorder_arguments() {
    // `remap_scalar_fn` only swaps the identifier in front of the parens,
    // so this rewrite was impossible to express before.
    assert_eq!(
        rtr("SELECT {fn LOCATE('b','ab')}"),
        "SELECT position('b' IN 'ab')"
    );
}

#[test]
fn rewrite_scalar_fn_can_emit_a_bare_keyword_for_a_zero_argument_call() {
    // No trailing "()" — the whole point: `current_date()` is a syntax
    // error in the dialects that need this.
    assert_eq!(rtr("SELECT {fn CURDATE()}"), "SELECT current_date");
    assert_eq!(rtr("SELECT {fn USERNAME()}"), "SELECT current_user");
}

#[test]
fn rewrite_scalar_fn_sees_arguments_with_nested_escapes_already_translated() {
    // The hook must run *after* the argument text is itself translated,
    // so a dialect never has to re-implement escape parsing.
    assert_eq!(
        rtr("SELECT {fn ARGS({ts '2020-01-01 00:00:00'})}"),
        "SELECT <<TIMESTAMP '2020-01-01 00:00:00'>>"
    );
    // Nested {fn} inside the arguments, including one that is itself
    // rewritten.
    assert_eq!(
        rtr("SELECT {fn ARGS({fn UCASE(a)}, {fn CURDATE()})}"),
        "SELECT <<upper(a), current_date>>"
    );
}

#[test]
fn rewrite_scalar_fn_argument_text_keeps_literals_intact() {
    // Core must not split on commas: this comma is inside a string, and
    // splitting there would corrupt the call. Argument splitting is the
    // dialect's problem, but only if core hands over honest text.
    assert_eq!(rtr("SELECT {fn ARGS(',')}"), "SELECT <<','>>");
    assert_eq!(
        rtr("SELECT {fn ARGS('a,b', \"c,d\", -- x,y\n e)}"),
        "SELECT <<'a,b', \"c,d\", -- x,y\n e>>"
    );
}

#[test]
fn rewrite_scalar_fn_argument_text_keeps_nested_parens_intact() {
    assert_eq!(
        rtr("SELECT {fn ARGS(foo(a,b), c)}"),
        "SELECT <<foo(a,b), c>>"
    );
}

#[test]
fn rewrite_scalar_fn_returning_none_falls_back_to_remap_scalar_fn() {
    // UCASE has no rewrite but does have a remap, so the cheap path still
    // applies and the arguments are passed through verbatim.
    assert_eq!(rtr("SELECT {fn UCASE(name)}"), "SELECT upper(name)");
    // Neither a rewrite nor a remap: name and arguments both untouched.
    assert_eq!(rtr("SELECT {fn WHATEVER(a, b)}"), "SELECT WHATEVER(a, b)");
}

#[test]
fn rewrite_scalar_fn_is_not_consulted_by_a_dialect_that_does_not_set_it() {
    // A dialect that sets only `remap_scalar_fn` passes an unrecognised
    // call straight through, name and arguments untouched. It must not
    // become an error just because the hook exists.
    assert_eq!(
        tr("SELECT {fn LOCATE('b','ab')}"),
        "SELECT LOCATE('b','ab')"
    );
    assert_eq!(tr("SELECT {fn CURDATE()}"), "SELECT CURDATE()");
}

#[test]
fn rewriting_dialect_preserves_the_existing_escape_errors() {
    let d = rewriting_dialect();
    // {call} and {?= call} stay HYC00 ...
    for sql in ["{call foo()}", "{?= call foo()}"] {
        let err = translate_escapes(sql, &d).unwrap_err();
        assert_eq!(
            err.sqlstate().as_str(),
            "HYC00",
            "{sql} must stay optional-feature-not-implemented"
        );
    }
    // ... and an unterminated escape stays 42000.
    let err = translate_escapes("SELECT {fn LOCATE('b','ab')", &d).unwrap_err();
    assert_eq!(err.sqlstate().as_str(), "42000");
}

// Nesting depth: a stack overflow could not be contained.

/// `{oj ...}` nests through the body of the escape.
fn nested_oj(depth: usize) -> String {
    format!("{}x{}", "{oj ".repeat(depth), "}".repeat(depth))
}

/// `{fn ...}` nests through the arguments of a call.
fn nested_fn(depth: usize) -> String {
    format!("{}x{}", "{fn UCASE(".repeat(depth), ")}".repeat(depth))
}

#[test]
fn nesting_within_the_depth_limit_still_translates() {
    // Real SQL nests escapes a handful deep at most; the limit must not be
    // so tight that ordinary queries hit it.
    let out = translate_escapes(&nested_oj(MAX_ESCAPE_DEPTH - 1), &dialect())
        .expect("nesting inside the limit must translate");
    assert!(out.contains('x'));
}

#[test]
fn nesting_within_the_depth_limit_is_linear_through_the_fn_argument_path() {
    // Exactly `MAX_ESCAPE_DEPTH`, the deepest input the limit accepts, and
    // it has to run to completion: the `+ 1` tests above fail on the first
    // descent, so they never reach the argument recursion. `dialect()`
    // declines every call, so every level here takes the declined path,
    // which is where a superlinear translation cost would show up.
    let out = translate_escapes(&nested_fn(MAX_ESCAPE_DEPTH), &dialect())
        .expect("the deepest accepted nesting must translate");
    assert!(out.contains('x'));
    // Every level is the declined path, so each contributes its remapped
    // name and its parentheses: `upper(` ... `)`.
    assert_eq!(out.matches("upper(").count(), MAX_ESCAPE_DEPTH);
}

#[test]
fn nesting_beyond_the_depth_limit_is_rejected_not_overflowed() {
    let err = translate_escapes(&nested_oj(MAX_ESCAPE_DEPTH + 1), &dialect()).unwrap_err();
    assert_eq!(err.sqlstate().as_str(), "42000");
}

#[test]
fn nesting_beyond_the_depth_limit_is_rejected_through_the_fn_argument_path() {
    let err = translate_escapes(&nested_fn(MAX_ESCAPE_DEPTH + 1), &dialect()).unwrap_err();
    assert_eq!(err.sqlstate().as_str(), "42000");
}

#[test]
fn pathological_nesting_returns_an_error_rather_than_killing_the_process() {
    // The depth that measurably aborted the process before the limit
    // existed. It must now come back as an ordinary error.
    let err = translate_escapes(&nested_oj(50_000), &dialect()).unwrap_err();
    assert_eq!(err.sqlstate().as_str(), "42000");
}

#[test]
fn plain_sql_unchanged() {
    assert_eq!(
        tr("SELECT a FROM t WHERE b = 1"),
        "SELECT a FROM t WHERE b = 1"
    );
}
#[test]
fn fn_remapped() {
    assert_eq!(tr("SELECT {fn UCASE(name)}"), "SELECT upper(name)");
}
#[test]
fn fn_unknown_passes_through() {
    assert_eq!(tr("{fn ABS(x)}"), "ABS(x)");
}
#[test]
fn fn_nested() {
    assert_eq!(tr("{fn CONCAT({fn UCASE(a)}, b)}"), "CONCAT(upper(a), b)");
}
#[test]
fn date_literal() {
    assert_eq!(tr("{d '2020-01-01'}"), "DATE '2020-01-01'");
}
#[test]
fn ts_literal() {
    assert_eq!(
        tr("{ts '2020-01-01 10:00:00'}"),
        "TIMESTAMP '2020-01-01 10:00:00'"
    );
}
#[test]
fn oj_strips_braces() {
    assert_eq!(
        tr("{oj a LEFT JOIN b ON a.id=b.id}"),
        "a LEFT JOIN b ON a.id=b.id"
    );
}
#[test]
fn escape_clause() {
    assert_eq!(tr("LIKE 'a%' {escape '\\'}"), "LIKE 'a%' ESCAPE '\\'");
}

// --- the critical negative cases: escapes inside strings/comments/identifiers are NOT rewritten ---
#[test]
fn fn_inside_string_literal_untouched() {
    assert_eq!(tr("SELECT '{fn UCASE(x)}'"), "SELECT '{fn UCASE(x)}'");
}
#[test]
fn doubled_quote_in_string() {
    assert_eq!(
        tr("SELECT 'it''s {fn UCASE(x)}'"),
        "SELECT 'it''s {fn UCASE(x)}'"
    );
}
#[test]
fn fn_inside_line_comment_untouched() {
    assert_eq!(
        tr("SELECT 1 -- {fn UCASE(x)}\nFROM t"),
        "SELECT 1 -- {fn UCASE(x)}\nFROM t"
    );
}
#[test]
fn fn_inside_block_comment_untouched() {
    assert_eq!(
        tr("/* {fn UCASE(x)} */ SELECT 1"),
        "/* {fn UCASE(x)} */ SELECT 1"
    );
}
#[test]
fn fn_inside_quoted_identifier_untouched() {
    assert_eq!(tr("SELECT \"{fn UCASE(x)}\""), "SELECT \"{fn UCASE(x)}\"");
}
#[test]
fn brace_in_string_not_a_delimiter() {
    assert_eq!(tr("SELECT '}' , {fn UCASE(a)}"), "SELECT '}' , upper(a)");
}

#[test]
fn call_rejected_hyc00() {
    let e = translate_escapes("{call foo()}", &dialect()).unwrap_err();
    assert_eq!(e.sqlstate().as_str(), "HYC00");
}
#[test]
fn return_call_rejected_hyc00() {
    let e = translate_escapes("{?= call foo()}", &dialect()).unwrap_err();
    assert_eq!(e.sqlstate().as_str(), "HYC00");
}
#[test]
fn return_call_no_space_rejected_hyc00() {
    let e = translate_escapes("{?=call foo()}", &dialect()).unwrap_err();
    assert_eq!(e.sqlstate().as_str(), "HYC00");
}
#[test]
fn empty_fn_copied_verbatim() {
    assert_eq!(tr("{fn }"), "{fn }");
}
#[test]
fn unterminated_escape_errors() {
    assert!(translate_escapes("SELECT {fn UCASE(a)", &dialect()).is_err());
}
#[test]
fn doubled_quote_in_identifier_then_fn_translated() {
    assert_eq!(
        tr("SELECT \"a\"\"b\", {fn UCASE(x)}"),
        "SELECT \"a\"\"b\", upper(x)"
    );
}
#[test]
fn bracket_identifier_copied_verbatim_no_doubling() {
    assert_eq!(tr("SELECT [a{fn x}b]"), "SELECT [a{fn x}b]");
}
#[test]
fn unrecognized_brace_left_intact() {
    assert_eq!(tr("SELECT {weird}"), "SELECT {weird}");
}
#[test]
fn ansi_default_double_quotes_and_no_remap() {
    let out = translate_escapes(
        "SELECT {fn UCASE(a)}, {d '2020-01-01'}",
        &EscapeDialect::ansi_default(),
    )
    .unwrap();
    assert_eq!(out, "SELECT UCASE(a), DATE '2020-01-01'");
}

#[test]
fn time_literal() {
    assert_eq!(tr("{t '10:00:00'}"), "TIME '10:00:00'");
}

#[test]
fn the_builders_keep_what_they_were_given() {
    let built = dialect();
    assert_eq!(built.identifier_quotes(), &[('"', '"'), ('[', ']')]);
    assert_eq!((built.remap_scalar_fn())("ucase"), Some("upper"));
    assert_eq!((built.rewrite_scalar_fn())("ucase", "x"), None);
    assert_eq!((built.render_date())("'1'"), "DATE '1'");
    assert_eq!((built.render_time())("'1'"), "TIME '1'");
    assert_eq!((built.render_timestamp())("'1'"), "TIMESTAMP '1'");
}

#[test]
fn malformed_escapes_are_errors_and_never_panics() {
    for sql in [
        "{", "}", "{}", "{fn", "{fn }", "{fn (", "{fn f(", "{fn f)}", "'", "\"", "--", "/*", "{d '}",
        "{?=", "{oj {oj }", "{fn f('}", "\u{1F600}{fn \u{1F600}(x)}", "/**", "{{{{", "}}}}", "(((",
        "{escape", "{ts", "[", "]", "{fn f(a{x ) } b)}",
    ] {
        let ansi = EscapeDialect::ansi_default();
        match translate_escapes(sql, &ansi) {
            Ok(_) => {}
            Err(e) => assert!(matches!(e.sqlstate().as_str(), "42000" | "HYC00"), "{sql}"),
        }
    }
}

#[test]
fn plain_text_is_unchanged() {
    for sql in ["", " ", "SELECT 1 FROM t", "abc XYZ 0189", "a) (b"] {
        let out = translate_escapes(sql, &EscapeDialect::ansi_default()).ok();
        assert_eq!(out.as_deref(), Some(sql));
    }
}

#[test]
fn comments_and_literals_that_do_not_end_are_copied() {
    assert_eq!(tr("SELECT 'abc {fn UCASE(x)}"), "SELECT 'abc {fn UCASE(x)}");
    assert_eq!(tr("SELECT 1 -- {d 'x'}"), "SELECT 1 -- {d 'x'}");
    assert_eq!(tr("SELECT 1 /* {d 'x'}"), "SELECT 1 /* {d 'x'}");
}

#[test]
fn a_later_builder_replaces_an_earlier_one() {
    let other = dialect().with_remap_scalar_fn(|_: &str| Some("g"));
    assert_eq!(
        translate_escapes("{fn UCASE(a)}", &other).ok().as_deref(),
        Some("g(a)")
    );
}

#[test]
fn a_declined_call_is_translated_as_if_it_had_not_been_offered() {
    let rest = " ( {d '2020-01-01'}, f(a, ')'), {fn LCASE(b)} ) {fn UCASE(c)} ";
    assert_eq!(
        rtr(&format!("{{fn UCASE{rest}}}")),
        format!("upper{}", rtr(rest))
    );
}

#[test]
fn braces_in_literals_quoted_names_and_comments_are_no_escapes() {
    let sql = "SELECT '{fn a''{b' AS \"{d x}\", [{t] -- {call p}\n, /* {ts */ 1";
    assert_eq!(tr(sql), sql);
}

#[test]
fn plain_text_in_front_of_a_text_is_kept_and_changes_nothing_else() {
    let front = "SELECT a, (b) } ";
    for rest in ["{fn UCASE(x)}", "'{' || {d '2020-01-01'}", "-- {fn\n"] {
        assert_eq!(tr(&format!("{front}{rest}")), format!("{front}{}", tr(rest)));
    }
    for rest in ["{fn UCASE(x)", "{call p}"] {
        let alone = translate_escapes(rest, &dialect()).unwrap_err();
        let behind = translate_escapes(&format!("{front}{rest}"), &dialect()).unwrap_err();
        assert_eq!(alone.to_string(), behind.to_string());
    }
}

#[test]
fn a_rule_is_asked_once_for_each_escape_and_may_answer_otherwise_each_time() {
    let asked = std::cell::Cell::new(0);
    let count = |x: &str| {
        asked.set(asked.get() + 1);
        format!("{}:{x}", asked.get())
    };
    let counting = EscapeDialect::ansi_default().with_datetime_renderers(&count, &count, &count);
    assert_eq!(
        translate_escapes("{d 'a'} {fn f({t 'b'}) {d 'a'}} {ts 'a'}", &counting).unwrap(),
        "1:'a' f(2:'b') 3:'a' 4:'a'"
    );
    assert_eq!(asked.get(), 4);
}
