//! Parsing, naming, error and path-validation behavior, observed through
//! the public surface.

use sqlx_named::{check_relative_path, expand, Arg, ArgType, Error, QueryVariant};

fn parse(with_type: bool, input: &str) -> Result<sqlx_named::QueryInput, Error> {
    QueryVariant { file: false, as_type: with_type }.parse_query(input)
}

fn run(input: &str) -> Result<String, Error> {
    expand(parse(false, input)?, "query")
}

fn arg_name(a: &Arg) -> Option<&str> {
    match &a.typ {
        ArgType::Named(n) => Some(n.as_str()),
        ArgType::Unnamed(Some(n)) => Some(n.as_str()),
        ArgType::Unnamed(None) => None,
    }
}

#[test]
fn test_parse_bare_ident_infers_itself() {
    let q = parse(false, "\"select $id\", id").unwrap();
    assert_eq!(q.args.len(), 1);
    assert!(matches!(&q.args[0].typ, ArgType::Unnamed(Some(n)) if n == "id"));
    assert_eq!(q.args[0].val, "id");
}

#[test]
fn test_parse_cast_infers_inner_ident() {
    let q = parse(false, "\"select $1\", &id as i64").unwrap();
    assert!(matches!(&q.args[0].typ, ArgType::Unnamed(Some(n)) if n == "id"));
    assert_eq!(q.args[0].val, "&id as i64");
}

#[test]
fn test_parse_cast_of_deref_try_await() {
    let q = parse(false, "\"select $1, $2, $3\", *x as i64, y? as i64, z.await as i64").unwrap();
    assert!(matches!(&q.args[0].typ, ArgType::Unnamed(Some(n)) if n == "x"));
    assert!(matches!(&q.args[1].typ, ArgType::Unnamed(Some(n)) if n == "y"));
    assert!(matches!(&q.args[2].typ, ArgType::Unnamed(Some(n)) if n == "z"));
}

#[test]
fn test_parse_other_expressions_stay_unnamed() {
    let q = parse(false, "\"select $1, $2, $3\", a.b, f(x), 1 + 2").unwrap();
    assert!(q.args.iter().all(|a| arg_name(a).is_none()));
    assert_eq!(q.args[0].val, "a.b");
    assert_eq!(q.args[1].val, "f(x)");
    assert_eq!(q.args[2].val, "1 + 2");
}

#[test]
fn test_parse_none_as_option_infers_none() {
    // `None` is itself a bare path, so a cast of it infers the name "None"
    let q = parse(false, "\"select $1\", None as Option<&str>").unwrap();
    assert!(matches!(&q.args[0].typ, ArgType::Unnamed(Some(n)) if n == "None"));
}

#[test]
fn test_parse_equality_is_not_assignment() {
    let q = parse(false, "\"select $1\", a == b").unwrap();
    assert!(matches!(&q.args[0].typ, ArgType::Unnamed(None)));
    assert_eq!(q.args[0].val, "a == b");
}

#[test]
fn test_parse_comma_inside_call_does_not_split() {
    let q = parse(false, "\"select $1\", max(a, b)").unwrap();
    assert_eq!(q.args.len(), 1);
    assert_eq!(q.args[0].val, "max(a, b)");
}

#[test]
fn test_parse_comma_inside_string_does_not_split() {
    let q = parse(false, "\"select $1\", \"a, b\"").unwrap();
    assert_eq!(q.args.len(), 1);
    assert_eq!(q.args[0].val, "\"a, b\"");
}

#[test]
fn test_parse_type_prefix() {
    let q = parse(true, "Vec<(u8, String)>, \"select 1\"").unwrap();
    assert_eq!(q.as_type.as_deref(), Some("Vec<(u8, String)>"));
    assert_eq!(q.sql, "select 1");
    assert!(q.args.is_empty());
}

#[test]
fn test_parse_file_variant_keeps_path() {
    let variant = QueryVariant { file: true, as_type: false };
    let q = variant.parse_query("\"./tests/test-query-named.sql\", id = 1i32").unwrap();
    assert_eq!(q.sql, "./tests/test-query-named.sql");
    assert_eq!(q.args.len(), 1);
}

#[test]
fn test_parse_string_escapes() {
    let q = parse(false, "\"a\\\"b\\\\c\\n\"").unwrap();
    assert_eq!(q.sql, "a\"b\\c\n");
}

#[test]
fn test_unknown_argument() {
    let got = run("\"select $missing\"");
    assert_eq!(got, Err(Error::UnknownArgument("missing".to_string())));
}

#[test]
fn test_unknown_argument_beats_unused() {
    // the walk refuses the first unbound placeholder before the unused scan
    let got = run("\"select $missing, $a\", a = 1, extra = 5");
    assert_eq!(got, Err(Error::UnknownArgument("missing".to_string())));
}

#[test]
fn test_unused_argument() {
    let got = run("\"select $a\", a = 1, extra = 5");
    assert_eq!(got, Err(Error::UnusedArgument(vec!["extra".to_string()])));
}

#[test]
fn test_unused_arguments_all_reported_in_table_order() {
    let got = run("\"select $b\", a = 1, b = 2, c = 3");
    assert_eq!(
        got,
        Err(Error::UnusedArgument(vec!["a".to_string(), "c".to_string()]))
    );
}

#[test]
fn test_named_arg_in_positional_query() {
    let got = run("\"select $1\", id = 1");
    assert_eq!(got, Err(Error::NamedArgInPositionalQuery("id".to_string())));
}

#[test]
fn test_duplicate_argument_name() {
    let got = run("\"select $id\", id = 1, id = 2");
    assert_eq!(got, Err(Error::DuplicateArgumentName("id".to_string())));
}

#[test]
fn test_duplicate_detected_even_when_unreferenced() {
    // duplicate-name detection happens at insertion, before the placeholder
    // walk, so it fires even though no placeholder references the name
    let got = run("\"select $a\", a = 1, b = 2, b = 3");
    assert_eq!(got, Err(Error::DuplicateArgumentName("b".to_string())));
}

#[test]
fn test_duplicate_between_pun_and_assignment() {
    let got = run("\"select $id\", id, id = 2");
    assert_eq!(got, Err(Error::DuplicateArgumentName("id".to_string())));
}

#[test]
fn test_missing_argument_name() {
    let got = run("\"select $id\", 1 + 2");
    assert_eq!(got, Err(Error::MissingArgumentName("1 + 2".to_string())));
}

#[test]
fn test_invalid_argument_name() {
    let got = run("\"select $id\", a.b = 3");
    assert_eq!(got, Err(Error::InvalidArgumentName("a.b".to_string())));
}

#[test]
fn test_syntax_error_unterminated_literal() {
    let got = parse(false, "\"select 1");
    assert!(matches!(got, Err(Error::SyntaxError(0))));
}

#[test]
fn test_syntax_error_empty_argument() {
    let got = parse(false, "\"select 1\", ,");
    assert!(matches!(got, Err(Error::SyntaxError(_))));
}

#[test]
fn test_syntax_error_unclosed_splat() {
    let got = parse(false, "\"select 1\", ..rec{.a");
    assert!(matches!(got, Err(Error::SyntaxError(_))));
}

#[test]
fn test_mode_is_named_when_any_placeholder_is_named() {
    // one non-numeric placeholder forces named mode for the whole template
    let got = run("\"select $1, $id\", 5");
    assert_eq!(got, Err(Error::MissingArgumentName("5".to_string())));
}

#[test]
fn test_positional_passthrough_preserves_text() {
    // positional mode: the template text, whitespace, casing and quoted
    // literals included, comes through byte-for-byte
    let got = run("\"select 'a' = ANY('{a,b}') , $1\", 7").unwrap();
    assert_eq!(got, "::sqlx::query!(\"select 'a' = ANY('{a,b}') , $1\", 7)");
}

#[test]
fn test_error_messages() {
    assert_eq!(
        Error::UnknownArgument("missing".to_string()).message(),
        "arg not given: missing"
    );
    assert_eq!(
        Error::UnusedArgument(vec!["a".to_string(), "b".to_string()]).message(),
        "unused args: a, b"
    );
    assert_eq!(Error::NamedArgInPositionalQuery("id".to_string()).message(), "named arg: id");
    assert_eq!(Error::MissingArgumentName("5".to_string()).message(), "unnamed arg: 5");
    assert_eq!(
        Error::SyntaxError(12).message(),
        "syntax error in query arguments at offset 12"
    );
}

#[test]
fn test_compile_error_expr() {
    assert_eq!(
        sqlx_named::compile_error_expr("arg not given: \"x\""),
        "::core::compile_error!(\"arg not given: \\\"x\\\"\")"
    );
}

#[test]
fn test_path_accepted() {
    assert!(check_relative_path("./tests/test-query-no-args.sql").is_ok());
    assert!(check_relative_path("queries/accounts.sql").is_ok());
}

#[test]
fn test_path_absolute_rejected() {
    assert_eq!(
        check_relative_path("/etc/query.sql"),
        Err("absolute paths will only work on the current machine".to_string())
    );
}

#[test]
fn test_path_without_parent_rejected() {
    assert_eq!(
        check_relative_path("query.sql"),
        Err("paths relative to the current file's directory are not currently supported".to_string())
    );
    assert!(check_relative_path("").is_err());
    assert!(check_relative_path("dir/").is_err());
}
