//! End-to-end expansion: parse an invocation, tokenize and resolve the
//! template, and check the emitted delegate call text.

use sqlx_named::{expand, Error, QueryVariant};

fn run(out_name: &str, with_type: bool, input: &str) -> Result<String, Error> {
    let variant = QueryVariant { file: false, as_type: with_type };
    let parsed = variant.parse_query(input)?;
    expand(parsed, out_name)
}

#[test]
fn test_query_no_args() {
    let got = run(
        "query",
        false,
        "\"SELECT * from (VALUES (1, 'Herp Derpinson')) accounts(id, name) where id = 1\"",
    )
    .unwrap();
    assert_eq!(
        got,
        "::sqlx::query!(\"SELECT * from (VALUES (1, 'Herp Derpinson')) accounts(id, name) where id = 1\")"
    );
}

#[test]
fn test_query_unnamed() {
    let got = run(
        "query",
        false,
        "\"SELECT * from (VALUES (1, 'Herp Derpinson')) accounts(id, name) where id = $1\", 1i32,",
    )
    .unwrap();
    assert_eq!(
        got,
        "::sqlx::query!(\"SELECT * from (VALUES (1, 'Herp Derpinson')) accounts(id, name) where id = $1\", 1i32)"
    );
}

#[test]
fn test_query_unnamed_ident() {
    let got = run(
        "query",
        false,
        "\"SELECT * from (VALUES (1, 'Herp Derpinson')) accounts(id, name) where id = $1\", id,",
    )
    .unwrap();
    assert_eq!(
        got,
        "::sqlx::query!(\"SELECT * from (VALUES (1, 'Herp Derpinson')) accounts(id, name) where id = $1\", id)"
    );
}

#[test]
fn test_query_unnamed_cast() {
    let got = run(
        "query",
        false,
        "\"SELECT * from (VALUES (1, 'Herp Derpinson')) accounts(id, name) where id = $1\", 1 as i32,",
    )
    .unwrap();
    assert_eq!(
        got,
        "::sqlx::query!(\"SELECT * from (VALUES (1, 'Herp Derpinson')) accounts(id, name) where id = $1\", 1 as i32)"
    );
}

#[test]
fn test_query_named() {
    let got = run(
        "query",
        false,
        "\"SELECT * from (VALUES (1, 'Herp Derpinson')) accounts(id, name) where id = $id\", id = 1i32,",
    )
    .unwrap();
    assert_eq!(
        got,
        "::sqlx::query!(\"SELECT * from (VALUES (1, 'Herp Derpinson')) accounts(id, name) where id = $1\", 1i32)"
    );
}

#[test]
fn test_query_named_cast() {
    let got = run(
        "query",
        false,
        "\"SELECT * from (VALUES (1, 'Herp Derpinson')) accounts(id, name) where id = $id\", id = 1 as i32,",
    )
    .unwrap();
    assert_eq!(
        got,
        "::sqlx::query!(\"SELECT * from (VALUES (1, 'Herp Derpinson')) accounts(id, name) where id = $1\", 1 as i32)"
    );
}

#[test]
fn test_query_named_pun() {
    let got = run(
        "query",
        false,
        "\"SELECT * from (VALUES (1, 'Herp Derpinson')) accounts(id, name) where id = $id\", id,",
    )
    .unwrap();
    assert_eq!(
        got,
        "::sqlx::query!(\"SELECT * from (VALUES (1, 'Herp Derpinson')) accounts(id, name) where id = $1\", id)"
    );
}

#[test]
fn test_query_named_pun_cast() {
    let got = run(
        "query",
        false,
        "\"SELECT * from (VALUES (1, 'Herp Derpinson')) accounts(id, name) where id = $id\", id as i32,",
    )
    .unwrap();
    assert_eq!(
        got,
        "::sqlx::query!(\"SELECT * from (VALUES (1, 'Herp Derpinson')) accounts(id, name) where id = $1\", id as i32)"
    );
}

#[test]
fn test_query_as_named() {
    let input = r###"Account, r#"SELECT id "id!", name from (VALUES (1, $name)) accounts(id, name)"#, name = None as Option<&str>"###;
    let got = run("query_as", true, input).unwrap();
    assert_eq!(
        got,
        "::sqlx::query_as!(Account, \"SELECT id \\\"id!\\\", name from (VALUES (1, $1)) accounts(id, name)\", None as Option<&str>)"
    );
}

#[test]
fn test_query_as_named_pun() {
    let input = r###"Account, r#"SELECT id "id!", name from (VALUES (1, $name)) accounts(id, name)"#, name"###;
    let got = run("query_as", true, input).unwrap();
    assert_eq!(
        got,
        "::sqlx::query_as!(Account, \"SELECT id \\\"id!\\\", name from (VALUES (1, $1)) accounts(id, name)\", name)"
    );
}

#[test]
fn test_query_as_unnamed() {
    let input = r###"Account, r#"SELECT id "id!", name from (VALUES (1, $1)) accounts(id, name)"#, None as Option<&str>,"###;
    let got = run("query_as", true, input).unwrap();
    assert_eq!(
        got,
        "::sqlx::query_as!(Account, \"SELECT id \\\"id!\\\", name from (VALUES (1, $1)) accounts(id, name)\", None as Option<&str>)"
    );
}

#[test]
fn test_query_scalar_no_args() {
    let got = run("query_scalar", false, "\"select 1\"").unwrap();
    assert_eq!(got, "::sqlx::query_scalar!(\"select 1\")");
}

#[test]
fn test_query_scalar_unnamed() {
    let got = run("query_scalar", false, "\"select $1::int\", 1i32").unwrap();
    assert_eq!(got, "::sqlx::query_scalar!(\"select $1::int\", 1i32)");
}

#[test]
fn test_query_scalar_named() {
    let got = run("query_scalar", false, "\"select $id::int\", id = 1i32").unwrap();
    assert_eq!(got, "::sqlx::query_scalar!(\"select $1::int\", 1i32)");
}

#[test]
fn test_query_scalar_named_pun_cast() {
    let got = run("query_scalar", false, "\"select $id::int\", id as i32").unwrap();
    assert_eq!(got, "::sqlx::query_scalar!(\"select $1::int\", id as i32)");
}

#[test]
fn test_query_many_args_unnamed() {
    let got = run(
        "query",
        false,
        "\"SELECT * from unnest(array[$1, $2, $3, $4, $5, $6, $7, $8, $9, $10, $11, $12]::int[]) ids(id)\", 0,1,2,3,4,5,6,7,8,9,10,11",
    )
    .unwrap();
    assert_eq!(
        got,
        "::sqlx::query!(\"SELECT * from unnest(array[$1, $2, $3, $4, $5, $6, $7, $8, $9, $10, $11, $12]::int[]) ids(id)\", 0, 1, 2, 3, 4, 5, 6, 7, 8, 9, 10, 11)"
    );
}

#[test]
fn test_query_many_args_named() {
    let got = run(
        "query",
        false,
        "\"SELECT * from unnest(array[$one, $two, $three, $four, $five, $six, $seven, $eight, $nine, $ten, $eleven, $twelve]::int[]) ids(id)\", one = 0, two, three = 2, four = 3, five = 4, six = 5, seven, eight = 7, nine = 8, ten = 9, eleven = 10, twelve = 11,",
    )
    .unwrap();
    assert_eq!(
        got,
        "::sqlx::query!(\"SELECT * from unnest(array[$1, $2, $3, $4, $5, $6, $7, $8, $9, $10, $11, $12]::int[]) ids(id)\", 0, two, 2, 3, 4, 5, seven, 7, 8, 9, 10, 11)"
    );
}

#[test]
fn test_query_many_args_named_scrambled() {
    // the same twelve names, declared in scrambled order, mixing plain
    // idents, explicit bindings, and puns: every placeholder is rewritten
    // to its binding's table position, and no declared name is unused
    let got = run(
        "query",
        false,
        "\"SELECT * from unnest(array[$one, $two, $three, $four, $five, $six, $seven, $eight, $nine, $ten, $eleven, $twelve]::int[]) ids(id)\", twelve = 11, seven, two, one = 0, three = 2, four = 3, five = 4, six = 5, eight = 7, nine = 8, ten = 9, eleven = 10,",
    )
    .unwrap();
    assert_eq!(
        got,
        "::sqlx::query!(\"SELECT * from unnest(array[$4, $3, $5, $6, $7, $8, $2, $9, $10, $11, $12, $1]::int[]) ids(id)\", 11, seven, two, 0, 2, 3, 4, 5, 7, 8, 9, 10)"
    );
}

#[test]
fn test_named_value_invariant_under_reorder() {
    // the value bound to each placeholder name does not depend on the
    // declaration order: $b takes "2" either way, $a takes "1"
    let forward = run("query", false, "\"select $a, $b\", a = 1, b = 2").unwrap();
    let backward = run("query", false, "\"select $a, $b\", b = 2, a = 1").unwrap();
    assert_eq!(forward, "::sqlx::query!(\"select $1, $2\", 1, 2)");
    assert_eq!(backward, "::sqlx::query!(\"select $2, $1\", 2, 1)");
}

#[test]
fn test_query_unnamed_override_exact() {
    let got = run(
        "query",
        false,
        "\"select * from (select 1::int4) records(id) where id = $1\", my_int as MyInt4,",
    )
    .unwrap();
    assert_eq!(
        got,
        "::sqlx::query!(\"select * from (select 1::int4) records(id) where id = $1\", my_int as MyInt4)"
    );
    let got = run("query", false, "\"select $1::int8 as id\", 1i32 as i64").unwrap();
    assert_eq!(got, "::sqlx::query!(\"select $1::int8 as id\", 1i32 as i64)");
    let got = run(
        "query",
        false,
        "\"select * from (select 1::int4) records(id) where id = $1\", my_opt_int as Option<MyInt4>,",
    )
    .unwrap();
    assert_eq!(
        got,
        "::sqlx::query!(\"select * from (select 1::int4) records(id) where id = $1\", my_opt_int as Option<MyInt4>)"
    );
}

#[test]
fn test_query_named_override_exact() {
    let got = run(
        "query",
        false,
        "\"select * from (select 1::int4) records(id) where id = $id\", id = my_int as MyInt4,",
    )
    .unwrap();
    assert_eq!(
        got,
        "::sqlx::query!(\"select * from (select 1::int4) records(id) where id = $1\", my_int as MyInt4)"
    );
    let got = run("query", false, "\"select $id::int8 as id\", id as i64").unwrap();
    assert_eq!(got, "::sqlx::query!(\"select $1::int8 as id\", id as i64)");
}

#[test]
fn test_query_unnamed_override_wildcard() {
    let got = run(
        "query",
        false,
        "\"select * from (select 1::int4) records(id) where id = $1\", my_int as _,",
    )
    .unwrap();
    assert_eq!(
        got,
        "::sqlx::query!(\"select * from (select 1::int4) records(id) where id = $1\", my_int as _)"
    );
}

#[test]
fn test_query_named_override_wildcard() {
    let got = run(
        "query",
        false,
        "\"select * from (select 1::int4) records(id) where id = $id\", id = my_int as _,",
    )
    .unwrap();
    assert_eq!(
        got,
        "::sqlx::query!(\"select * from (select 1::int4) records(id) where id = $1\", my_int as _)"
    );
    let got = run(
        "query",
        false,
        "\"select * from (select 1::int4) records(id) where id = $id\", id as _,",
    )
    .unwrap();
    assert_eq!(
        got,
        "::sqlx::query!(\"select * from (select 1::int4) records(id) where id = $1\", id as _)"
    );
}

#[test]
fn test_splat_expansion() {
    // a splat expands into one bound argument per child, in source order:
    // {name: "id", value: account.id}, {name: "renamed", value: account.name}
    let got = run(
        "query",
        false,
        "\"select $id, $renamed\", ..account{.id, renamed = .name}",
    )
    .unwrap();
    assert_eq!(got, "::sqlx::query!(\"select $1, $2\", account.id, account.name)");
}

#[test]
fn test_splat_positional_tuple() {
    let got = run("query", false, "\"select $1, $2\", ..tup{.0, .1}").unwrap();
    assert_eq!(got, "::sqlx::query!(\"select $1, $2\", tup.0, tup.1)");
}

#[test]
fn test_splat_method_and_cast() {
    let got = run(
        "query",
        false,
        "\"select $len, $tag\", ..rec{len = .name.len() as i64, tag = .kind}",
    )
    .unwrap();
    assert_eq!(
        got,
        "::sqlx::query!(\"select $1, $2\", rec.name.len() as i64, rec.kind)"
    );
}

#[test]
fn test_splat_mixed_with_singles() {
    let got = run(
        "query",
        false,
        "\"select $a, $b, $c\", a = 1, ..rec{.b}, c = 3",
    )
    .unwrap();
    assert_eq!(got, "::sqlx::query!(\"select $1, $2, $3\", 1, rec.b, 3)");
}

#[test]
fn test_repeated_placeholder_counts_as_used() {
    let got = run("query", false, "\"select $a, $a\", a = 7").unwrap();
    assert_eq!(got, "::sqlx::query!(\"select $1, $1\", 7)");
}

#[test]
fn test_splat_reexpansion_deterministic() {
    let input = "\"select $id, $renamed\", ..account{.id, renamed = .name}";
    let first = run("query", false, input).unwrap();
    let second = run("query", false, input).unwrap();
    assert_eq!(first, second);
    assert_eq!(first, "::sqlx::query!(\"select $1, $2\", account.id, account.name)");
}

#[test]
fn test_tokenize_failure_is_reported() {
    let got = run("query", false, "\"select 'unterminated\"");
    match got {
        Err(Error::TokenizeError(_)) => {},
        other => panic!("expected a tokenizer failure, got {:?}", other),
    }
}

#[test]
fn test_splat_bracket_body() {
    // the splat body may be bracketed instead of braced
    let got = run("query", false, "\"select $id\", ..account[.id]").unwrap();
    assert_eq!(got, "::sqlx::query!(\"select $1\", account.id)");
}
