//! The query emitter: assembles the rewritten template, the ordered values
//! and the optional target type into a call to the delegate query macro, as
//! source text.

use vstd::prelude::*;

use crate::error::{Error, ErrorV};
use crate::parse::{QueryInput, QueryInputV};
use crate::resolve::{resolve, resolve_spec};
use crate::text::{escape_string_literal, escaped, push_char};
use crate::tokens::{sql_tokens, tokenize_sql, toks_view};

verus! {

/// `, value` for each remaining value expression, in order.
pub open spec fn emitted_args_from(vals: Seq<Seq<char>>, i: int) -> Seq<char>
    decreases vals.len() - i,
{
    if !(0 <= i < vals.len()) {
        Seq::empty()
    } else {
        seq![',', ' '] + vals[i] + emitted_args_from(vals, i + 1)
    }
}

/// The emitted call text:
/// `::sqlx::<name>!(` optional `Type, `, the template as a quoted string
/// literal, `, value` for each bound value, and `)`.
pub open spec fn emitted_call(
    out_name: Seq<char>,
    as_type: Option<Seq<char>>,
    sql: Seq<char>,
    vals: Seq<Seq<char>>,
) -> Seq<char> {
    "::sqlx::"@ + out_name + "!("@ + (match as_type {
        Some(t) => t + seq![',', ' '],
        None => Seq::empty(),
    }) + seq!['"'] + escaped(sql) + seq!['"'] + emitted_args_from(vals, 0) + seq![')']
}

/// Writes the delegate call for the given macro name, target type, final
/// SQL text and ordered value expressions.
pub fn emit_call(out_name: &str, as_type: &Option<String>, sql: &str, vals: &Vec<String>) -> (r:
    String)
    ensures
        r@ == emitted_call(
            out_name@,
            match as_type {
                Some(t) => Some(t@),
                None => None,
            },
            sql@,
            vals@.map_values(|v: String| v@),
        ),
{
    let ghost valsv = vals@.map_values(|v: String| v@);
    let mut out = String::new();
    out.append("::sqlx::");
    out.append(out_name);
    out.append("!(");
    let ghost head0 = "::sqlx::"@ + out_name@ + "!("@;
    proof {
        assert(out@ =~= head0);
    }
    match as_type {
        Some(t) => {
            out.append(t.as_str());
            out.append(", ");
            proof {
                reveal_strlit(", ");
                assert(", "@ =~= seq![',', ' ']);
                assert(out@ =~= head0 + (t@ + seq![',', ' ']));
            }
        },
        None => {
            proof {
                assert(out@ =~= head0 + Seq::<char>::empty());
            }
        },
    }
    let ghost head1 = out@;
    push_char(&mut out, '"');
    let esc = escape_string_literal(sql);
    out.append(esc.as_str());
    push_char(&mut out, '"');
    let ghost head2 = out@;
    proof {
        assert(head2 =~= head1 + seq!['"'] + escaped(sql@) + seq!['"']);
    }
    let mut i: usize = 0;
    while i < vals.len()
        invariant
            i <= vals@.len(),
            valsv == vals@.map_values(|v: String| v@),
            head2 + emitted_args_from(valsv, 0) == out@ + emitted_args_from(valsv, i as int),
        decreases vals@.len() - i,
    {
        let ghost prev = out@;
        out.append(", ");
        out.append(vals[i].as_str());
        proof {
            reveal_strlit(", ");
            assert(", "@ =~= seq![',', ' ']);
            assert(out@ =~= prev + (seq![',', ' '] + valsv[i as int]));
            assert(out@ + emitted_args_from(valsv, i + 1) =~= prev + emitted_args_from(
                valsv,
                i as int,
            ));
        }
        i = i + 1;
    }
    proof {
        assert(out@ =~= head2 + emitted_args_from(valsv, 0));
    }
    push_char(&mut out, ')');
    proof {
        assert(out@ =~= emitted_call(
            out_name@,
            match as_type {
                Some(t) => Some(t@),
                None => None,
            },
            sql@,
            valsv,
        ));
    }
    out
}

/// What expanding one parsed invocation yields: the template tokenized, the
/// bindings resolved, and the delegate call emitted — or the first error on
/// that road.
pub open spec fn expand_spec(input: QueryInputV, out_name: Seq<char>) -> Result<Seq<char>, ErrorV> {
    match sql_tokens(input.sql) {
        None => Err(ErrorV::TokenizeError),
        Some(toks) => match resolve_spec(input.sql, toks, input.args) {
            Ok(p) => Ok(emitted_call(out_name, input.as_type, p.0, p.1)),
            Err(e) => Err(e),
        },
    }
}

/// Expands one parsed invocation into the delegate call for the macro named
/// `out_name`: tokenizes the template, resolves the bindings, and emits the
/// call text.
pub fn expand(input: QueryInput, out_name: &str) -> (r: Result<String, Error>)
    ensures
        match r {
            Ok(text) => expand_spec(input@, out_name@) == Ok::<Seq<char>, ErrorV>(text@),
            Err(e) => expand_spec(input@, out_name@) == Err::<Seq<char>, ErrorV>(e@),
        },
{
    let QueryInput { as_type, sql, args } = input;
    let toks = match tokenize_sql(sql.as_str()) {
        Ok(ts) => ts,
        Err(msg) => {
            return Err(Error::TokenizeError(msg));
        },
    };
    match resolve(sql, &toks, &args) {
        Ok((out_sql, vals)) => Ok(emit_call(out_name, &as_type, out_sql.as_str(), &vals)),
        Err(e) => Err(e),
    }
}

/// Writes a compile-error expression carrying the diagnostic, for the
/// emitted source to surface at build time.
pub fn compile_error_expr(msg: &str) -> (r: String)
    ensures
        r@ == "::core::compile_error!(\""@ + escaped(msg@) + "\")"@,
{
    let mut out = String::new();
    out.append("::core::compile_error!(\"");
    let esc = escape_string_literal(msg);
    out.append(esc.as_str());
    out.append("\")");
    out
}

} // verus!
