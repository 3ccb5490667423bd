//! The placeholder scanner: SQL tokens and the whole-template mode decision.
//!
//! Tokenizing the SQL text is the job of an outside tokenizer; this module
//! only classifies the tokens it yields. A placeholder token's text starts
//! with the `$` marker; the template is positional exactly when every
//! placeholder's text after the marker is all ASCII digits.

use vstd::prelude::*;

use crate::text::{chars_of, digit_char, is_digit_char};

verus! {

/// One token of the SQL template: its source text, tagged as a placeholder
/// (`$1`, `$name`, ...; the text includes the marker) or plain text.
pub struct SqlToken {
    pub placeholder: bool,
    pub text: String,
}

impl View for SqlToken {
    type V = (bool, Seq<char>);

    open spec fn view(&self) -> (bool, Seq<char>) {
        (self.placeholder, self.text@)
    }
}

/// The views of a token vector, in order.
pub open spec fn toks_view(ts: Seq<SqlToken>) -> Seq<(bool, Seq<char>)> {
    ts.map_values(|t: SqlToken| t@)
}

/// The token sequence the SQL tokenizer yields for `s` — each token's text,
/// tagged as placeholder or not — or `None` where tokenization fails. The
/// tokenizer is deterministic, so this is a function of the text alone.
pub uninterp spec fn sql_tokens(s: Seq<char>) -> Option<Seq<(bool, Seq<char>)>>;

/// Splits the SQL text into tokens, tagging placeholder tokens; an `Err`
/// carries the tokenizer's message.
///
/// Relies on sqlparser's `Tokenizer::tokenize` under the PostgreSQL dialect:
/// `Token::Placeholder` carries the `$`-marked parameter text, and each
/// token's `Display` form is its SQL text.
#[verifier::external_body]
pub(crate) fn tokenize_sql(sql: &str) -> (r: Result<Vec<SqlToken>, String>)
    ensures
        match r {
            Ok(ts) => sql_tokens(sql@) == Some(toks_view(ts@)),
            Err(_) => sql_tokens(sql@) is None,
        },
{
    let dialect = sqlparser::dialect::PostgreSqlDialect {};
    let tokens = match sqlparser::tokenizer::Tokenizer::new(&dialect, sql).tokenize() {
        Ok(ts) => ts,
        Err(e) => return Err(e.to_string()),
    };
    Ok(tokens
        .into_iter()
        .map(|t| SqlToken {
            placeholder: matches!(t, sqlparser::tokenizer::Token::Placeholder(_)),
            text: t.to_string(),
        })
        .collect())
}

/// A placeholder counts as positional when everything after its `$` marker
/// is an ASCII digit (so a bare `$` is positional too).
pub open spec fn is_positional_ph(text: Seq<char>) -> bool {
    forall|k: int| 1 <= k < text.len() ==> is_digit_char(#[trigger] text[k])
}

/// The whole template is positional exactly when every placeholder is.
pub open spec fn tokens_positional(toks: Seq<(bool, Seq<char>)>) -> bool {
    forall|i: int| 0 <= i < toks.len() && (#[trigger] toks[i]).0 ==> is_positional_ph(toks[i].1)
}

/// Whether everything after the `$` marker of this placeholder text is an
/// ASCII digit.
pub fn placeholder_positional(text: &String) -> (r: bool)
    ensures
        r == is_positional_ph(text@),
{
    let cs = chars_of(text.as_str());
    let mut k: usize = 1;
    while k < cs.len()
        invariant
            1 <= k,
            cs@ == text@,
            forall|m: int| 1 <= m < k ==> is_digit_char(#[trigger] text@[m]),
        decreases cs@.len() - k,
    {
        if !digit_char(cs[k]) {
            return false;
        }
        k = k + 1;
    }
    true
}

/// Decides the template's mode: `true` for positional, `false` for named.
pub fn mode_positional(tokens: &Vec<SqlToken>) -> (r: bool)
    ensures
        r == tokens_positional(toks_view(tokens@)),
{
    let mut i: usize = 0;
    while i < tokens.len()
        invariant
            i <= tokens@.len(),
            forall|j: int|
                0 <= j < i && (#[trigger] toks_view(tokens@)[j]).0 ==> is_positional_ph(
                    toks_view(tokens@)[j].1,
                ),
        decreases tokens@.len() - i,
    {
        if tokens[i].placeholder {
            if !placeholder_positional(&tokens[i].text) {
                proof {
                    assert(toks_view(tokens@)[i as int].0);
                }
                return false;
            }
        }
        i = i + 1;
    }
    true
}

} // verus!
