//! Build-time preprocessor for parameterized SQL query templates.
//!
//! The engine extends the positional-parameter scheme (`$1`, `$2`, ...) with
//! named placeholders (`$name`) and an argument-binding expression language:
//! arguments may be supplied positionally, by explicit name (`name = expr`),
//! by inferred name (a bare identifier, or the inner identifier of a cast),
//! or by destructuring a parent value (`..parent{.field, rename = .field}`).
//! The template is rewritten into canonical positional form together with an
//! ordered list of bound value expressions, and the result is assembled into
//! a call to the delegate query macro, as source text.
//!
//! The pipeline: [`QueryVariant::parse_query`] parses one invocation into a
//! [`QueryInput`]; for a file variant the caller checks the path with
//! [`util::check_relative_path`], reads the template, and puts its content
//! in place of the path; [`emit::expand`] then tokenizes the template,
//! resolves the bindings and emits the delegate call.

pub mod emit;
pub mod error;
pub mod laws;
pub mod parse;
pub mod resolve;
pub mod table;
pub mod text;
pub mod tokens;
pub mod util;

pub use emit::{compile_error_expr, expand};
pub use error::Error;
pub use parse::{Arg, ArgType, QueryInput, QueryVariant, RawArg, RawChild};
pub use util::check_relative_path;
