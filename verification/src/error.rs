//! Errors raised while parsing the argument-binding language and while
//! resolving names against the template's placeholders.

use vstd::prelude::*;

verus! {

/// Ghost mirror of [`Error`], over sequences of characters.
pub enum ErrorV {
    /// The argument list (or the surrounding call) could not be parsed;
    /// carries the offending position in the input text.
    SyntaxError(int),
    /// The left side of a `name = expr` binding is not a plain identifier;
    /// carries the text of that left side.
    InvalidArgumentName(Seq<char>),
    /// A named template needs a name for every argument, but this argument
    /// has neither an explicit nor an inferred one; carries its value text.
    MissingArgumentName(Seq<char>),
    /// Two arguments resolved to the same name; carries that name.
    DuplicateArgumentName(Seq<char>),
    /// An argument carried an explicit name, but the template is positional;
    /// carries that name.
    NamedArgInPositionalQuery(Seq<char>),
    /// A named placeholder has no argument of that name; carries the name.
    UnknownArgument(Seq<char>),
    /// Declared arguments never referenced by any placeholder, in table
    /// (first-seen) order.
    UnusedArgument(Seq<Seq<char>>),
    /// The SQL text could not be tokenized; carries the tokenizer's message.
    TokenizeError,
}

/// One failure of template preprocessing. Syntax errors carry the position
/// (in characters) of the offending text; binding errors carry the names or
/// expressions involved.
#[derive(Debug, PartialEq, Eq)]
pub enum Error {
    SyntaxError(usize),
    InvalidArgumentName(String),
    MissingArgumentName(String),
    DuplicateArgumentName(String),
    NamedArgInPositionalQuery(String),
    UnknownArgument(String),
    UnusedArgument(Vec<String>),
    TokenizeError(String),
}

impl View for Error {
    type V = ErrorV;

    open spec fn view(&self) -> ErrorV {
        match self {
            Error::SyntaxError(p) => ErrorV::SyntaxError(*p as int),
            Error::InvalidArgumentName(s) => ErrorV::InvalidArgumentName(s@),
            Error::MissingArgumentName(s) => ErrorV::MissingArgumentName(s@),
            Error::DuplicateArgumentName(s) => ErrorV::DuplicateArgumentName(s@),
            Error::NamedArgInPositionalQuery(s) => ErrorV::NamedArgInPositionalQuery(s@),
            Error::UnknownArgument(s) => ErrorV::UnknownArgument(s@),
            Error::UnusedArgument(ns) => ErrorV::UnusedArgument(ns@.map_values(|n: String| n@)),
            Error::TokenizeError(_) => ErrorV::TokenizeError,
        }
    }
}

} // verus!

verus! {

/// The given names, joined by commas, in order.
pub open spec fn joined_from(names: Seq<Seq<char>>, i: int) -> Seq<char>
    decreases names.len() - i,
{
    if !(0 <= i < names.len()) {
        Seq::empty()
    } else if i == names.len() - 1 {
        names[i]
    } else {
        names[i] + seq![',', ' '] + joined_from(names, i + 1)
    }
}

/// The diagnostic text of an error.
pub open spec fn message_spec(e: ErrorV) -> Seq<char> {
    match e {
        ErrorV::SyntaxError(p) => "syntax error in query arguments at offset "@ + crate::resolve::dec_digits(p as nat),
        ErrorV::InvalidArgumentName(s) => "invalid arg name: "@ + s,
        ErrorV::MissingArgumentName(v) => "unnamed arg: "@ + v,
        ErrorV::DuplicateArgumentName(n) => "duplicate arg name: "@ + n,
        ErrorV::NamedArgInPositionalQuery(n) => "named arg: "@ + n,
        ErrorV::UnknownArgument(n) => "arg not given: "@ + n,
        ErrorV::UnusedArgument(ns) => "unused args: "@ + joined_from(ns, 0),
        ErrorV::TokenizeError => "failed to tokenize sql"@,
    }
}

impl Error {
    /// The diagnostic text of this error; for a tokenizer failure it carries
    /// the tokenizer's own message after the fixed prefix.
    pub fn message(&self) -> (r: String)
        ensures
            !(self@ is TokenizeError) ==> r@ == message_spec(self@),
    {
        match self {
            Error::SyntaxError(p) => {
                let mut s = "syntax error in query arguments at offset ".to_owned();
                let d = crate::resolve::usize_dec(*p);
                s.append(d.as_str());
                s
            },
            Error::InvalidArgumentName(t) => {
                let mut s = "invalid arg name: ".to_owned();
                s.append(t.as_str());
                s
            },
            Error::MissingArgumentName(v) => {
                let mut s = "unnamed arg: ".to_owned();
                s.append(v.as_str());
                s
            },
            Error::DuplicateArgumentName(n) => {
                let mut s = "duplicate arg name: ".to_owned();
                s.append(n.as_str());
                s
            },
            Error::NamedArgInPositionalQuery(n) => {
                let mut s = "named arg: ".to_owned();
                s.append(n.as_str());
                s
            },
            Error::UnknownArgument(n) => {
                let mut s = "arg not given: ".to_owned();
                s.append(n.as_str());
                s
            },
            Error::UnusedArgument(ns) => {
                let ghost nsv = ns@.map_values(|n: String| n@);
                let mut s = "unused args: ".to_owned();
                let ghost head = s@;
                let mut i: usize = 0;
                while i < ns.len()
                    invariant
                        i <= ns@.len(),
                        nsv == ns@.map_values(|n: String| n@),
                        head + joined_from(nsv, 0) == s@ + joined_from(nsv, i as int),
                    decreases ns@.len() - i,
                {
                    let ghost prev = s@;
                    s.append(ns[i].as_str());
                    if i + 1 < ns.len() {
                        s.append(", ");
                        proof {
                            reveal_strlit(", ");
                            assert(", "@ =~= seq![',', ' ']);
                            assert(s@ =~= prev + (nsv[i as int] + seq![',', ' ']));
                            assert(s@ + joined_from(nsv, i + 1) =~= prev + joined_from(
                                nsv,
                                i as int,
                            ));
                        }
                    } else {
                        proof {
                            assert(s@ + joined_from(nsv, i + 1) =~= prev + joined_from(
                                nsv,
                                i as int,
                            ));
                        }
                    }
                    i = i + 1;
                }
                proof {
                    assert(s@ =~= head + joined_from(nsv, 0));
                }
                s
            },
            Error::TokenizeError(m) => {
                let mut s = "failed to tokenize sql: ".to_owned();
                s.append(m.as_str());
                s
            },
        }
    }
}

} // verus!
