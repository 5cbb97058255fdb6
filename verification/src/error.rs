//! The failures that compiling a template or rendering it can report.

use crate::text::{decimal, from_chars, push_decimal, push_text, to_chars};
use vstd::prelude::*;
use vstd::string::StringExecFns;

verus! {

/// Why a template was refused or could not be rendered.
#[derive(Debug)]
pub enum Error {
    /// The template holds an unmatched brace, a reserved control character,
    /// or a placeholder with an escaped brace inside.
    InvalidFormat,
    /// A placeholder does not follow the grammar; holds the placeholder.
    InvalidSpec(String),
    /// A placeholder asks for a field of width zero; holds the placeholder.
    ZeroWidth(String),
    /// The arguments do not form a valid table.
    InvalidArguments,
    /// A positional argument was asked for that was not supplied; holds the
    /// index asked for and the number of arguments supplied.
    BadArgNumber(usize, usize),
    /// A named argument was asked for that was not supplied; holds the name.
    BadArgName(String),
    /// The call has the wrong shape.
    IncorrectNumberOfArgs,
}

/// The mathematical content of an [`Error`].
pub enum Failure {
    InvalidFormat,
    InvalidSpec(Seq<char>),
    ZeroWidth(Seq<char>),
    InvalidArguments,
    BadArgNumber(nat, nat),
    BadArgName(Seq<char>),
    IncorrectNumberOfArgs,
}

impl View for Error {
    type V = Failure;

    open spec fn view(&self) -> Failure {
        match self {
            Error::InvalidFormat => Failure::InvalidFormat,
            Error::InvalidSpec(t) => Failure::InvalidSpec(t@),
            Error::ZeroWidth(t) => Failure::ZeroWidth(t@),
            Error::InvalidArguments => Failure::InvalidArguments,
            Error::BadArgNumber(i, n) => Failure::BadArgNumber(*i as nat, *n as nat),
            Error::BadArgName(t) => Failure::BadArgName(t@),
            Error::IncorrectNumberOfArgs => Failure::IncorrectNumberOfArgs,
        }
    }
}

/// The text that describes a failure.
pub open spec fn failure_text(f: Failure) -> Seq<char> {
    match f {
        Failure::InvalidFormat => "Invalid format"@,
        Failure::InvalidSpec(t) => "Invalid format specifier: "@ + t,
        Failure::ZeroWidth(t) => "Format specifier is zero width: "@ + t,
        Failure::InvalidArguments => "Invalid arguments"@,
        Failure::BadArgNumber(i, n) => "Invalid argument number: Arg number "@ + decimal(i + 1)
            + " was requested, but only "@ + decimal(n) + " args were provided"@,
        Failure::BadArgName(t) => "Invalid argument name: "@ + t,
        Failure::IncorrectNumberOfArgs => "Incorrect number of arguments"@,
    }
}

impl Error {
    /// The failure for a positional argument that was not supplied.
    pub fn bad_arg_num(requested_index: usize, arg_count: usize) -> (e: Error)
        ensures
            e@ == Failure::BadArgNumber(requested_index as nat, arg_count as nat),
    {
        Error::BadArgNumber(requested_index, arg_count)
    }

    /// The failure for a named argument that was not supplied.
    pub fn bad_arg_name(name: &str) -> (e: Error)
        ensures
            e@ == Failure::BadArgName(name@),
    {
        Error::BadArgName(String::from_str(name))
    }

    /// The failure for a placeholder that does not follow the grammar.
    pub fn bad_spec(spec: &str) -> (e: Error)
        ensures
            e@ == Failure::InvalidSpec(spec@),
    {
        Error::InvalidSpec(String::from_str(spec))
    }

    /// The failure for a placeholder that asks for width zero.
    pub fn zero_width(spec: &str) -> (e: Error)
        ensures
            e@ == Failure::ZeroWidth(spec@),
    {
        Error::ZeroWidth(String::from_str(spec))
    }

    /// A sentence that describes the failure.
    pub fn message(&self) -> (s: String)
        ensures
            s@ == failure_text(self@),
    {
        match self {
            Error::InvalidFormat => String::from_str("Invalid format"),
            Error::InvalidSpec(t) => String::from_str("Invalid format specifier: ").concat(
                t.as_str(),
            ),
            Error::ZeroWidth(t) => String::from_str("Format specifier is zero width: ").concat(
                t.as_str(),
            ),
            Error::InvalidArguments => String::from_str("Invalid arguments"),
            Error::BadArgNumber(i, n) => {
                let mut text: Vec<char> = to_chars("Invalid argument number: Arg number ");
                push_decimal(&mut text, (*i as u128) + 1);
                push_text(&mut text, " was requested, but only ");
                push_decimal(&mut text, *n as u128);
                push_text(&mut text, " args were provided");
                from_chars(text.as_slice())
            },
            Error::BadArgName(t) => String::from_str("Invalid argument name: ").concat(
                t.as_str(),
            ),
            Error::IncorrectNumberOfArgs => String::from_str("Incorrect number of arguments"),
        }
    }
}

} // verus!
