use crate::dictionary::{ops, Cell, Op};
use vstd::prelude::*;
use vstd::string::StringExecFns;

verus! {

/// Everything that can go wrong in the machine.
#[derive(Debug, PartialEq)]
pub enum Error {
    /// The compiler stopped at a token it could not consume; the cells
    /// emitted so far come with it.
    Compiler(Vec<Cell>, String),
    /// A routine that cannot go on: the steps ran out, or a branch found
    /// something other than an integer as its offset.
    Executor,
    /// An unknown token, or a comment or string literal without an end.
    Parser(String),
    /// A pop or a peek found too few values.
    Stack,
    /// A value of the wrong kind. No word of the machine raises it:
    /// arithmetic on the wrong kind of value yields the text `NAN`.
    Type,
    /// A name that the dictionary does not know.
    Unimplemented(String),
}

/// The mathematical content of an [`Error`].
pub enum Fault {
    Compiler(Seq<Op>, Seq<char>),
    Executor,
    Parser(Seq<char>),
    Stack,
    Type,
    Unimplemented(Seq<char>),
}

impl View for Error {
    type V = Fault;

    open spec fn view(&self) -> Fault {
        match self {
            Error::Compiler(cells, token) => Fault::Compiler(ops(cells@), token@),
            Error::Executor => Fault::Executor,
            Error::Parser(token) => Fault::Parser(token@),
            Error::Stack => Fault::Stack,
            Error::Type => Fault::Type,
            Error::Unimplemented(name) => Fault::Unimplemented(name@),
        }
    }
}

/// A text between double quotes.
pub open spec fn quoted(s: Seq<char>) -> Seq<char> {
    seq!['"'] + s + seq!['"']
}

/// The line that describes a fault: its kind, and the token or name that it
/// carries, quoted and in parentheses.
pub open spec fn fault_text(f: Fault) -> Seq<char> {
    match f {
        Fault::Compiler(_, token) => "Compiler("@ + quoted(token) + ")"@,
        Fault::Executor => "Executor"@,
        Fault::Parser(token) => "Parser("@ + quoted(token) + ")"@,
        Fault::Stack => "Stack"@,
        Fault::Type => "Type"@,
        Fault::Unimplemented(name) => "Unimplemented("@ + quoted(name) + ")"@,
    }
}

/// `kind`, then the quoted `detail` in parentheses.
fn labelled(kind: &str, detail: &str) -> (r: String)
    ensures
        r@ == kind@ + quoted(detail@) + ")"@,
{
    proof {
        reveal_strlit("\"");
    }
    let mut out = String::from_str(kind);
    out.append("\"");
    out.append(detail);
    out.append("\"");
    out.append(")");
    assert(out@ =~= kind@ + quoted(detail@) + ")"@);
    out
}

impl Error {
    /// The line that describes the error.
    pub fn to_string(&self) -> (r: String)
        ensures
            r@ == fault_text(self@),
    {
        match self {
            Error::Compiler(_, token) => labelled("Compiler(", token.as_str()),
            Error::Executor => String::from_str("Executor"),
            Error::Parser(token) => labelled("Parser(", token.as_str()),
            Error::Stack => String::from_str("Stack"),
            Error::Type => String::from_str("Type"),
            Error::Unimplemented(name) => labelled("Unimplemented(", name.as_str()),
        }
    }
}

} // verus!
