//! Why a macro produced no expansion, with the message that it reports.
use vstd::prelude::*;

verus! {

/// Why a macro produced no expansion.
#[derive(Clone, Copy, Debug, PartialEq, Eq, Structural)]
pub enum MacroError {
    /// The tokens do not parse as the macro's input: `syn` would report an
    /// error.
    Syntax,
    /// A comprehension without a `for` clause, on which the expansion panics
    /// ("must contain at least one for_if").
    MissingForClause,
    /// The argument of a `set!` starts with neither `mut`, `py` nor an
    /// identifier ("not a set").
    NotASet,
}

/// The message reported for each error. `syn`'s own messages are not kept:
/// a syntax error reports a message of its own.
pub open spec fn error_message(e: MacroError) -> Seq<char> {
    match e {
        MacroError::Syntax => "unexpected input"@,
        MacroError::MissingForClause => "must contain at least one for_if"@,
        MacroError::NotASet => "not a set"@,
    }
}

impl MacroError {
    /// The message reported for the error.
    pub fn message(&self) -> (s: &'static str)
        ensures
            s@ == error_message(*self),
    {
        match self {
            MacroError::Syntax => "unexpected input",
            MacroError::MissingForClause => "must contain at least one for_if",
            MacroError::NotASet => "not a set",
        }
    }
}

} // verus!
