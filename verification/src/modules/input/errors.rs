use vstd::prelude::*;

verus! {

/// Why a command line could not be parsed.
#[derive(Debug, Clone, Copy, PartialEq, Eq, Structural)]
pub enum CliError {
    /// A command of a pipeline has no words at all.
    EmptyCommand,
    /// A single or double quote is not closed.
    UnclosedQuote,
    /// A `${` substitution is not a variable name closed by `}`.
    BadSubstitution,
}

/// The result type of command-line parsing.
pub type Result<T> = core::result::Result<T, CliError>;

impl CliError {
    /// The text that describes the error to a user.
    pub fn describe(&self) -> (s: String)
        ensures
            s@ == self.spec_describe(),
    {
        match self {
            CliError::EmptyCommand => {
                proof { reveal_strlit("empty command"); }
                String::from_str("empty command")
            },
            CliError::UnclosedQuote => {
                proof { reveal_strlit("unclosed quote"); }
                String::from_str("unclosed quote")
            },
            CliError::BadSubstitution => {
                proof { reveal_strlit("bad substitution"); }
                String::from_str("bad substitution")
            },
        }
    }

    /// The description of each error.
    pub open spec fn spec_describe(&self) -> Seq<char> {
        match self {
            CliError::EmptyCommand => "empty command"@,
            CliError::UnclosedQuote => "unclosed quote"@,
            CliError::BadSubstitution => "bad substitution"@,
        }
    }
}

} // verus!
