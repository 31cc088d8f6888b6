use vstd::prelude::*;

verus! {

/// An error of the command line.
#[derive(PartialEq, Eq, Structural, Clone, Copy, Debug)]
pub enum CliError {
    /// A scaffold was asked for a language that has none.
    UnknownLanguage,
}

impl CliError {
    /// The message that reports the error.
    pub fn message(&self) -> (r: &'static str)
        ensures
            r@ == "unknown language"@,
    {
        "unknown language"
    }
}

} // verus!
