//! The error that every refused command reports.
use vstd::prelude::*;
use vstd::string::*;

verus! {

/// A refusal, carrying the message that the command line prints.
#[derive(Debug)]
pub struct CliError {
    pub message: String,
}

impl CliError {
    /// An error with the given message.
    pub fn new(message: String) -> (e: CliError)
        ensures
            e.message@ == message@,
    {
        CliError { message }
    }

    /// An error whose message is `prefix`, then `middle`, then `suffix`.
    pub fn framed(prefix: &str, middle: &str, suffix: &str) -> (e: CliError)
        ensures
            e.message@ == prefix@ + middle@ + suffix@,
    {
        let mut m = String::from_str(prefix);
        m.append(middle);
        m.append(suffix);
        CliError::new(m)
    }
}

/// The message when no session is appointed for this shell.
pub open spec fn no_session_message() -> Seq<char> {
    "no session selected. Run: b session choose"@
}

/// An error with the message when no session is appointed for this shell.
pub fn no_session_error() -> (e: CliError)
    ensures
        e.message@ == no_session_message(),
{
    CliError::new(String::from_str("no session selected. Run: b session choose"))
}

} // verus!
