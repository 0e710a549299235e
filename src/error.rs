//! Errors reported by the library.
use vstd::prelude::*;
use vstd::string::StringExecFns;

verus! {

/// What went wrong: a failure reported by the game server, or a token that
/// does not name a value of the expected kind.
#[derive(Debug)]
pub enum Error {
    Game(String),
    Parsing(String),
}

/// The message for a token `string` that is not a valid `source`.
pub open spec fn parsing_message(source: Seq<char>, string: Seq<char>) -> Seq<char> {
    "Error while parsing \""@ + string + "\" as "@ + source
}

/// The message for a server failure without a reason.
pub open spec fn unknown_server_error() -> Seq<char> {
    "Unknown server error"@
}

impl Error {
    pub fn parsing(source: &str, string: &str) -> (r: Error)
        ensures
            r matches Error::Parsing(m) && m@ == parsing_message(source@, string@),
    {
        let message = String::from_str("Error while parsing \"");
        let message = message.concat(string);
        let message = message.concat("\" as ");
        let message = message.concat(source);
        Error::Parsing(message)
    }

    /// A server failure, with the server's reason when it gave one.
    pub fn game(cause: Option<String>) -> (r: Error)
        ensures
            r matches Error::Game(m) && m@ == match cause {
                Some(c) => c@,
                None => unknown_server_error(),
            },
    {
        match cause {
            Some(c) => Error::Game(c),
            None => Error::Game(String::from_str("Unknown server error")),
        }
    }

    /// The human-readable description of the error.
    pub fn description(&self) -> (r: String)
        ensures
            r@ == match self {
                Error::Game(m) => m@,
                Error::Parsing(m) => m@,
            },
    {
        match self {
            Error::Game(m) => m.clone(),
            Error::Parsing(m) => m.clone(),
        }
    }
}

} // verus!
