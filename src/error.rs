//! Errors of the command-line front end.
use vstd::prelude::*;

verus! {

/// Why a command failed.
#[derive(Debug)]
pub enum Error {
    /// The input could not be processed.
    Parsing,
    /// A model or client could not be set up; the cause as text.
    Initialise(String),
}

pub open spec fn parsing_message() -> Seq<char> {
    seq!['F', 'a', 'i', 'l', 'e', 'd', ' ', 't', 'o', ' ', 'p', 'a', 'r', 's', 'e']
}

pub open spec fn initialise_prefix() -> Seq<char> {
    seq![
        'F', 'a', 'i', 'l', 'e', 'd', ' ', 't', 'o', ' ', 'i', 'n', 'i', 't', 'i', 'a', 'l', 'i',
        's', 'e', ':', ' ',
    ]
}

impl Error {
    /// The error as a message for the user.
    pub fn message(&self) -> (r: String)
        ensures
            self matches Error::Parsing ==> r@ == parsing_message(),
            self matches Error::Initialise(cause) ==> r@ == initialise_prefix() + cause@,
    {
        match self {
            Error::Parsing => {
                proof {
                    reveal_strlit("Failed to parse");
                }
                let r = String::from_str("Failed to parse");
                assert(r@ =~= parsing_message());
                r
            },
            Error::Initialise(cause) => {
                proof {
                    reveal_strlit("Failed to initialise: ");
                }
                let mut r = String::from_str("Failed to initialise: ");
                assert(r@ =~= initialise_prefix());
                r.append(cause.as_str());
                r
            },
        }
    }
}

} // verus!
