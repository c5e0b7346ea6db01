//! The ways in which a request can fail.

use vstd::prelude::*;
use vstd::string::*;

verus! {

/// Why a request could not be served.
#[derive(Debug, Clone, PartialEq, Eq)]
pub enum ChatError {
    /// The body of a posted message is not UTF-8 text.
    InvalidUtf8,
    /// Storage failed; the text says how, for the log.
    StorageFailure(String),
    /// One room name was found to stand for more than one room. Storage
    /// that can tell may report it; resolution itself takes the first room
    /// that storage finds under a name and so never does.
    RoomResolutionRace,
}

impl ChatError {
    /// The failure in words, for the log and the error page.
    pub fn detail(&self) -> (r: String)
        ensures
            r@ == match *self {
                ChatError::InvalidUtf8 => "InvalidUtf8"@,
                ChatError::StorageFailure(how) => how@,
                ChatError::RoomResolutionRace => "RoomResolutionRace"@,
            },
    {
        match self {
            ChatError::InvalidUtf8 => String::from_str("InvalidUtf8"),
            ChatError::StorageFailure(how) => how.clone(),
            ChatError::RoomResolutionRace => String::from_str("RoomResolutionRace"),
        }
    }
}

} // verus!
