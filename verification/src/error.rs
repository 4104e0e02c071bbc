//! The one way in which making a connection fails.

use vstd::prelude::*;
use vstd::string::StringExecFns;

verus! {

/// Why no connection was made.
#[derive(Debug, Clone, Copy, PartialEq, Eq, Structural)]
pub enum EsError {
    /// The platform could not create a transport for the address.
    AcquisitionFailed,
}

impl EsError {
    /// The text of [`EsError::message`].
    pub open spec fn message_text(self) -> Seq<char> {
        match self {
            EsError::AcquisitionFailed => "couldn't aquire event source"@,
        }
    }

    /// The error as a line of text for the user.
    pub fn message(&self) -> (text: String)
        ensures
            text@ == self.message_text(),
    {
        match self {
            EsError::AcquisitionFailed => String::from_str("couldn't aquire event source"),
        }
    }
}

} // verus!
