//! Failures that a single value or payload can run into, and their wire codes.

use vstd::prelude::*;

verus! {

/// Why a value could not be decoded or a command could not be served.
#[derive(Debug, Clone, Copy, PartialEq, Eq, Structural)]
pub enum Error {
    /// A width outside `1..=8`, or a reply that answers no request.
    IllegalArgument,
    /// The input ended before the requested bytes.
    AbsentInformation,
    /// A string announced a negative length.
    InvalidLength,
    /// The bytes of a string are not UTF-8.
    InvalidString,
    /// A command, reply or error code that this engine does not know.
    Unimplemented,
}

impl Error {
    /// The numeric code that stands for this error on the wire.
    pub open spec fn code(self) -> u16 {
        match self {
            Error::IllegalArgument => 103,
            Error::AbsentInformation => 101,
            Error::InvalidLength => 504,
            Error::InvalidString => 506,
            Error::Unimplemented => 99,
        }
    }

    /// The error that a wire code stands for, if the code is known.
    pub open spec fn from_code(data: u16) -> Option<Error> {
        if data == 103 {
            Some(Error::IllegalArgument)
        } else if data == 101 {
            Some(Error::AbsentInformation)
        } else if data == 504 {
            Some(Error::InvalidLength)
        } else if data == 506 {
            Some(Error::InvalidString)
        } else if data == 99 {
            Some(Error::Unimplemented)
        } else {
            None
        }
    }

    /// Gives the wire code of this error.
    pub fn serialize(&self) -> (code: u16)
        ensures
            code == self.code(),
            code != 0,
    {
        match self {
            Error::IllegalArgument => 103,
            Error::AbsentInformation => 101,
            Error::InvalidLength => 504,
            Error::InvalidString => 506,
            Error::Unimplemented => 99,
        }
    }

    /// Looks a wire code up in the error table; `None` for a code that is not in it.
    pub fn deserialize(data: u16) -> (found: Option<Error>)
        ensures
            found == Error::from_code(data),
            found matches Some(e) ==> e.code() == data,
            found is None <==> forall|e: Error| e.code() != data,
    {
        match data {
            103 => Some(Error::IllegalArgument),
            101 => Some(Error::AbsentInformation),
            504 => Some(Error::InvalidLength),
            506 => Some(Error::InvalidString),
            99 => Some(Error::Unimplemented),
            _ => None,
        }
    }
}

/// Every error is found again under its own code.
pub proof fn lemma_error_code_round_trip(e: Error)
    ensures
        Error::from_code(e.code()) == Some(e),
{
}

} // verus!
