//! The ways in which an address or a subnet can fail to parse.

use vstd::prelude::*;

verus! {

/// Why a text was rejected.
#[derive(Clone, Copy, Debug, PartialEq, Eq, Structural)]
pub enum ParseError {
    /// The address does not have exactly four components, or one of them is
    /// not a decimal number, or one of them is greater than 255.
    MalformedAddress,
    /// The subnet does not consist of exactly two parts separated by one `/`.
    MalformedSubnet,
    /// The prefix length of a subnet is not a decimal number.
    MalformedMask,
    /// The prefix length is a number outside `1..=31`.
    InvalidMask,
}

impl ParseError {
    /// The message that describes this error to a user.
    pub open spec fn text(self) -> Seq<char> {
        match self {
            ParseError::MalformedAddress => "malformed ip"@,
            ParseError::MalformedSubnet => "malformed subnet"@,
            ParseError::MalformedMask => "malformed mask"@,
            ParseError::InvalidMask => "invalid mask"@,
        }
    }

    /// Returns the message that describes this error to a user.
    pub fn message(&self) -> (message: &'static str)
        ensures
            message@ == self.text(),
    {
        match self {
            ParseError::MalformedAddress => "malformed ip",
            ParseError::MalformedSubnet => "malformed subnet",
            ParseError::MalformedMask => "malformed mask",
            ParseError::InvalidMask => "invalid mask",
        }
    }
}

} // verus!
