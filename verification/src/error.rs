//! The ways in which decoding a recording can fail.

use vstd::prelude::*;

verus! {

/// Why a decode stopped. Every failure is terminal: the format cannot resynchronise.
#[derive(Clone, Copy, Debug, PartialEq, Eq, Structural)]
pub enum DecodeError {
    /// A read or seek would pass the end of the buffer.
    OutOfBounds,
    /// The marker that closes the metadata block is not `-2`.
    EndMarkerMismatch,
    /// The marker that opens the metadata block is not `-1`.
    StartMarkerMismatch,
    /// The cursor cannot land on the end of the packet.
    Framing,
    /// An order starts with a tag byte that names no order type.
    UnknownOrderType,
    /// A target starts with a tag byte that names no target type.
    UnknownTargetType,
    /// The metadata text is not well-formed UTF-8.
    InvalidText,
    /// Text that should write a number does not, or the number is too large.
    InvalidNumber,
    /// A player was committed without client index, name or colour, or the
    /// metadata names no map or no version.
    MissingField,
}

impl DecodeError {
    /// The cause of the failure in words.
    pub open spec fn description(self) -> Seq<char> {
        match self {
            DecodeError::OutOfBounds => "read past the end of the buffer"@,
            DecodeError::EndMarkerMismatch => "end marker of the metadata block not found"@,
            DecodeError::StartMarkerMismatch => "start marker of the metadata block not found"@,
            DecodeError::Framing => "packet does not end where its length says"@,
            DecodeError::UnknownOrderType => "unknown order type"@,
            DecodeError::UnknownTargetType => "unknown target type"@,
            DecodeError::InvalidText => "metadata text is not valid UTF-8"@,
            DecodeError::InvalidNumber => "text that should write a number does not"@,
            DecodeError::MissingField => "client id, name, colour, map and version must be present"@,
        }
    }

    /// The cause of the failure in words.
    pub fn message(self) -> (text: &'static str)
        ensures
            text@ == self.description(),
    {
        match self {
            DecodeError::OutOfBounds => "read past the end of the buffer",
            DecodeError::EndMarkerMismatch => "end marker of the metadata block not found",
            DecodeError::StartMarkerMismatch => "start marker of the metadata block not found",
            DecodeError::Framing => "packet does not end where its length says",
            DecodeError::UnknownOrderType => "unknown order type",
            DecodeError::UnknownTargetType => "unknown target type",
            DecodeError::InvalidText => "metadata text is not valid UTF-8",
            DecodeError::InvalidNumber => "text that should write a number does not",
            DecodeError::MissingField => "client id, name, colour, map and version must be present",
        }
    }
}

} // verus!
