use vstd::prelude::*;

verus! {

/// Why a decode failed.
#[derive(Clone, Copy, Debug, PartialEq, Eq, Structural)]
pub enum DecodeError {
    /// Fewer than the fourteen header bytes.
    TruncatedHeader,
    /// The first four bytes are not `q`, `o`, `i`, `f`.
    InvalidMagic,
    /// An opcode byte that no instruction kind claims.
    UnknownOpcode,
    /// A multi-byte instruction runs past the end of the payload.
    TruncatedChunk,
    /// The stream produced fewer pixels than the header declares.
    LengthMismatch,
}

impl DecodeError {
    /// A short human-readable description of the failure.
    pub fn message(&self) -> (s: String) {
        match self {
            DecodeError::TruncatedHeader => String::from_str("file too small for a header"),
            DecodeError::InvalidMagic => String::from_str("invalid magic number"),
            DecodeError::UnknownOpcode => String::from_str("unknown opcode"),
            DecodeError::TruncatedChunk => String::from_str("unexpected end of data inside an instruction"),
            DecodeError::LengthMismatch => String::from_str("pixel data length mismatch"),
        }
    }
}

} // verus!
