use vstd::prelude::*;
use crate::error::DecodeError;

verus! {

/// Number of bytes in a header.
pub const HEADER_LEN: usize = 14;

/// The fixed header that opens every image.
#[derive(Clone, Copy, Debug, PartialEq, Eq, Structural)]
pub struct Header {
    pub width: u32,
    pub height: u32,
    pub channels: u8,
    pub colorspace: u8,
}

/// The big-endian 32-bit integer in the four bytes starting at `at`.
pub open spec fn be_u32(b: Seq<u8>, at: int) -> u32 {
    (b[at] as int * 0x1000000 + b[at + 1] as int * 0x10000 + b[at + 2] as int * 0x100
        + b[at + 3] as int) as u32
}

/// The first four bytes spell `qoif`.
pub open spec fn magic_ok(b: Seq<u8>) -> bool {
    b[0] == 0x71 && b[1] == 0x6f && b[2] == 0x69 && b[3] == 0x66
}

/// The header fields that the first fourteen bytes of `b` hold.
pub open spec fn header_of(b: Seq<u8>) -> Header {
    Header { width: be_u32(b, 4), height: be_u32(b, 8), channels: b[12], colorspace: b[13] }
}

/// Outcome of splitting `b` into header and payload.
pub open spec fn parse_spec(b: Seq<u8>) -> Result<(Header, Seq<u8>), DecodeError> {
    if b.len() < 14 {
        Err(DecodeError::TruncatedHeader)
    } else if !magic_ok(b) {
        Err(DecodeError::InvalidMagic)
    } else {
        Ok((header_of(b), b.subrange(14, b.len() as int)))
    }
}

/// A parsed image file: its header and the instruction stream after it.
pub struct Qoi {
    pub header: Header,
    pub data: Vec<u8>,
}

/// Combines four bytes, most significant first.
fn read_be_u32(b0: u8, b1: u8, b2: u8, b3: u8) -> (v: u32)
    ensures
        v == b0 as int * 0x1000000 + b1 as int * 0x10000 + b2 as int * 0x100 + b3 as int,
{
    b0 as u32 * 0x1000000 + b1 as u32 * 0x10000 + b2 as u32 * 0x100 + b3 as u32
}

impl Qoi {
    pub open spec fn spec_parts(&self) -> (Header, Seq<u8>) {
        (self.header, self.data@)
    }

    /// Splits a whole file into header and payload. Fails with `TruncatedHeader`
    /// below fourteen bytes, else with `InvalidMagic` unless it starts with `qoif`.
    pub fn new(buffer: Vec<u8>) -> (r: Result<Qoi, DecodeError>)
        ensures
            match r {
                Ok(q) => parse_spec(buffer@) == Ok::<(Header, Seq<u8>), DecodeError>(
                    q.spec_parts(),
                ),
                Err(e) => parse_spec(buffer@) == Err::<(Header, Seq<u8>), DecodeError>(e),
            },
    {
        let mut buffer = buffer;
        if buffer.len() < HEADER_LEN {
            return Err(DecodeError::TruncatedHeader);
        }
        if !(buffer[0] == 0x71 && buffer[1] == 0x6f && buffer[2] == 0x69 && buffer[3] == 0x66) {
            return Err(DecodeError::InvalidMagic);
        }
        let header = Header {
            width: read_be_u32(buffer[4], buffer[5], buffer[6], buffer[7]),
            height: read_be_u32(buffer[8], buffer[9], buffer[10], buffer[11]),
            channels: buffer[12],
            colorspace: buffer[13],
        };
        let data = buffer.split_off(HEADER_LEN);
        Ok(Qoi { header, data })
    }
}

} // verus!
