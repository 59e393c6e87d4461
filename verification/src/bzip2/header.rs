//! The header of a bzip2 stream.
use vstd::prelude::*;

verus! {

/// The largest block content that is supported, whatever a header declares. A
/// header declares the encoder's capacity, which mostly is the largest there is;
/// working memory is sized by this limit instead.
pub const MAX_SUPPORTED_BLOCKSIZE: u32 = 64 * 1024;

/// Why bytes are no header.
#[derive(Debug, Clone, Copy, PartialEq, Eq, Structural)]
pub enum HeaderError {
    InvalidSignature,
    UnsupportedVersion,
    InvalidBlockSize,
}

/// A header.
#[derive(Debug, Clone, Copy, PartialEq, Eq, Structural)]
pub struct Header {
    pub raw_blocksize: u8,
    pub max_blocksize: u32,
}

/// The block size for a declared number of hundred thousands, within what is
/// supported.
pub open spec fn supported_size(raw: int) -> int {
    if 100_000 * raw < MAX_SUPPORTED_BLOCKSIZE {
        100_000 * raw
    } else {
        MAX_SUPPORTED_BLOCKSIZE as int
    }
}

/// The header that four bytes are: two letters, the version, and a digit.
pub open spec fn header_of(buf: Seq<u8>) -> Result<Header, HeaderError> {
    if buf[0] != 0x42 || buf[1] != 0x5a {
        Err(HeaderError::InvalidSignature)
    } else if buf[2] != 0x68 {
        Err(HeaderError::UnsupportedVersion)
    } else if !(0x31 <= buf[3] <= 0x39) {
        Err(HeaderError::InvalidBlockSize)
    } else {
        Ok(
            Header {
                raw_blocksize: (buf[3] - 0x30) as u8,
                max_blocksize: supported_size(buf[3] - 0x30) as u32,
            },
        )
    }
}

impl Header {
    /// The declared size is one to nine, and the supported size follows from it.
    pub open spec fn wf(&self) -> bool {
        1 <= self.raw_blocksize <= 9 && self.max_blocksize == supported_size(
            self.raw_blocksize as int,
        )
    }

    /// Reads a header.
    pub fn parse(buf: [u8; 4]) -> (r: Result<Header, HeaderError>)
        ensures
            r == header_of(buf@),
            r matches Ok(h) ==> h.wf(),
    {
        if buf[0] != 0x42 || buf[1] != 0x5a {
            return Err(HeaderError::InvalidSignature);
        }
        if buf[2] != 0x68 {
            return Err(HeaderError::UnsupportedVersion);
        }
        if 0x31 <= buf[3] && buf[3] <= 0x39 {
            Header::from_raw_blocksize(buf[3] - 0x30)
        } else {
            Err(HeaderError::InvalidBlockSize)
        }
    }

    /// The header that declares a number of hundred thousands, one to nine.
    pub fn from_raw_blocksize(raw_blocksize: u8) -> (r: Result<Header, HeaderError>)
        ensures
            r == (if 1 <= raw_blocksize <= 9 {
                Ok::<Header, HeaderError>(
                    Header {
                        raw_blocksize,
                        max_blocksize: supported_size(raw_blocksize as int) as u32,
                    },
                )
            } else {
                Err(HeaderError::InvalidBlockSize)
            }),
            r matches Ok(h) ==> h.wf(),
    {
        if raw_blocksize < 1 || raw_blocksize > 9 {
            return Err(HeaderError::InvalidBlockSize);
        }
        let declared: u32 = 100_000 * (raw_blocksize as u32);
        let max_blocksize = if declared < MAX_SUPPORTED_BLOCKSIZE {
            declared
        } else {
            MAX_SUPPORTED_BLOCKSIZE
        };
        Ok(Header { raw_blocksize, max_blocksize })
    }

    /// The declared number of hundred thousands, one to nine.
    pub fn raw_blocksize(&self) -> (r: u8)
        ensures
            r == self.raw_blocksize,
            self.wf() ==> 1 <= r <= 9,
    {
        self.raw_blocksize
    }

    /// The block size, within what is supported.
    pub fn max_blocksize(&self) -> (r: u32)
        ensures
            r == self.max_blocksize,
            self.wf() ==> r <= MAX_SUPPORTED_BLOCKSIZE,
    {
        self.max_blocksize
    }
}

/// No header makes a decoder reserve more than the limit, and every digit from one
/// to nine is taken.
pub proof fn every_header_is_within_the_limit(buf: Seq<u8>)
    requires
        buf.len() == 4,
    ensures
        header_of(buf) matches Ok(h) ==> 0 < h.max_blocksize <= MAX_SUPPORTED_BLOCKSIZE,
        header_of(buf) is Ok <==> buf[0] == 0x42 && buf[1] == 0x5a && buf[2] == 0x68 && 0x31
            <= buf[3] <= 0x39,
{
}

} // verus!
