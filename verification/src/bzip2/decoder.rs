//! A decoder that does no input and output itself: compressed data is written to it
//! until a block can be decoded, and then read from it until the block is used up.
use vstd::prelude::*;
use vstd::slice::slice_subrange;

use crate::bytes::push_all;
use crate::bzip2::header::{header_of, Header, HeaderError};

verus! {

/// Where a block stands.
#[derive(Debug, Clone, Copy, PartialEq, Eq, Structural)]
pub enum BlockState {
    /// More data is needed.
    NotReady,
    /// It can be decoded.
    ReadyForRead,
    /// It is decoded, and read from.
    Reading,
}

/// Why decoding fails.
#[derive(Debug, Clone, Copy, PartialEq, Eq, Structural)]
pub enum DecoderError {
    Header(HeaderError),
    /// The data of a block is not sound.
    Block,
}

/// A decoder.
pub struct Decoder {
    /// The header and where the block stands, once the header is there.
    pub header_block: Option<(Header, BlockState)>,
    /// How many bits of the buffer are used up.
    pub skip_bits: usize,
    /// Data that was written and is not used up.
    pub in_buf: Vec<u8>,
    /// The stream is over.
    pub eof: bool,
}

/// What came of writing.
#[derive(Debug, Clone, Copy, PartialEq, Eq, Structural)]
pub enum WriteState {
    /// There is enough data; read first.
    NeedsRead,
    /// So many bytes were taken.
    Written(usize),
}

/// What came of reading.
#[derive(Debug, Clone, Copy, PartialEq, Eq, Structural)]
pub enum ReadState {
    /// There is not enough data; write up to so many bytes, or none at the end of
    /// the file.
    NeedsWrite(usize),
    /// So many bytes were read.
    Read(usize),
    /// The stream is over.
    Eof,
}

/// What came of decoding from a block.
#[derive(Debug, Clone, Copy, PartialEq, Eq, Structural)]
pub struct BlockRead {
    /// How many bytes came; nothing where the data is not sound.
    pub read: Option<usize>,
    /// How many bits of the buffer are used up.
    pub position: usize,
    /// Where the block stands.
    pub state: BlockState,
}

/// The room before a header is there.
pub const HEADERLESS_SPACE: usize = 65540;

/// How far the buffer may be filled beyond its length: a header can come in pieces, and
/// the write that completes it takes as much as if it were the first.
pub const EARLY_BYTES: usize = 2;

/// The largest number of used up bits with which sums are done.
pub const MAX_SKIP_BITS: usize = 0x7fff_ffff;

/// The length up to which the buffer is filled.
pub open spec fn full_length(h: Header, skip_bits: int) -> int {
    h.max_blocksize + skip_bits / 8 + 1
}

/// A decoder as plain mathematics.
#[verifier::ext_equal]
pub struct DecoderModel {
    pub header_block: Option<(Header, BlockState)>,
    pub skip_bits: int,
    pub in_buf: Seq<u8>,
    pub eof: bool,
}

impl View for Decoder {
    type V = DecoderModel;

    open spec fn view(&self) -> DecoderModel {
        DecoderModel {
            header_block: self.header_block,
            skip_bits: self.skip_bits as int,
            in_buf: self.in_buf@,
            eof: self.eof,
        }
    }
}

/// The buffer is hardly longer than it is filled, and while there is no header there are
/// not the bytes for one, or they are none.
pub open spec fn decoder_wf(d: DecoderModel) -> bool {
    &&& 0 <= d.skip_bits <= MAX_SKIP_BITS
    &&& match d.header_block {
        Some((h, b)) => h.wf() && d.in_buf.len() <= full_length(h, d.skip_bits) + EARLY_BYTES,
        None => d.skip_bits == 0 && (d.in_buf.len() < 4 || header_of(d.in_buf.take(4)) is Err),
    }
}

/// How many bytes can be written.
pub open spec fn room(d: DecoderModel) -> int {
    match d.header_block {
        Some((h, b)) => if b == BlockState::Reading {
            0
        } else if d.in_buf.len() < full_length(h, d.skip_bits) {
            full_length(h, d.skip_bits) - d.in_buf.len()
        } else {
            0
        },
        None => HEADERLESS_SPACE as int,
    }
}

pub open spec fn at_most(a: int, b: int) -> int {
    if a < b {
        a
    } else {
        b
    }
}

/// Data written behind the header: as much as there is room for. The block can be
/// decoded once there is a whole one, or nothing more comes.
pub open spec fn filled(d: DecoderModel, buf: Seq<u8>) -> (DecoderModel, WriteState) {
    let (h, b) = d.header_block->0;
    if b == BlockState::Reading {
        (d, WriteState::NeedsRead)
    } else {
        let n = at_most(room(d), buf.len() as int);
        let in_buf = d.in_buf + buf.take(n);
        let whole = d.skip_bits / 8 + h.max_blocksize;
        (
            DecoderModel {
                in_buf,
                header_block: Some(
                    (
                        h,
                        if buf.len() == 0 || in_buf.len() >= whole {
                            BlockState::ReadyForRead
                        } else {
                            b
                        },
                    ),
                ),
                ..d
            },
            WriteState::Written(n as usize),
        )
    }
}

/// Data written to a decoder.
pub open spec fn written(d: DecoderModel, buf: Seq<u8>) -> (
    DecoderModel,
    Result<WriteState, DecoderError>,
) {
    if d.header_block is Some {
        let (e, w) = filled(d, buf);
        (e, Ok(w))
    } else {
        let n = at_most(HEADERLESS_SPACE as int, buf.len() as int);
        let in_buf = d.in_buf + buf.take(n);
        let started = DecoderModel { in_buf, ..d };
        if in_buf.len() < 4 {
            (started, Ok(WriteState::Written(buf.len() as usize)))
        } else {
            match header_of(in_buf.take(4)) {
                Err(e) => (started, Err(DecoderError::Header(e))),
                Ok(h) => {
                    let ready = DecoderModel {
                        header_block: Some((h, BlockState::NotReady)),
                        skip_bits: 32,
                        ..started
                    };
                    if n == buf.len() {
                        (ready, Ok(WriteState::Written(n as usize)))
                    } else {
                        let (e, w) = filled(ready, buf.skip(n));
                        (e, Ok(WriteState::Written((n + w->Written_0) as usize)))
                    }
                },
            }
        }
    }
}

/// What reading comes to, where `b` came of decoding from the block; that counts
/// only where the block can be decoded from.
pub open spec fn read_from(d: DecoderModel, wanted: int, b: BlockRead) -> (
    DecoderModel,
    Result<ReadState, DecoderError>,
) {
    match d.header_block {
        None => (d, Ok(ReadState::NeedsWrite(room(d) as usize))),
        Some((h, state)) => if d.eof {
            (d, Ok(ReadState::Eof))
        } else if state == BlockState::NotReady {
            (d, Ok(ReadState::NeedsWrite(room(d) as usize)))
        } else {
            let after = DecoderModel { header_block: Some((h, b.state)), ..d };
            match b.read {
                None => (after, Err(DecoderError::Block)),
                Some(n) => if n == 0 {
                    let over = DecoderModel {
                        eof: if wanted > 0 {
                            state == BlockState::ReadyForRead
                        } else {
                            d.eof
                        },
                        ..after
                    };
                    (over, Ok(ReadState::NeedsWrite(room(over) as usize)))
                } else if b.state == BlockState::NotReady {
                    let used = b.position as int / 8;
                    (
                        DecoderModel {
                            in_buf: d.in_buf.skip(used),
                            skip_bits: b.position - used * 8,
                            ..after
                        },
                        Ok(ReadState::Read(n)),
                    )
                } else {
                    (
                        DecoderModel { skip_bits: b.position as int, ..after },
                        Ok(ReadState::Read(n)),
                    )
                },
            }
        },
    }
}

/// What decoding from the block of `d` can come to: it moves on within the buffer.
pub open spec fn plausible(d: DecoderModel, b: BlockRead) -> bool {
    &&& b.position <= MAX_SKIP_BITS
    &&& d.skip_bits <= b.position <= 8 * d.in_buf.len()
}

impl Decoder {
    /// A decoder for a new stream.
    pub fn new() -> (r: Decoder)
        ensures
            r@ == (DecoderModel {
                header_block: None,
                skip_bits: 0,
                in_buf: Seq::empty(),
                eof: false,
            }),
            decoder_wf(r@),
    {
        Decoder { header_block: None, skip_bits: 0, in_buf: Vec::new(), eof: false }
    }

    /// How many bytes can be written.
    pub fn space(&self) -> (r: usize)
        requires
            decoder_wf(self@),
        ensures
            r == room(self@),
    {
        match &self.header_block {
            Some((h, b)) => if *b == BlockState::Reading {
                0
            } else {
                let max_length = h.max_blocksize() as usize + self.skip_bits / 8 + 1;
                max_length.saturating_sub(self.in_buf.len())
            },
            None => HEADERLESS_SPACE,
        }
    }

    fn fill(&mut self, buf: &[u8]) -> (r: WriteState)
        requires
            decoder_wf(old(self)@),
            old(self).header_block is Some,
        ensures
            decoder_wf(final(self)@),
            (final(self)@, r) == filled(old(self)@, buf@),
    {
        let space = self.space();
        if let Some((h, b)) = self.header_block {
            if b == BlockState::Reading {
                return WriteState::NeedsRead;
            }
            let n = if space < buf.len() {
                space
            } else {
                buf.len()
            };
            let part = slice_subrange(buf, 0, n);
            assert(part@ =~= buf@.take(n as int));
            push_all(&mut self.in_buf, part);
            let whole = self.skip_bits / 8 + h.max_blocksize() as usize;
            if buf.len() == 0 || self.in_buf.len() >= whole {
                self.header_block = Some((h, BlockState::ReadyForRead));
            }
            WriteState::Written(n)
        } else {
            WriteState::NeedsRead
        }
    }

    /// Writes compressed data.
    pub fn write(&mut self, buf: &[u8]) -> (r: Result<WriteState, DecoderError>)
        requires
            decoder_wf(old(self)@),
        ensures
            decoder_wf(final(self)@),
            (final(self)@, r) == written(old(self)@, buf@),
    {
        if self.header_block.is_some() {
            return Ok(self.fill(buf));
        }
        let n = if HEADERLESS_SPACE < buf.len() {
            HEADERLESS_SPACE
        } else {
            buf.len()
        };
        let part = slice_subrange(buf, 0, n);
        assert(part@ =~= buf@.take(n as int));
        let ghost early = self.in_buf@;
        push_all(&mut self.in_buf, part);
        assert(early.len() >= 4 ==> self.in_buf@.take(4) =~= early.take(4));
        if self.in_buf.len() < 4 {
            return Ok(WriteState::Written(buf.len()));
        }
        let head: [u8; 4] = [self.in_buf[0], self.in_buf[1], self.in_buf[2], self.in_buf[3]];
        assert(head@ =~= self.in_buf@.take(4));
        let header = match Header::parse(head) {
            Ok(h) => h,
            Err(e) => {
                return Err(DecoderError::Header(e));
            },
        };
        self.header_block = Some((header, BlockState::NotReady));
        self.skip_bits = 32;
        assert(header.max_blocksize == 65536);
        if n == buf.len() {
            return Ok(WriteState::Written(n));
        }
        let rest = slice_subrange(buf, n, buf.len());
        assert(rest@ =~= buf@.skip(n as int));
        match self.fill(rest) {
            WriteState::Written(more) => Ok(WriteState::Written(n + more)),
            WriteState::NeedsRead => Ok(WriteState::Written(n)),
        }
    }

    /// Whether the block can be decoded from: then decode from the buffer behind the
    /// bits used up, and hand what came of it to `read`.
    pub fn wants_block(&self) -> (r: bool)
        ensures
            r == (match self.header_block {
                Some((_, state)) => !self.eof && state != BlockState::NotReady,
                None => false,
            }),
    {
        match &self.header_block {
            Some((_, state)) => !self.eof && *state != BlockState::NotReady,
            None => false,
        }
    }

    /// Reads decompressed data into a buffer of `wanted` bytes; `b` is what came of
    /// decoding from the block.
    pub fn read(&mut self, wanted: usize, b: BlockRead) -> (r: Result<ReadState, DecoderError>)
        requires
            decoder_wf(old(self)@),
            plausible(old(self)@, b),
        ensures
            decoder_wf(final(self)@),
            (final(self)@, r) == read_from(old(self)@, wanted as int, b),
    {
        let (h, state) = match self.header_block {
            None => {
                return Ok(ReadState::NeedsWrite(self.space()));
            },
            Some((h, state)) => (h, state),
        };
        if self.eof {
            return Ok(ReadState::Eof);
        }
        if state == BlockState::NotReady {
            return Ok(ReadState::NeedsWrite(self.space()));
        }
        self.header_block = Some((h, b.state));
        let n = match b.read {
            None => {
                return Err(DecoderError::Block);
            },
            Some(n) => n,
        };
        if n == 0 {
            if wanted > 0 {
                self.eof = state == BlockState::ReadyForRead;
            }
            return Ok(ReadState::NeedsWrite(self.space()));
        }
        self.skip_bits = b.position;
        if b.state == BlockState::NotReady {
            let used = self.skip_bits / 8;
            let ghost whole = self.in_buf@;
            let rest = self.in_buf.split_off(used);
            self.in_buf = rest;
            assert(self.in_buf@ =~= whole.skip(used as int));
            self.skip_bits = self.skip_bits - used * 8;
        }
        Ok(ReadState::Read(n))
    }
}

impl Default for Decoder {
    fn default() -> (r: Decoder)
        ensures
            r@ == (DecoderModel {
                header_block: None,
                skip_bits: 0,
                in_buf: Seq::empty(),
                eof: false,
            }),
    {
        Decoder::new()
    }
}

/// A stream that has begun never asks for more than a block and what surrounds it,
/// whatever its header declares.
pub proof fn buffer_is_bounded(d: DecoderModel)
    requires
        decoder_wf(d),
        d.header_block is Some,
        d.skip_bits < 64,
    ensures
        d.in_buf.len() + room(d) <= 65536 + 8 + EARLY_BYTES,
{
}

/// After reading asked for data, a write takes data or fails on the header, and never asks
/// for a read; of no more than was asked for it takes all. This holds as far as a block
/// that gave nothing is no longer read from.
pub proof fn data_that_was_asked_for_is_taken(
    d: DecoderModel,
    wanted: int,
    b: BlockRead,
    buf: Seq<u8>,
)
    requires
        decoder_wf(d),
        plausible(d, b),
        wanted > 0,
        b.read == Some(0usize) ==> b.state != BlockState::Reading,
        read_from(d, wanted, b).1 matches Ok(ReadState::NeedsWrite(_)),
    ensures
        match (read_from(d, wanted, b).1, written(read_from(d, wanted, b).0, buf).1) {
            (Ok(ReadState::NeedsWrite(space)), Ok(w)) => w is Written && (buf.len() <= space ==> w
                == WriteState::Written(buf.len() as usize)),
            (_, Err(_)) => d.header_block is None,
            _ => false,
        },
{
}

} // verus!
