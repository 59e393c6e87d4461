//! How a bzip2 stream is taken in: what a header says, what is taken of the data, and
//! what is left of it.
use vstd::prelude::*;

use crate::bzip2::decoder::{
    filled, full_length, read_from, room, written, BlockRead, BlockState, DecoderModel, ReadState,
    WriteState,
};
use crate::bzip2::header::{header_of, Header, HeaderError};

verus! {

/// A header is `BZh` and a digit from one to nine: so many hundred thousand bytes, of
/// which 65536 are reserved at most, which is what every digit comes to.
pub proof fn a_header_is_read(buf: Seq<u8>)
    requires
        buf.len() == 4,
    ensures
        header_of(buf) == (if !(buf[0] == 0x42 && buf[1] == 0x5a) {
            Err(HeaderError::InvalidSignature)
        } else if buf[2] != 0x68 {
            Err(HeaderError::UnsupportedVersion)
        } else if buf[3] < 0x31 || buf[3] > 0x39 {
            Err(HeaderError::InvalidBlockSize)
        } else {
            Ok(Header { raw_blocksize: (buf[3] - 0x30) as u8, max_blocksize: 65536 })
        }),
{
}

/// What is written goes behind what is there, from its beginning on and as far as it is
/// said to; where reading is due first, nothing is taken. A block is ready to be read
/// when it is whole or the data ends.
pub proof fn what_is_written_is_taken_in_order(d: DecoderModel, buf: Seq<u8>)
    requires
        d.header_block is Some,
        buf.len() <= usize::MAX,
        0 <= room(d) <= usize::MAX,
    ensures
        ({
            let (e, w) = filled(d, buf);
            let (h, state) = d.header_block->0;
            match w {
                WriteState::Written(n) => {
                    &&& state != BlockState::Reading
                    &&& n <= buf.len() && n <= room(d)
                    &&& n == buf.len() || n == room(d)
                    &&& e.in_buf == d.in_buf + buf.take(n as int)
                    &&& e.skip_bits == d.skip_bits && e.eof == d.eof
                    &&& e.header_block matches Some((g, after)) && {
                        &&& g == h
                        &&& buf.len() == 0 ==> after == BlockState::ReadyForRead
                        &&& e.in_buf.len() >= d.skip_bits / 8 + h.max_blocksize ==> after
                            == BlockState::ReadyForRead
                        &&& buf.len() > 0 && e.in_buf.len() < d.skip_bits / 8 + h.max_blocksize
                            ==> after == state
                    }
                },
                WriteState::NeedsRead => state == BlockState::Reading && e == d,
            }
        }),
        full_length((d.header_block->0).0, d.skip_bits) == (d.header_block->0).0.max_blocksize
            + d.skip_bits / 8 + 1,
{
    let (h, state) = d.header_block->0;
}

/// A stream begins with its header: until four bytes are there all is taken; from there
/// on the first four decide, and are passed over when the first block is read.
pub proof fn a_stream_begins_with_its_header(d: DecoderModel, buf: Seq<u8>)
    requires
        d.header_block is None,
        d.in_buf.len() < 4,
        buf.len() <= 65540,
    ensures
        ({
            let (e, r) = written(d, buf);
            let all = d.in_buf + buf;
            &&& all.len() < 4 ==> e.in_buf == all && e.header_block is None && r == Ok::<
                WriteState,
                crate::bzip2::decoder::DecoderError,
            >(WriteState::Written(buf.len() as usize))
            &&& all.len() >= 4 && header_of(all.take(4)) is Err ==> r is Err && e.header_block
                is None
            &&& all.len() >= 4 && header_of(all.take(4)) is Ok ==> {
                &&& r == Ok::<WriteState, crate::bzip2::decoder::DecoderError>(
                    WriteState::Written(buf.len() as usize),
                )
                &&& e.in_buf == all
                &&& e.skip_bits == 32
                &&& e.header_block == Some((header_of(all.take(4))->Ok_0, BlockState::NotReady))
            }
        }),
{
    assert(buf.take(buf.len() as int) =~= buf);
}

/// When a block was read to its end the bytes that it used up are dropped and the bits of
/// a byte that it did not are kept: what is passed over stands at the same place of the
/// data. While it is read, only the place moves on.
pub proof fn the_place_in_the_data_is_kept(d: DecoderModel, wanted: int, b: BlockRead, n: usize)
    requires
        d.header_block is Some,
        !d.eof,
        (d.header_block->0).1 != BlockState::NotReady,
        b.read == Some(n),
        n > 0,
        b.position <= 8 * d.in_buf.len(),
    ensures
        ({
            let (e, r) = read_from(d, wanted, b);
            let dropped = d.in_buf.len() - e.in_buf.len();
            &&& r == Ok::<ReadState, crate::bzip2::decoder::DecoderError>(ReadState::Read(n))
            &&& dropped >= 0
            &&& e.in_buf == d.in_buf.skip(dropped as int)
            &&& 8 * dropped + e.skip_bits == b.position
            &&& b.state == BlockState::NotReady ==> 0 <= e.skip_bits < 8
            &&& b.state != BlockState::NotReady ==> dropped == 0
            &&& e.header_block == Some(((d.header_block->0).0, b.state))
        }),
{
    if b.state != BlockState::NotReady {
        assert(d.in_buf.skip(0) =~= d.in_buf);
    }
}

/// A stream that is over stays over; one that has not begun, or whose block is not
/// whole, asks for data; data that is not sound is an error.
pub proof fn reading_waits_for_data(d: DecoderModel, wanted: int, b: BlockRead)
    ensures
        ({
            let (e, r) = read_from(d, wanted, b);
            &&& d.header_block is None ==> e == d && (r matches Ok(s) && s is NeedsWrite)
            &&& d.header_block is Some && d.eof ==> e == d && (r matches Ok(s) && s is Eof)
            &&& d.header_block is Some && !d.eof && (d.header_block->0).1 == BlockState::NotReady
                ==> e == d && (r matches Ok(s) && s is NeedsWrite)
            &&& d.header_block is Some && !d.eof && (d.header_block->0).1 != BlockState::NotReady
                && b.read is None ==> r is Err
            &&& d.header_block is Some && !d.eof && (d.header_block->0).1
                == BlockState::ReadyForRead && b.read == Some(0usize) && wanted > 0 ==> e.eof
        }),
{
}

/// Once the header is there, what is written fills the block.
pub proof fn data_behind_the_header_fills_the_block(d: DecoderModel, buf: Seq<u8>)
    requires
        d.header_block is Some,
    ensures
        written(d, buf).0 == filled(d, buf).0,
        written(d, buf).1 == Ok::<WriteState, crate::bzip2::decoder::DecoderError>(
            filled(d, buf).1,
        ),
{
}

} // verus!
