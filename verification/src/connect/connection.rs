//! A connection without its socket: the bytes that came in and were not yet read as
//! messages, and the bytes that are to go out.

use crate::entity::frame::{Cursor, Error, Frame, fault_text, lemma_array_view, views};
use crate::entity::wire::{
    crlf, decode, encode, encode_from, Decoded, FrameView, CR, LF, TAG_ARRAY, TAG_BULK, TAG_ERROR,
    TAG_INTEGER, TAG_SIMPLE, TAG_USIZE,
};
use crate::utils::blob::buffered;
use crate::utils::decimal::{digits, push_digits, push_signed_digits, signed_digits};
use bytes::{Buf, BytesMut};
use vstd::prelude::*;

verus! {

/// Whether a message can be written: an array holds no array.
pub open spec fn is_flat(f: FrameView) -> bool {
    match f {
        FrameView::Array(items) => forall|i: int| 0 <= i < items.len() ==> !(items[i] is Array),
        _ => true,
    }
}

/// Tells whether a frame can be written: an array holds no array.
pub fn can_write(frame: &Frame) -> (r: bool)
    ensures
        r == is_flat(frame@),
{
    match frame {
        Frame::Array(items) => {
            proof {
                lemma_array_view(*items);
            }
            let mut i: usize = 0;
            while i < items.len()
                invariant
                    i <= items@.len(),
                    frame@ == FrameView::Array(views(items@)),
                    forall|j: int| 0 <= j < i ==> !(items@[j]@ is Array),
                decreases items@.len() - i,
            {
                match &items[i] {
                    Frame::Array(_) => {
                        assert(views(items@)[i as int] is Array);
                        return false;
                    },
                    _ => {},
                }
                i = i + 1;
            }
            true
        },
        _ => true,
    }
}

/// Appends `data` to `out`.
pub fn write_all(out: &mut Vec<u8>, data: &[u8])
    ensures
        final(out)@ == old(out)@ + data@,
{
    let mut i: usize = 0;
    while i < data.len()
        invariant
            i <= data@.len(),
            out@ == old(out)@ + data@.take(i as int),
        decreases data@.len() - i,
    {
        out.push(data[i]);
        i = i + 1;
    }
}

/// Appends a CRLF to `out`.
fn write_crlf(out: &mut Vec<u8>)
    ensures
        final(out)@ == old(out)@ + crlf(),
{
    out.push(CR);
    out.push(LF);
}

/// Appends the decimal text of `val` and a CRLF to `out`.
pub fn write_decimal(out: &mut Vec<u8>, val: u64)
    ensures
        final(out)@ == old(out)@ + digits(val as nat) + crlf(),
{
    push_digits(val, out);
    write_crlf(out);
}

/// Appends the decimal text of `val` and a CRLF to `out`.
pub fn write_i64(out: &mut Vec<u8>, val: i64)
    ensures
        final(out)@ == old(out)@ + signed_digits(val as int) + crlf(),
{
    push_signed_digits(val, out);
    write_crlf(out);
}

/// Appends to `out` the bytes of a message that is no array.
pub fn write_value(out: &mut Vec<u8>, frame: &Frame)
    requires
        !(frame@ is Array),
    ensures
        final(out)@ == old(out)@ + encode(frame@),
{
    match frame {
        Frame::Simple(val) => {
            out.push(TAG_SIMPLE);
            write_all(out, val.as_str().as_bytes());
            write_crlf(out);
        },
        Frame::Error(val) => {
            out.push(TAG_ERROR);
            write_all(out, val.as_str().as_bytes());
            write_crlf(out);
        },
        Frame::USize(val) => {
            out.push(TAG_USIZE);
            write_decimal(out, *val);
        },
        Frame::Integer(val) => {
            out.push(TAG_INTEGER);
            write_i64(out, *val);
        },
        Frame::Null => {
            out.push(TAG_BULK);
            out.push(45);
            out.push(49);
            write_crlf(out);
        },
        Frame::Bulk(val) => {
            let data: &[u8] = val.as_ref();
            out.push(TAG_BULK);
            write_decimal(out, data.len() as u64);
            write_all(out, data);
            write_crlf(out);
        },
        Frame::Array(_) => {},
    }
}

/// Appends to `out` the bytes of a message.
pub fn write_frame(out: &mut Vec<u8>, frame: &Frame)
    requires
        is_flat(frame@),
    ensures
        final(out)@ == old(out)@ + encode(frame@),
{
    match frame {
        Frame::Array(val) => {
            out.push(TAG_ARRAY);
            write_decimal(out, val.len() as u64);
            let ghost items = frame@->Array_0;
            let ghost head = out@;
            let mut i: usize = 0;
            while i < val.len()
                invariant
                    i <= val@.len(),
                    items.len() == val@.len(),
                    forall|j: int| 0 <= j < val@.len() ==> items[j] == val@[j]@,
                    forall|j: int| 0 <= j < items.len() ==> !(items[j] is Array),
                    out@ + encode_from(items, i as nat) == head + encode_from(items, 0),
                decreases val@.len() - i,
            {
                let ghost before = out@;
                write_value(out, &val[i]);
                i = i + 1;
                assert(out@ + encode_from(items, i as nat) =~= before + encode_from(
                    items,
                    (i - 1) as nat,
                ));
            }
        },
        _ => write_value(out, frame),
    }
}

/// What an attempt to read a message came to.
#[derive(Debug)]
pub enum Progress {
    /// A message.
    Frame(Frame),
    /// The bytes that came in so far end before the next message does.
    NeedMore,
    /// The peer ended the stream, and nothing was left to read.
    Closed,
}

/// The text of the error for a stream that ends in the middle of a message.
pub open spec fn reset_text() -> Seq<char> {
    "connection reset by peer"@
}

/// A connection without its socket. The caller moves bytes between the two: what it
/// reads from the socket goes into the buffer, and what is waiting to go out is
/// written to the socket and flushed after every message.
#[derive(Debug)]
pub struct Connection {
    buffer: BytesMut,
    outgoing: Vec<u8>,
}

impl Connection {
    /// The bytes that came in and were not yet read as messages.
    pub closed spec fn incoming(&self) -> Seq<u8> {
        buffered(self.buffer)
    }

    /// The bytes that are waiting to go out.
    pub closed spec fn outgoing(&self) -> Seq<u8> {
        self.outgoing@
    }

    /// A connection on which nothing came in and nothing is to go out.
    pub fn new() -> (c: Connection)
        ensures
            c.incoming() == Seq::<u8>::empty(),
            c.outgoing() == Seq::<u8>::empty(),
    {
        Connection { buffer: BytesMut::with_capacity(4 * 1024), outgoing: Vec::new() }
    }

    /// The buffer for what comes in, for the caller to read from the socket into.
    pub fn buffer_mut(&mut self) -> (b: &mut BytesMut)
        ensures
            buffered(*b) == old(self).incoming(),
            final(self).incoming() == buffered(*final(b)),
            final(self).outgoing() == old(self).outgoing(),
    {
        &mut self.buffer
    }

    /// Takes in bytes that came from the peer.
    pub fn feed(&mut self, data: &[u8])
        requires
            old(self).incoming().len() + data@.len() <= isize::MAX,
        ensures
            final(self).incoming() == old(self).incoming() + data@,
            final(self).outgoing() == old(self).outgoing(),
    {
        self.buffer.extend_from_slice(data);
    }

    /// Reads the message at the front of what came in, if a whole one is there, and
    /// drops its bytes. Where none is there yet, or the bytes are no message, all stays
    /// as it was.
    pub fn parse_frame(&mut self) -> (r: Result<Option<Frame>, Error>)
        ensures
            final(self).outgoing() == old(self).outgoing(),
            match decode(old(self).incoming()) {
                Decoded::Complete { frame, len } => {
                    &&& r matches Ok(Some(f)) && f@ == frame
                    &&& len <= old(self).incoming().len()
                    &&& final(self).incoming() == old(self).incoming().skip(len as int)
                },
                Decoded::Incomplete => {
                    &&& r matches Ok(None)
                    &&& final(self).incoming() == old(self).incoming()
                },
                Decoded::Malformed(fault) => {
                    &&& r matches Err(Error::Other(msg)) && msg@ == fault_text(fault)
                    &&& final(self).incoming() == old(self).incoming()
                },
            },
    {
        let bytes: &[u8] = self.buffer.as_ref();
        let mut buf = Cursor::new(bytes);
        assert(buf.rest() =~= bytes@);
        match Frame::check(&mut buf) {
            Ok(_) => {
                let len = buf.position();
                buf.set_position(0);
                match Frame::parse(&mut buf) {
                    Ok(frame) => {
                        self.buffer.advance(len);
                        Ok(Some(frame))
                    },
                    Err(e) => Err(e),
                }
            },
            Err(Error::Incomplete) => Ok(None),
            Err(e) => Err(e),
        }
    }

    /// One step of reading a message. `eof` tells whether the peer has ended the
    /// stream. A whole message at the front of what came in is read. Otherwise more
    /// bytes are needed, unless the stream has ended: then the connection is closed
    /// where nothing is left, and was reset where the stream ends within a message.
    pub fn read_frame(&mut self, eof: bool) -> (r: Result<Progress, Error>)
        ensures
            final(self).outgoing() == old(self).outgoing(),
            match decode(old(self).incoming()) {
                Decoded::Complete { frame, len } => r matches Ok(Progress::Frame(f)) && f@
                    == frame && final(self).incoming() == old(self).incoming().skip(len as int),
                Decoded::Incomplete => final(self).incoming() == old(self).incoming() && if !eof {
                    r matches Ok(Progress::NeedMore)
                } else if old(self).incoming().len() == 0 {
                    r matches Ok(Progress::Closed)
                } else {
                    r matches Err(Error::Other(msg)) && msg@ == reset_text()
                },
                Decoded::Malformed(fault) => r matches Err(Error::Other(msg)) && msg@
                    == fault_text(fault) && final(self).incoming() == old(self).incoming(),
            },
    {
        match self.parse_frame()? {
            Some(frame) => Ok(Progress::Frame(frame)),
            None => {
                if !eof {
                    Ok(Progress::NeedMore)
                } else if self.buffer.is_empty() {
                    Ok(Progress::Closed)
                } else {
                    Err(Error::Other("connection reset by peer".to_string()))
                }
            },
        }
    }

    /// Puts the bytes of `frame` with those that are waiting to go out.
    pub fn write_frame(&mut self, frame: &Frame)
        requires
            is_flat(frame@),
        ensures
            final(self).incoming() == old(self).incoming(),
            final(self).outgoing() == old(self).outgoing() + encode(frame@),
    {
        write_frame(&mut self.outgoing, frame);
    }

    /// Hands over the bytes that are waiting to go out; none are waiting after that.
    pub fn take_outgoing(&mut self) -> (bytes: Vec<u8>)
        ensures
            bytes@ == old(self).outgoing(),
            final(self).incoming() == old(self).incoming(),
            final(self).outgoing() == Seq::<u8>::empty(),
    {
        let mut bytes: Vec<u8> = Vec::new();
        std::mem::swap(&mut bytes, &mut self.outgoing);
        bytes
    }
}

} // verus!
