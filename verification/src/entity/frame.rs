//! Messages of the wire protocol, and the codec that reads them from bytes and writes
//! them back.

use crate::entity::wire::{
    after_items, array_of, crlf_at, decode, decode_items, lemma_decode_bounds,
    lemma_decode_items_step, lemma_line_len_found, lemma_line_len_none, lemma_line_len_some,
    line_len, no_crlf, null_line, wire_safe, Decoded, Fault, FrameView, CR, LF, TAG_ARRAY,
    TAG_BULK, TAG_ERROR, TAG_INTEGER, TAG_SIMPLE, TAG_USIZE,
};
use crate::utils::blob::contents;
use crate::utils::decimal::{atoi_i64, atoi_u64, lenient_i64, lenient_u64};
use crate::utils::order::{compare, lemma_lex_irreflexive, same_text, Order};
use crate::utils::text::{
    bytes_debug, debug_bytes, decimal_chars, decode_text, push_decimal, push_signed_decimal,
    signed_decimal_chars, utf8_text,
};
use bytes::Bytes;
use vstd::prelude::*;
use vstd::slice::slice_subrange;
use vstd::std_specs::cmp::PartialEqSpecImpl;
use vstd::std_specs::convert::FromSpecImpl;
use vstd::utf8::{decode_utf8, valid_utf8};

verus! {

/// One message of the wire protocol.
#[derive(Debug)]
pub enum Frame {
    /// A short status text.
    Simple(String),
    /// A text that reports a failure.
    Error(String),
    /// An unsigned number, such as a count.
    USize(u64),
    /// A signed number.
    Integer(i64),
    /// A string of arbitrary bytes.
    Bulk(Bytes),
    /// The marker for a value that is absent.
    Null,
    /// A sequence of messages; a command is an array of its fields.
    Array(Vec<Frame>),
}

/// Why no message could be read.
#[derive(Debug)]
pub enum Error {
    /// The bytes end before the message does.
    Incomplete,
    /// The bytes are not a message; the text says why.
    Other(String),
}

/// The message that a frame stands for.
pub open spec fn frame_view(f: Frame) -> FrameView
    decreases f,
{
    match f {
        Frame::Simple(text) => FrameView::Simple(text@),
        Frame::Error(text) => FrameView::Error(text@),
        Frame::USize(v) => FrameView::USize(v),
        Frame::Integer(v) => FrameView::Integer(v),
        Frame::Bulk(data) => FrameView::Bulk(contents(data)),
        Frame::Null => FrameView::Null,
        Frame::Array(items) => FrameView::Array(
            Seq::new(
                items@.len(),
                |i: int|
                    if 0 <= i < items@.len() {
                        frame_view(items@[i])
                    } else {
                        FrameView::Null
                    },
            ),
        ),
    }
}

impl View for Frame {
    type V = FrameView;

    open spec fn view(&self) -> FrameView {
        frame_view(*self)
    }
}

/// The messages that a sequence of frames stands for.
pub open spec fn views(items: Seq<Frame>) -> Seq<FrameView> {
    Seq::new(items.len(), |i: int| items[i]@)
}

/// An array frame stands for the array of what its items stand for.
pub proof fn lemma_array_view(items: Vec<Frame>)
    ensures
        Frame::Array(items)@ == FrameView::Array(views(items@)),
{
    let f = Frame::Array(items);
    let got = f@->Array_0;
    assert(got =~= views(items@));
}

/// A message as it is shown to a person.
pub open spec fn shown(f: FrameView) -> Seq<char>
    decreases f, 0nat,
{
    match f {
        FrameView::Simple(text) => text,
        FrameView::Error(text) => "error: "@ + text,
        FrameView::USize(v) => decimal_chars(v as nat),
        FrameView::Integer(v) => signed_decimal_chars(v as int),
        FrameView::Bulk(data) => if valid_utf8(data) {
            decode_utf8(data)
        } else {
            debug_bytes(data)
        },
        FrameView::Null => "(nil)"@,
        FrameView::Array(items) => shown_items(items, items.len()),
    }
}

/// The first `count` of `items` as they are shown, with a space between each two.
pub open spec fn shown_items(items: Seq<FrameView>, count: nat) -> Seq<char>
    decreases items, count,
{
    if count == 0 || count > items.len() {
        Seq::empty()
    } else if count == 1 {
        shown(items[0])
    } else {
        shown_items(items, (count - 1) as nat) + " "@ + shown(items[count - 1])
    }
}

/// The text of the error for a message that was not expected.
pub open spec fn unexpected_text(f: FrameView) -> Seq<char> {
    "unexpected frame: "@ + shown(f)
}

/// Whether a message is the text `other`: a simple string with that text, or a bulk
/// string with its bytes.
pub open spec fn is_text(f: FrameView, other: Seq<char>) -> bool {
    match f {
        FrameView::Simple(text) => text == other,
        FrameView::Bulk(data) => data == vstd::utf8::encode_utf8(other),
        _ => false,
    }
}

/// The text of an error.
pub open spec fn error_text(e: Error) -> Seq<char> {
    match e {
        Error::Incomplete => "stream ended early"@,
        Error::Other(msg) => msg@,
    }
}

impl Error {
    /// The text of the error.
    pub fn to_text(&self) -> (text: String)
        ensures
            text@ == error_text(*self),
    {
        match self {
            Error::Incomplete => "stream ended early".to_string(),
            Error::Other(msg) => msg.clone(),
        }
    }
}

impl From<String> for Error {
    fn from(src: String) -> (e: Error) {
        Error::Other(src)
    }
}

impl FromSpecImpl<String> for Error {
    open spec fn obeys_from_spec() -> bool {
        true
    }

    open spec fn from_spec(src: String) -> Error {
        Error::Other(src)
    }
}

/// The text that reports a fault.
pub open spec fn fault_text(fault: Fault) -> Seq<char> {
    match fault {
        Fault::Format => "protocol error; invalid frame format"@,
        Fault::TypeByte(b) => "protocol error; invalid frame type byte `"@ + decimal_chars(b as nat)
            + "`"@,
    }
}

/// The error for a number, a text or a marker that is not written as the grammar asks.
fn format_error() -> (e: Error)
    ensures
        e matches Error::Other(msg) && msg@ == fault_text(Fault::Format),
{
    Error::Other("protocol error; invalid frame format".to_string())
}

/// The error for a byte that is no type byte.
fn type_byte_error(b: u8) -> (e: Error)
    ensures
        e matches Error::Other(msg) && msg@ == fault_text(Fault::TypeByte(b)),
{
    let mut msg = "protocol error; invalid frame type byte `".to_string();
    push_decimal(b as u64, &mut msg);
    msg.append("`");
    Error::Other(msg)
}

/// A read position in a byte buffer.
pub struct Cursor<'a> {
    buf: &'a [u8],
    pos: usize,
}

impl<'a> Cursor<'a> {
    #[verifier::type_invariant]
    spec fn within(self) -> bool {
        self.pos <= self.buf@.len()
    }

    /// All bytes of the buffer.
    pub closed spec fn bytes(self) -> Seq<u8> {
        self.buf@
    }

    /// How many bytes lie in front of the read position.
    pub closed spec fn index(self) -> nat {
        self.pos as nat
    }

    /// The bytes from the read position on.
    pub open spec fn rest(self) -> Seq<u8> {
        self.bytes().skip(self.index() as int)
    }

    /// A cursor at the start of `buf`.
    pub fn new(buf: &'a [u8]) -> (c: Self)
        ensures
            c.bytes() == buf@,
            c.index() == 0,
    {
        Cursor { buf, pos: 0 }
    }

    /// The read position.
    pub fn position(&self) -> (p: usize)
        ensures
            p == self.index(),
            p <= self.bytes().len(),
    {
        proof {
            use_type_invariant(self);
        }
        self.pos
    }

    /// Moves the read position to `pos`, or to the end of the buffer where `pos` lies
    /// beyond it.
    pub fn set_position(&mut self, pos: usize)
        ensures
            final(self).bytes() == old(self).bytes(),
            final(self).index() == if pos <= old(self).bytes().len() {
                pos as nat
            } else {
                old(self).bytes().len()
            },
    {
        if pos <= self.buf.len() {
            self.pos = pos;
        } else {
            self.pos = self.buf.len();
        }
    }

    /// How many bytes are left to read.
    pub fn remaining(&self) -> (n: usize)
        ensures
            n == self.rest().len(),
            n + self.index() == self.bytes().len(),
    {
        proof {
            use_type_invariant(self);
        }
        self.buf.len() - self.pos
    }

    /// The whole buffer.
    pub fn get_ref(&self) -> (buf: &'a [u8])
        ensures
            buf@ == self.bytes(),
    {
        self.buf
    }
}

/// Looks at the next byte without taking it.
pub fn peek_u8(src: &mut Cursor) -> (r: Result<u8, Error>)
    ensures
        *final(src) == *old(src),
        match r {
            Ok(b) => old(src).rest().len() > 0 && b == old(src).rest()[0],
            Err(e) => e is Incomplete && old(src).rest().len() == 0,
        },
{
    proof {
        use_type_invariant(&*src);
    }
    if src.pos >= src.buf.len() {
        return Err(Error::Incomplete);
    }
    Ok(src.buf[src.pos])
}

/// Takes the next byte.
pub fn get_u8(src: &mut Cursor) -> (r: Result<u8, Error>)
    ensures
        final(src).bytes() == old(src).bytes(),
        match r {
            Ok(b) => old(src).rest().len() > 0 && b == old(src).rest()[0] && final(src).index()
                == old(src).index() + 1 && final(src).rest() == old(src).rest().drop_first(),
            Err(e) => e is Incomplete && old(src).rest().len() == 0 && *final(src) == *old(src),
        },
{
    proof {
        use_type_invariant(&*src);
    }
    if src.pos >= src.buf.len() {
        return Err(Error::Incomplete);
    }
    let b = src.buf[src.pos];
    src.pos = src.pos + 1;
    Ok(b)
}

/// Passes over the next `n` bytes, where there are that many.
pub fn skip(src: &mut Cursor, n: usize) -> (r: Result<(), Error>)
    ensures
        final(src).bytes() == old(src).bytes(),
        match r {
            Ok(_) => n <= old(src).rest().len() && final(src).index() == old(src).index() + n
                && final(src).rest() == old(src).rest().skip(n as int),
            Err(e) => e is Incomplete && old(src).rest().len() < n && *final(src) == *old(src),
        },
{
    proof {
        use_type_invariant(&*src);
    }
    if src.buf.len() - src.pos < n {
        return Err(Error::Incomplete);
    }
    src.pos = src.pos + n;
    Ok(())
}

/// Takes the bytes up to the next CRLF, and passes over the CRLF too.
pub fn get_line<'a>(src: &mut Cursor<'a>) -> (r: Result<&'a [u8], Error>)
    ensures
        final(src).bytes() == old(src).bytes(),
        match r {
            Ok(line) => {
                &&& line_len(old(src).rest()) == Some(line@.len())
                &&& line@ == old(src).rest().take(line@.len() as int)
                &&& final(src).index() == old(src).index() + line@.len() + 2
                &&& final(src).rest() == old(src).rest().skip(line@.len() as int + 2)
            },
            Err(e) => {
                &&& e is Incomplete
                &&& line_len(old(src).rest()) is None
                &&& *final(src) == *old(src)
            },
        },
{
    proof {
        use_type_invariant(&*src);
    }
    let start = src.pos;
    let buf = src.buf;
    let ghost rest = src.rest();
    let mut i = start;
    while buf.len() - i >= 2
        invariant
            *src == *old(src),
            buf@ == src.bytes(),
            start == src.index(),
            start <= i <= buf@.len(),
            rest == buf@.skip(start as int),
            forall|j: int| 0 <= j < i - start ==> !crlf_at(rest, j),
        decreases buf@.len() - i,
    {
        if buf[i] == CR && buf[i + 1] == LF {
            proof {
                lemma_line_len_found(rest, (i - start) as nat);
            }
            src.pos = i + 2;
            let line = slice_subrange(buf, start, i);
            return Ok(line);
        }
        i = i + 1;
    }
    proof {
        lemma_line_len_none(rest);
    }
    Err(Error::Incomplete)
}

/// Takes a line and reads it as an unsigned number.
pub fn get_decimal(src: &mut Cursor) -> (r: Result<u64, Error>)
    ensures
        final(src).bytes() == old(src).bytes(),
        match line_len(old(src).rest()) {
            None => r matches Err(e) && e is Incomplete && *final(src) == *old(src),
            Some(n) => {
                &&& final(src).index() == old(src).index() + n + 2
                &&& final(src).rest() == old(src).rest().skip(n as int + 2)
                &&& match lenient_u64(old(src).rest().take(n as int)) {
                    Some(v) => r == Ok::<u64, Error>(v),
                    None => r matches Err(Error::Other(msg)) && msg@ == fault_text(Fault::Format),
                }
            },
        },
{
    let line = get_line(src)?;
    match atoi_u64(line) {
        Some(v) => Ok(v),
        None => Err(format_error()),
    }
}

/// Takes a line and reads it as a signed number.
pub fn get_signed_decimal(src: &mut Cursor) -> (r: Result<i64, Error>)
    ensures
        final(src).bytes() == old(src).bytes(),
        match line_len(old(src).rest()) {
            None => r matches Err(e) && e is Incomplete && *final(src) == *old(src),
            Some(n) => {
                &&& final(src).index() == old(src).index() + n + 2
                &&& final(src).rest() == old(src).rest().skip(n as int + 2)
                &&& match lenient_i64(old(src).rest().take(n as int)) {
                    Some(v) => r == Ok::<i64, Error>(v),
                    None => r matches Err(Error::Other(msg)) && msg@ == fault_text(Fault::Format),
                }
            },
        },
{
    let line = get_line(src)?;
    match atoi_i64(line) {
        Some(v) => Ok(v),
        None => Err(format_error()),
    }
}

/// Tells whether `bytes` hold a CRLF.
pub fn has_crlf(bytes: &[u8]) -> (r: bool)
    ensures
        r == !no_crlf(bytes@),
{
    let mut i: usize = 0;
    while bytes.len() - i >= 2
        invariant
            i <= bytes@.len(),
            forall|j: int| 0 <= j < i ==> !crlf_at(bytes@, j),
        decreases bytes@.len() - i,
    {
        if bytes[i] == CR && bytes[i + 1] == LF {
            assert(crlf_at(bytes@, i as int));
            return true;
        }
        i = i + 1;
    }
    false
}

/// Whether `line` spells the null marker.
fn is_null_line(line: &[u8]) -> (r: bool)
    ensures
        r == (line@ == null_line()),
{
    let r = line.len() == 2 && line[0] == 45 && line[1] == 49;
    assert(r == (line@ =~= null_line()));
    r
}

/// Passes over the message at the read position.
fn check_at(src: &mut Cursor) -> (r: Result<(), Error>)
    ensures
        final(src).bytes() == old(src).bytes(),
        match decode(old(src).rest()) {
            Decoded::Complete { frame, len } => r is Ok && final(src).index() == old(src).index()
                + len,
            Decoded::Incomplete => r matches Err(e) && e is Incomplete,
            Decoded::Malformed(fault) => r matches Err(Error::Other(msg)) && msg@ == fault_text(
                fault,
            ),
        },
    decreases old(src).rest().len(),
{
    let ghost s = src.rest();
    let tag = get_u8(src)?;
    let ghost body = src.rest();
    if tag == TAG_SIMPLE || tag == TAG_ERROR {
        let line = get_line(src)?;
        match utf8_text(line) {
            Some(_) => Ok(()),
            None => Err(format_error()),
        }
    } else if tag == TAG_USIZE {
        get_decimal(src)?;
        Ok(())
    } else if tag == TAG_INTEGER {
        get_signed_decimal(src)?;
        Ok(())
    } else if tag == TAG_BULK {
        let first = peek_u8(src)?;
        if first == 45 {
            let line = get_line(src)?;
            if is_null_line(line) {
                Ok(())
            } else {
                Err(format_error())
            }
        } else {
            let size = get_decimal(src)?;
            if size > usize::MAX as u64 {
                return Err(format_error());
            }
            let left = src.remaining();
            if left < 2 || left - 2 < size as usize {
                return Err(Error::Incomplete);
            }
            skip(src, size as usize + 2)?;
            Ok(())
        }
    } else if tag == TAG_ARRAY {
        let count = get_decimal(src)?;
        if count > usize::MAX as u64 {
            return Err(format_error());
        }
        let ghost first = src.rest();
        let ghost first_index = src.index();
        let ghost done: Seq<FrameView> = Seq::empty();
        let mut i: u64 = 0;
        proof {
            lemma_line_len_some(body);
            assert(Seq::<FrameView>::empty() + decode_items(first, count as nat)->items
                =~= decode_items(first, count as nat)->items);
        }
        while i < count
            invariant
                src.bytes() == old(src).bytes(),
                i <= count,
                first_index <= src.index(),
                old(src).index() < first_index,
                s == old(src).rest(),
                decode(s) == array_of(
                    (first_index - old(src).index()) as nat,
                    decode_items(first, count as nat),
                ),
                decode_items(first, count as nat) == after_items(
                    done,
                    (src.index() - first_index) as nat,
                    decode_items(src.rest(), (count - i) as nat),
                ),
            decreases count - i,
        {
            let ghost cur = src.rest();
            proof {
                use_type_invariant(&*src);
                lemma_decode_bounds(cur);
                if decode(cur) is Complete {
                    lemma_decode_items_step(
                        done,
                        (src.index() - first_index) as nat,
                        cur,
                        (count - i) as nat,
                    );
                }
            }
            check_at(src)?;
            proof {
                assert(src.rest() =~= cur.skip(decode(cur)->len as int));
                done = done.push(decode(cur)->frame);
            }
            i = i + 1;
        }
        Ok(())
    } else {
        Err(type_byte_error(tag))
    }
}

/// Reads the message at the read position.
fn parse_at(src: &mut Cursor) -> (r: Result<Frame, Error>)
    ensures
        final(src).bytes() == old(src).bytes(),
        match decode(old(src).rest()) {
            Decoded::Complete { frame, len } => {
                &&& r matches Ok(f) && f@ == frame
                &&& final(src).index() == old(src).index() + len
            },
            Decoded::Incomplete => r matches Err(e) && e is Incomplete,
            Decoded::Malformed(fault) => r matches Err(Error::Other(msg)) && msg@ == fault_text(
                fault,
            ),
        },
    decreases old(src).rest().len(),
{
    let ghost s = src.rest();
    let tag = get_u8(src)?;
    let ghost body = src.rest();
    if tag == TAG_SIMPLE || tag == TAG_ERROR {
        let line = get_line(src)?;
        match decode_text(line) {
            Some(text) => if tag == TAG_SIMPLE {
                Ok(Frame::Simple(text))
            } else {
                Ok(Frame::Error(text))
            },
            None => Err(format_error()),
        }
    } else if tag == TAG_USIZE {
        let v = get_decimal(src)?;
        Ok(Frame::USize(v))
    } else if tag == TAG_INTEGER {
        let v = get_signed_decimal(src)?;
        Ok(Frame::Integer(v))
    } else if tag == TAG_BULK {
        let first = peek_u8(src)?;
        if first == 45 {
            let line = get_line(src)?;
            if is_null_line(line) {
                Ok(Frame::Null)
            } else {
                Err(format_error())
            }
        } else {
            let size = get_decimal(src)?;
            if size > usize::MAX as u64 {
                return Err(format_error());
            }
            let left = src.remaining();
            if left < 2 || left - 2 < size as usize {
                return Err(Error::Incomplete);
            }
            let from = src.position();
            let buf = src.get_ref();
            let total = buf.len();
            let data = Bytes::copy_from_slice(slice_subrange(buf, from, from + size as usize));
            proof {
                let n = line_len(body).unwrap();
                assert(contents(data) =~= body.subrange(n as int + 2, n as int + 2 + size as int));
            }
            skip(src, size as usize + 2)?;
            Ok(Frame::Bulk(data))
        }
    } else if tag == TAG_ARRAY {
        let count = get_decimal(src)?;
        if count > usize::MAX as u64 {
            return Err(format_error());
        }
        let ghost first = src.rest();
        let ghost first_index = src.index();
        let mut out: Vec<Frame> = Vec::new();
        let mut i: u64 = 0;
        proof {
            lemma_line_len_some(body);
            assert(views(out@) + decode_items(first, count as nat)->items =~= decode_items(
                first,
                count as nat,
            )->items);
        }
        while i < count
            invariant
                src.bytes() == old(src).bytes(),
                i <= count,
                first_index <= src.index(),
                old(src).index() < first_index,
                s == old(src).rest(),
                decode(s) == array_of(
                    (first_index - old(src).index()) as nat,
                    decode_items(first, count as nat),
                ),
                decode_items(first, count as nat) == after_items(
                    views(out@),
                    (src.index() - first_index) as nat,
                    decode_items(src.rest(), (count - i) as nat),
                ),
            decreases count - i,
        {
            let ghost cur = src.rest();
            let ghost done = views(out@);
            proof {
                use_type_invariant(&*src);
                lemma_decode_bounds(cur);
                if decode(cur) is Complete {
                    lemma_decode_items_step(
                        done,
                        (src.index() - first_index) as nat,
                        cur,
                        (count - i) as nat,
                    );
                }
            }
            let item = parse_at(src)?;
            out.push(item);
            proof {
                assert(src.rest() =~= cur.skip(decode(cur)->len as int));
                assert(views(out@) =~= done.push(decode(cur)->frame));
            }
            i = i + 1;
        }
        proof {
            lemma_array_view(out);
        }
        Ok(Frame::Array(out))
    } else {
        Err(type_byte_error(tag))
    }
}

impl PartialEq for Frame {
    fn eq(&self, other: &Frame) -> (r: bool) {
        self.equals(other)
    }
}

impl PartialEqSpecImpl for Frame {
    open spec fn obeys_eq_spec() -> bool {
        true
    }

    open spec fn eq_spec(&self, other: &Frame) -> bool {
        self@ == other@
    }
}

impl Clone for Frame {
    fn clone(&self) -> (r: Frame)
        ensures
            r@ == self@,
    {
        self.duplicate()
    }
}

impl Frame {
    /// Whether two frames stand for the same message.
    pub fn equals(&self, other: &Frame) -> (r: bool)
        ensures
            r == (self@ == other@),
        decreases self,
    {
        match (self, other) {
            (Frame::Simple(a), Frame::Simple(b)) => same_text(a.as_str(), b.as_str()),
            (Frame::Error(a), Frame::Error(b)) => same_text(a.as_str(), b.as_str()),
            (Frame::USize(a), Frame::USize(b)) => *a == *b,
            (Frame::Integer(a), Frame::Integer(b)) => *a == *b,
            (Frame::Bulk(a), Frame::Bulk(b)) => {
                proof {
                    lemma_lex_irreflexive(contents(*a));
                }
                match compare(a.as_ref(), b.as_ref()) {
                    Order::Equal => true,
                    _ => false,
                }
            },
            (Frame::Null, Frame::Null) => true,
            (Frame::Array(a), Frame::Array(b)) => {
                proof {
                    lemma_array_view(*a);
                    lemma_array_view(*b);
                }
                if a.len() != b.len() {
                    assert(views(a@).len() != views(b@).len());
                    return false;
                }
                let mut i: usize = 0;
                while i < a.len()
                    invariant
                        i <= a@.len(),
                        a@.len() == b@.len(),
                        self == Frame::Array(*a),
                        self@ == FrameView::Array(views(a@)),
                        other@ == FrameView::Array(views(b@)),
                        forall|j: int| 0 <= j < i ==> a@[j]@ == b@[j]@,
                    decreases a@.len() - i,
                {
                    if !a[i].equals(&b[i]) {
                        assert(views(a@)[i as int] != views(b@)[i as int]);
                        return false;
                    }
                    i = i + 1;
                }
                assert(views(a@) =~= views(b@));
                true
            },
            _ => false,
        }
    }

    /// A frame of its own that stands for the same message.
    pub fn duplicate(&self) -> (r: Frame)
        ensures
            r@ == self@,
        decreases self,
    {
        match self {
            Frame::Simple(text) => Frame::Simple(text.clone()),
            Frame::Error(text) => Frame::Error(text.clone()),
            Frame::USize(v) => Frame::USize(*v),
            Frame::Integer(v) => Frame::Integer(*v),
            Frame::Bulk(data) => Frame::Bulk(data.clone()),
            Frame::Null => Frame::Null,
            Frame::Array(items) => {
                let mut out: Vec<Frame> = Vec::new();
                let mut i: usize = 0;
                while i < items.len()
                    invariant
                        i <= items@.len(),
                        self == Frame::Array(*items),
                        out@.len() == i,
                        forall|j: int| 0 <= j < i ==> out@[j]@ == items@[j]@,
                    decreases items@.len() - i,
                {
                    assert(self->Array_0 == *items);
                    out.push(items[i].duplicate());
                    i = i + 1;
                }
                proof {
                    lemma_array_view(*items);
                    lemma_array_view(out);
                    assert(views(out@) =~= views(items@));
                }
                Frame::Array(out)
            },
        }
    }

    /// Tells whether the frame is read back from the bytes that it is written as: no
    /// text in it holds a CRLF.
    pub fn reads_back(&self) -> (r: bool)
        ensures
            r == wire_safe(self@),
        decreases self,
    {
        match self {
            Frame::Simple(text) => !has_crlf(text.as_str().as_bytes()),
            Frame::Error(text) => !has_crlf(text.as_str().as_bytes()),
            Frame::USize(_) => true,
            Frame::Integer(_) => true,
            Frame::Bulk(data) => {
                // A slice is never longer than `usize::MAX`.
                let bytes: &[u8] = data.as_ref();
                bytes.len() <= usize::MAX
            },
            Frame::Null => true,
            Frame::Array(items) => {
                proof {
                    lemma_array_view(*items);
                }
                let mut i: usize = 0;
                while i < items.len()
                    invariant
                        i <= items@.len(),
                        self == Frame::Array(*items),
                        self@ == FrameView::Array(views(items@)),
                        forall|j: int| 0 <= j < i ==> wire_safe(#[trigger] views(items@)[j]),
                    decreases items@.len() - i,
                {
                    if !items[i].reads_back() {
                        assert(!wire_safe(views(items@)[i as int]));
                        return false;
                    }
                    i = i + 1;
                }
                true
            },
        }
    }

    /// Whether the frame is the text `other`: a simple string with that text, or a bulk
    /// string with its bytes.
    pub fn eq_str(&self, other: &str) -> (r: bool)
        ensures
            r == is_text(self@, other@),
    {
        match self {
            Frame::Simple(s) => same_text(s.as_str(), other),
            Frame::Bulk(s) => {
                proof {
                    lemma_lex_irreflexive(contents(*s));
                }
                match compare(s.as_ref(), other.as_bytes()) {
                    Order::Equal => true,
                    _ => false,
                }
            },
            _ => false,
        }
    }

    /// Appends the frame, as it is shown to a person, to `out`.
    pub fn show(&self, out: &mut String)
        ensures
            final(out)@ == old(out)@ + shown(self@),
        decreases self,
    {
        match self {
            Frame::Simple(response) => {
                out.append(response.as_str());
            },
            Frame::Error(msg) => {
                out.append("error: ");
                out.append(msg.as_str());
            },
            Frame::USize(num) => {
                push_decimal(*num, out);
            },
            Frame::Integer(num) => {
                push_signed_decimal(*num, out);
            },
            Frame::Bulk(msg) => match decode_text(msg.as_ref()) {
                Some(text) => {
                    out.append(text.as_str());
                },
                None => {
                    let text = bytes_debug(msg);
                    out.append(text.as_str());
                },
            },
            Frame::Null => {
                out.append("(nil)");
            },
            Frame::Array(parts) => {
                proof {
                    lemma_array_view(*parts);
                }
                let ghost items = views(parts@);
                let mut i: usize = 0;
                while i < parts.len()
                    invariant
                        i <= parts@.len(),
                        self == Frame::Array(*parts),
                        items == views(parts@),
                        out@ == old(out)@ + shown_items(items, i as nat),
                    decreases parts@.len() - i,
                {
                    if i > 0 {
                        out.append(" ");
                    }
                    assert(self->Array_0 == *parts);
                    parts[i].show(out);
                    i = i + 1;
                }
            },
        }
    }

    /// The frame as it is shown to a person.
    pub fn to_text(&self) -> (text: String)
        ensures
            text@ == shown(self@),
    {
        let mut text = String::new();
        self.show(&mut text);
        text
    }

    /// The text of the error for a frame that was not expected.
    pub fn to_error(&self) -> (text: String)
        ensures
            text@ == unexpected_text(self@),
    {
        let mut text = "unexpected frame: ".to_string();
        self.show(&mut text);
        text
    }

    /// An array without items.
    pub fn array() -> (f: Frame)
        ensures
            f@ == FrameView::Array(Seq::empty()),
    {
        let items: Vec<Frame> = Vec::new();
        proof {
            lemma_array_view(items);
            assert(views(items@) =~= Seq::<FrameView>::empty());
        }
        Frame::Array(items)
    }

    /// Appends a bulk string to an array.
    pub fn push_bulk(&mut self, bytes: Bytes)
        requires
            old(self)@ is Array,
        ensures
            final(self)@ == FrameView::Array(
                old(self)@->Array_0.push(FrameView::Bulk(contents(bytes))),
            ),
    {
        self.push_frame(Frame::Bulk(bytes));
    }

    /// Appends an unsigned integer to an array.
    pub fn push_u64(&mut self, value: u64)
        requires
            old(self)@ is Array,
        ensures
            final(self)@ == FrameView::Array(old(self)@->Array_0.push(FrameView::USize(value))),
    {
        self.push_frame(Frame::USize(value));
    }

    /// Appends a signed integer to an array.
    pub fn push_i64(&mut self, value: i64)
        requires
            old(self)@ is Array,
        ensures
            final(self)@ == FrameView::Array(old(self)@->Array_0.push(FrameView::Integer(value))),
    {
        self.push_frame(Frame::Integer(value));
    }

    /// Appends a message to an array.
    pub fn push_frame(&mut self, item: Frame)
        requires
            old(self)@ is Array,
        ensures
            final(self)@ == FrameView::Array(old(self)@->Array_0.push(item@)),
    {
        match self {
            Frame::Array(vec) => {
                proof {
                    lemma_array_view(*vec);
                }
                let ghost before = views(vec@);
                vec.push(item);
                proof {
                    lemma_array_view(*vec);
                    assert(views(vec@) =~= before.push(item@));
                }
            },
            _ => {},
        }
    }

    /// Tells whether a whole message starts at the read position, and if so moves the
    /// position behind it. Otherwise the position stays where it was.
    pub fn check(src: &mut Cursor) -> (r: Result<(), Error>)
        ensures
            final(src).bytes() == old(src).bytes(),
            match decode(old(src).rest()) {
                Decoded::Complete { frame, len } => {
                    &&& r is Ok
                    &&& final(src).index() == old(src).index() + len
                },
                Decoded::Incomplete => r matches Err(e) && e is Incomplete && final(src).index()
                    == old(src).index(),
                Decoded::Malformed(fault) => r matches Err(Error::Other(msg)) && msg@
                    == fault_text(fault) && final(src).index() == old(src).index(),
            },
    {
        let start = src.position();
        match check_at(src) {
            Ok(()) => Ok(()),
            Err(e) => {
                src.set_position(start);
                Err(e)
            },
        }
    }

    /// Reads the message that starts at the read position and moves the position
    /// behind it. Where there is none, the position stays where it was.
    pub fn parse(src: &mut Cursor) -> (r: Result<Frame, Error>)
        ensures
            final(src).bytes() == old(src).bytes(),
            match decode(old(src).rest()) {
                Decoded::Complete { frame, len } => {
                &&& r matches Ok(f) && f@ == frame
                &&& final(src).index() == old(src).index() + len
            },
                Decoded::Incomplete => r matches Err(e) && e is Incomplete && final(src).index()
                    == old(src).index(),
                Decoded::Malformed(fault) => r matches Err(Error::Other(msg)) && msg@
                    == fault_text(fault) && final(src).index() == old(src).index(),
            },
    {
        let start = src.position();
        match parse_at(src) {
            Ok(frame) => Ok(frame),
            Err(e) => {
                src.set_position(start);
                Err(e)
            },
        }
    }
}

} // verus!
