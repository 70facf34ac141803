//! Reading the fields of a command, one after the other.

use crate::entity::frame::{views, Frame};
use crate::entity::wire::FrameView;
use crate::utils::blob::contents;
use crate::utils::decimal::{atoi_i64, atoi_u64, lenient_i64, lenient_u64};
use crate::utils::text::decode_text;
use bytes::Bytes;
use vstd::prelude::*;
use vstd::utf8::{decode_utf8, encode_utf8, valid_utf8};

verus! {

/// Why a field could not be read.
#[derive(Debug)]
pub enum ParseError {
    /// There is no field left.
    EndOfStream,
    /// The field is not what was asked for; the text says why.
    Other(String),
}

/// Why a field could not be read, as a mathematical value.
pub enum Failure {
    /// There is no field left.
    End,
    /// The field is not what was asked for; the text says why.
    Bad(Seq<char>),
}

impl View for ParseError {
    type V = Failure;

    open spec fn view(&self) -> Failure {
        match self {
            ParseError::EndOfStream => Failure::End,
            ParseError::Other(msg) => Failure::Bad(msg@),
        }
    }
}

/// The text of a fault.
pub open spec fn failure_text(fault: Failure) -> Seq<char> {
    match fault {
        Failure::End => "protocol error; unexpected end of stream"@,
        Failure::Bad(msg) => msg,
    }
}

impl ParseError {
    /// The text of the error.
    pub fn to_text(&self) -> (text: String)
        ensures
            text@ == failure_text(self@),
    {
        match self {
            ParseError::EndOfStream => "protocol error; unexpected end of stream".to_string(),
            ParseError::Other(msg) => msg.clone(),
        }
    }
}

impl From<String> for ParseError {
    fn from(src: String) -> (e: ParseError) {
        ParseError::Other(src)
    }
}

impl vstd::std_specs::convert::FromSpecImpl<String> for ParseError {
    open spec fn obeys_from_spec() -> bool {
        true
    }

    open spec fn from_spec(src: String) -> ParseError {
        ParseError::Other(src)
    }
}

/// The name of a message's kind.
pub open spec fn kind_name(f: FrameView) -> Seq<char> {
    match f {
        FrameView::Simple(_) => "simple"@,
        FrameView::Error(_) => "error"@,
        FrameView::USize(_) => "usize"@,
        FrameView::Integer(_) => "integer"@,
        FrameView::Bulk(_) => "bulk"@,
        FrameView::Null => "null"@,
        FrameView::Array(_) => "array"@,
    }
}

/// The text a field is read as: a simple string as it is, a bulk string where it is
/// valid UTF-8.
pub open spec fn as_string(f: FrameView) -> Result<Seq<char>, Failure> {
    match f {
        FrameView::Simple(text) => Ok(text),
        FrameView::Bulk(data) => if valid_utf8(data) {
            Ok(decode_utf8(data))
        } else {
            Err(Failure::Bad("protocol error; invalid string"@))
        },
        _ => Err(
            Failure::Bad(
                "protocol error; expected simple frame or bulk frame, got "@ + kind_name(f),
            ),
        ),
    }
}

/// The bytes a field is read as: those of a simple string or of a bulk string.
pub open spec fn as_bytes(f: FrameView) -> Result<Seq<u8>, Failure> {
    match f {
        FrameView::Simple(text) => Ok(encode_utf8(text)),
        FrameView::Bulk(data) => Ok(data),
        _ => Err(
            Failure::Bad(
                "protocol error; expected simple frame or bulk frame, got "@ + kind_name(f),
            ),
        ),
    }
}

/// The unsigned number a field is read as: that of an unsigned integer, or the one
/// that the text of a simple or bulk string starts with.
pub open spec fn as_u64(f: FrameView) -> Result<u64, Failure> {
    match f {
        FrameView::USize(v) => Ok(v),
        FrameView::Simple(text) => match lenient_u64(encode_utf8(text)) {
            Some(v) => Ok(v),
            None => Err(Failure::Bad("protocol error; invalid number"@)),
        },
        FrameView::Bulk(data) => match lenient_u64(data) {
            Some(v) => Ok(v),
            None => Err(Failure::Bad("protocol error; invalid number"@)),
        },
        _ => Err(Failure::Bad("protocol error; expected int frame but got "@ + kind_name(f))),
    }
}

/// The signed number a field is read as: that of a signed integer, or the one that
/// the text of a simple or bulk string starts with.
pub open spec fn as_i64(f: FrameView) -> Result<i64, Failure> {
    match f {
        FrameView::Integer(v) => Ok(v),
        FrameView::Simple(text) => match lenient_i64(encode_utf8(text)) {
            Some(v) => Ok(v),
            None => Err(Failure::Bad("protocol error; invalid number"@)),
        },
        FrameView::Bulk(data) => match lenient_i64(data) {
            Some(v) => Ok(v),
            None => Err(Failure::Bad("protocol error; invalid number"@)),
        },
        _ => Err(Failure::Bad("protocol error; expected int frame but got "@ + kind_name(f))),
    }
}

/// The field at index `i`, where there is one.
pub open spec fn field(fields: Seq<FrameView>, i: int) -> Result<FrameView, Failure> {
    if 0 <= i < fields.len() {
        Ok(fields[i])
    } else {
        Err(Failure::End)
    }
}

/// The field at index `i`, read as text.
pub open spec fn string_field(fields: Seq<FrameView>, i: int) -> Result<Seq<char>, Failure> {
    match field(fields, i) {
        Ok(f) => as_string(f),
        Err(e) => Err(e),
    }
}

/// The field at index `i`, read as bytes.
pub open spec fn bytes_field(fields: Seq<FrameView>, i: int) -> Result<Seq<u8>, Failure> {
    match field(fields, i) {
        Ok(f) => as_bytes(f),
        Err(e) => Err(e),
    }
}

/// The field at index `i`, read as an unsigned number.
pub open spec fn u64_field(fields: Seq<FrameView>, i: int) -> Result<u64, Failure> {
    match field(fields, i) {
        Ok(f) => as_u64(f),
        Err(e) => Err(e),
    }
}

/// The field at index `i`, read as a signed number.
pub open spec fn i64_field(fields: Seq<FrameView>, i: int) -> Result<i64, Failure> {
    match field(fields, i) {
        Ok(f) => as_i64(f),
        Err(e) => Err(e),
    }
}

/// The `count` fields from index `from` on, each read as text; the fault of the first
/// that cannot be read so.
pub open spec fn string_fields(fields: Seq<FrameView>, from: int, count: nat) -> Result<
    Seq<Seq<char>>,
    Failure,
>
    decreases count,
{
    if count == 0 {
        Ok(Seq::empty())
    } else {
        match string_field(fields, from) {
            Err(e) => Err(e),
            Ok(first) => match string_fields(fields, from + 1, (count - 1) as nat) {
                Err(e) => Err(e),
                Ok(more) => Ok(seq![first] + more),
            },
        }
    }
}

/// Reading fields of what is left of a sequence is reading the fields of the sequence
/// further on.
pub proof fn lemma_string_fields_from(fields: Seq<FrameView>, k: int, i: int, count: nat)
    requires
        0 <= k <= fields.len(),
        0 <= i,
    ensures
        string_fields(fields.skip(k), i, count) == string_fields(fields, k + i, count),
    decreases count,
{
    if count > 0 {
        lemma_string_fields_from(fields, k, i + 1, (count - 1) as nat);
    }
}

/// Reading fields from the start of what is left behind the first `k` is reading the
/// fields from index `k` on.
pub proof fn lemma_string_fields_shift(fields: Seq<FrameView>, k: int, count: nat)
    requires
        0 <= k <= fields.len(),
    ensures
        string_fields(fields.skip(k), 0, count) == string_fields(fields, k, count),
{
    lemma_string_fields_from(fields, k, 0, count);
}

/// The texts read first, followed by those read after them.
pub open spec fn with_front(done: Seq<Seq<char>>, more: Result<Seq<Seq<char>>, Failure>) -> Result<
    Seq<Seq<char>>,
    Failure,
> {
    match more {
        Ok(rest) => Ok(done + rest),
        Err(e) => Err(e),
    }
}

/// The texts of a sequence of strings.
pub open spec fn string_views(items: Seq<String>) -> Seq<Seq<char>> {
    Seq::new(items.len(), |i: int| items[i]@)
}

/// The name of a frame's kind.
pub fn kind_of(frame: &Frame) -> (r: &'static str)
    ensures
        r@ == kind_name(frame@),
{
    match frame {
        Frame::Simple(_) => "simple",
        Frame::Error(_) => "error",
        Frame::USize(_) => "usize",
        Frame::Integer(_) => "integer",
        Frame::Bulk(_) => "bulk",
        Frame::Null => "null",
        Frame::Array(_) => "array",
    }
}

/// The error that says `what` was expected and names the kind that was found.
fn unexpected(what: &str, frame: &Frame) -> (e: ParseError)
    ensures
        e@ == Failure::Bad(what@ + kind_name(frame@)),
{
    let mut msg = what.to_owned();
    msg.append(kind_of(frame));
    ParseError::Other(msg)
}

/// The fields of a command that are still to be read.
#[derive(Debug)]
pub struct Parse {
    /// The fields, the next one last.
    parts: Vec<Frame>,
}

impl Parse {
    /// The fields that are still to be read, the next one first.
    pub closed spec fn remaining(&self) -> Seq<FrameView> {
        Seq::new(self.parts@.len(), |i: int| self.parts@[self.parts@.len() - 1 - i]@)
    }

    /// Starts to read the fields of `frame`, which has to be an array.
    pub fn new(frame: Frame) -> (r: Result<Parse, ParseError>)
        ensures
            match frame@ {
                FrameView::Array(fields) => r matches Ok(parse) && parse.remaining() == fields,
                _ => r matches Err(e) && e@ == Failure::Bad(
                    "protocol error; expected array, got "@ + kind_name(frame@),
                ),
            },
    {
        match frame {
            Frame::Array(array) => {
                let mut array = array;
                let ghost fields = views(array@);
                let mut parts: Vec<Frame> = Vec::new();
                while array.len() > 0
                    invariant
                        parts@.len() + array@.len() == fields.len(),
                        forall|i: int| 0 <= i < array@.len() ==> array@[i]@ == fields[i],
                        forall|i: int|
                            0 <= i < parts@.len() ==> parts@[i]@ == fields[fields.len() - 1 - i],
                    decreases array@.len(),
                {
                    let item = array.pop().unwrap();
                    parts.push(item);
                }
                let parse = Parse { parts };
                Ok(parse)
            },
            frame => Err(unexpected("protocol error; expected array, got ", &frame)),
        }
    }

    /// Takes the next field.
    pub fn next(&mut self) -> (r: Result<Frame, ParseError>)
        ensures
            match r {
                Ok(frame) => old(self).remaining().len() > 0 && frame@ == old(self).remaining()[0]
                    && final(self).remaining() == old(self).remaining().drop_first(),
                Err(e) => {
                    &&& e@ == Failure::End
                    &&& old(self).remaining().len() == 0
                    &&& final(self).remaining() == old(self).remaining()
                },
            },
    {
        match self.parts.pop() {
            Some(frame) => {
                Ok(frame)
            },
            None => Err(ParseError::EndOfStream),
        }
    }

    /// Takes the next field as text.
    pub fn next_string(&mut self) -> (r: Result<String, ParseError>)
        ensures
            if old(self).remaining().len() == 0 {
                &&& r matches Err(e) && e@ == Failure::End
                &&& final(self).remaining() == old(self).remaining()
            } else {
                &&& final(self).remaining() == old(self).remaining().drop_first()
                &&& match as_string(old(self).remaining()[0]) {
                    Ok(text) => r matches Ok(s) && s@ == text,
                    Err(failure) => r matches Err(e) && e@ == failure,
                }
            },
    {
        match self.next()? {
            Frame::Simple(s) => Ok(s),
            Frame::Bulk(data) => match decode_text(data.as_ref()) {
                Some(s) => Ok(s),
                None => Err(ParseError::Other("protocol error; invalid string".to_string())),
            },
            frame => Err(
                unexpected("protocol error; expected simple frame or bulk frame, got ", &frame),
            ),
        }
    }

    /// Takes the next field as bytes.
    pub fn next_bytes(&mut self) -> (r: Result<Bytes, ParseError>)
        ensures
            if old(self).remaining().len() == 0 {
                &&& r matches Err(e) && e@ == Failure::End
                &&& final(self).remaining() == old(self).remaining()
            } else {
                &&& final(self).remaining() == old(self).remaining().drop_first()
                &&& match as_bytes(old(self).remaining()[0]) {
                    Ok(data) => r matches Ok(b) && contents(b) == data,
                    Err(failure) => r matches Err(e) && e@ == failure,
                }
            },
    {
        match self.next()? {
            Frame::Simple(s) => Ok(Bytes::copy_from_slice(s.as_str().as_bytes())),
            Frame::Bulk(data) => Ok(data),
            frame => Err(
                unexpected("protocol error; expected simple frame or bulk frame, got ", &frame),
            ),
        }
    }

    /// Takes the next field as an unsigned number.
    pub fn next_u64(&mut self) -> (r: Result<u64, ParseError>)
        ensures
            if old(self).remaining().len() == 0 {
                &&& r matches Err(e) && e@ == Failure::End
                &&& final(self).remaining() == old(self).remaining()
            } else {
                &&& final(self).remaining() == old(self).remaining().drop_first()
                &&& match as_u64(old(self).remaining()[0]) {
                    Ok(v) => r matches Ok(n) && n == v,
                    Err(failure) => r matches Err(e) && e@ == failure,
                }
            },
    {
        match self.next()? {
            Frame::USize(v) => Ok(v),
            Frame::Simple(data) => match atoi_u64(data.as_str().as_bytes()) {
                Some(v) => Ok(v),
                None => Err(ParseError::Other("protocol error; invalid number".to_string())),
            },
            Frame::Bulk(data) => match atoi_u64(data.as_ref()) {
                Some(v) => Ok(v),
                None => Err(ParseError::Other("protocol error; invalid number".to_string())),
            },
            frame => Err(unexpected("protocol error; expected int frame but got ", &frame)),
        }
    }

    /// Takes the next field as a signed number.
    pub fn next_i64(&mut self) -> (r: Result<i64, ParseError>)
        ensures
            if old(self).remaining().len() == 0 {
                &&& r matches Err(e) && e@ == Failure::End
                &&& final(self).remaining() == old(self).remaining()
            } else {
                &&& final(self).remaining() == old(self).remaining().drop_first()
                &&& match as_i64(old(self).remaining()[0]) {
                    Ok(v) => r matches Ok(n) && n == v,
                    Err(failure) => r matches Err(e) && e@ == failure,
                }
            },
    {
        match self.next()? {
            Frame::Integer(v) => Ok(v),
            Frame::Simple(data) => match atoi_i64(data.as_str().as_bytes()) {
                Some(v) => Ok(v),
                None => Err(ParseError::Other("protocol error; invalid number".to_string())),
            },
            Frame::Bulk(data) => match atoi_i64(data.as_ref()) {
                Some(v) => Ok(v),
                None => Err(ParseError::Other("protocol error; invalid number".to_string())),
            },
            frame => Err(unexpected("protocol error; expected int frame but got ", &frame)),
        }
    }

    /// Takes the next `count` fields as texts.
    pub fn next_strings(&mut self, count: u64) -> (r: Result<Vec<String>, ParseError>)
        ensures
            match string_fields(old(self).remaining(), 0, count as nat) {
                Ok(texts) => {
                    &&& r matches Ok(v) && string_views(v@) == texts
                    &&& count <= old(self).remaining().len()
                    &&& final(self).remaining() == old(self).remaining().skip(count as int)
                },
                Err(failure) => r matches Err(e) && e@ == failure,
            },
    {
        let ghost all = self.remaining();
        let mut out: Vec<String> = Vec::new();
        let mut i: u64 = 0;
        while i < count
            invariant
                i <= count,
                i <= all.len(),
                all == old(self).remaining(),
                self.remaining() == all.skip(i as int),
                string_fields(all, 0, count as nat) == with_front(
                    string_views(out@),
                    string_fields(all, i as int, (count - i) as nat),
                ),
            decreases count - i,
        {
            let ghost done = string_views(out@);
            proof {
                match string_field(all, i as int) {
                    Ok(first) => {
                        match string_fields(all, i + 1, (count - i - 1) as nat) {
                            Ok(more) => {
                                assert(done + (seq![first] + more) =~= done.push(first) + more);
                            },
                            Err(_) => {},
                        }
                    },
                    Err(e) => {
                        assert(string_fields(all, i as int, (count - i) as nat) == Err::<
                            Seq<Seq<char>>,
                            Failure,
                        >(e));
                    },
                }
            }
            let item = self.next_string()?;
            out.push(item);
            proof {
                assert(string_views(out@) =~= done.push(item@));
            }
            i = i + 1;
        }
        Ok(out)
    }

    /// Makes sure that no field is left.
    pub fn finish(&mut self) -> (r: Result<(), ParseError>)
        ensures
            final(self).remaining() == old(self).remaining(),
            match r {
                Ok(_) => old(self).remaining().len() == 0,
                Err(e) => old(self).remaining().len() > 0 && e@ == Failure::Bad(
                    "protocol error; expected end of frame, but there was more"@,
                ),
            },
    {
        if self.parts.len() == 0 {
            Ok(())
        } else {
            Err(
                ParseError::Other(
                    "protocol error; expected end of frame, but there was more".to_string(),
                ),
            )
        }
    }
}

} // verus!
