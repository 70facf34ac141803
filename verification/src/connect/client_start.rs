//! The client's side of a conversation, without its socket: what a reply means for the
//! request that it answers.

use crate::cmd::SetCmd;
use crate::cmd::{bulk_of, CommandView};
use crate::connect::connection::write_all;
use crate::entity::frame::{unexpected_text, Frame};

use crate::entity::wire::FrameView;
use crate::utils::blob::contents;
use bytes::Bytes;
use crate::utils::order::same_text;
use vstd::prelude::*;
use vstd::utf8::encode_utf8;

verus! {

/// A message that came over a channel.
#[derive(Debug)]
pub struct Message {
    pub channel: String,
    pub content: Bytes,
}

/// What the server answered: the text of an error where it reported one or ended the
/// stream, and the reply otherwise.
pub open spec fn response_of(response: Option<FrameView>) -> Result<FrameView, Seq<char>> {
    match response {
        Some(FrameView::Error(msg)) => Err(msg),
        Some(frame) => Ok(frame),
        None => Err("connection reset by server"@),
    }
}

/// The bytes that a reply carries, for a request that is answered with bytes.
pub open spec fn bytes_of(reply: FrameView) -> Result<Seq<u8>, Seq<char>> {
    match reply {
        FrameView::Simple(text) => Ok(encode_utf8(text)),
        FrameView::Bulk(data) => Ok(data),
        _ => Err(unexpected_text(reply)),
    }
}

/// The value that a reply carries, for a request that is answered with a value or with
/// the null marker.
pub open spec fn value_of(reply: FrameView) -> Result<Option<Seq<u8>>, Seq<char>> {
    match reply {
        FrameView::Simple(text) => Ok(Some(encode_utf8(text))),
        FrameView::Bulk(data) => Ok(Some(data)),
        FrameView::Null => Ok(None),
        _ => Err(unexpected_text(reply)),
    }
}

/// What a reply adds to the answer to a request for several keys: the value and a
/// comma, with `None` for a key that holds nothing.
pub open spec fn listed(reply: FrameView) -> Result<Seq<u8>, Seq<char>> {
    match reply {
        FrameView::Simple(text) => Ok(encode_utf8(text) + seq![44u8]),
        FrameView::Bulk(data) => Ok(data + seq![44u8]),
        FrameView::Null => Ok(seq![78u8, 111u8, 110u8, 101u8, 44u8]),
        _ => Err(unexpected_text(reply)),
    }
}

/// Tells what the server answered.
pub fn read_response(response: Option<Frame>) -> (r: Result<Frame, String>)
    ensures
        match response_of(
            match response {
                Some(frame) => Some(frame@),
                None => None,
            },
        ) {
            Ok(reply) => r matches Ok(frame) && frame@ == reply,
            Err(text) => r matches Err(msg) && msg@ == text,
        },
{
    match response {
        Some(Frame::Error(msg)) => Err(msg),
        Some(frame) => Ok(frame),
        None => Err("connection reset by server".to_string()),
    }
}

/// Reads the reply to a request that is answered with bytes.
pub fn bytes_reply(reply: Frame) -> (r: Result<Bytes, String>)
    ensures
        match bytes_of(reply@) {
            Ok(data) => r matches Ok(b) && contents(b) == data,
            Err(text) => r matches Err(msg) && msg@ == text,
        },
{
    match reply {
        Frame::Simple(value) => Ok(bulk_of(value.as_str())),
        Frame::Bulk(value) => Ok(value),
        frame => Err(frame.to_error()),
    }
}

/// Reads the reply to a request that is answered with a value or with the null marker.
pub fn value_reply(reply: Frame) -> (r: Result<Option<Bytes>, String>)
    ensures
        match value_of(reply@) {
            Ok(Some(data)) => r matches Ok(Some(b)) && contents(b) == data,
            Ok(None) => r matches Ok(None),
            Err(text) => r matches Err(msg) && msg@ == text,
        },
{
    match reply {
        Frame::Simple(value) => Ok(Some(bulk_of(value.as_str()))),
        Frame::Bulk(value) => Ok(Some(value)),
        Frame::Null => Ok(None),
        frame => Err(frame.to_error()),
    }
}

/// Reads the reply to a request that is answered with `OK`.
pub fn ok_reply(reply: Frame) -> (r: Result<(), String>)
    ensures
        match r {
            Ok(_) => reply@ == FrameView::Simple("OK"@),
            Err(msg) => reply@ != FrameView::Simple("OK"@) && msg@ == unexpected_text(reply@),
        },
{
    match reply {
        Frame::Simple(response) => {
            if same_text(response.as_str(), "OK") {
                Ok(())
            } else {
                Err(Frame::Simple(response).to_error())
            }
        },
        frame => Err(frame.to_error()),
    }
}

/// Adds the reply for one key to the answer to a request for several keys.
pub fn mget_reply(res: &mut Vec<u8>, reply: Frame) -> (r: Result<(), String>)
    ensures
        match listed(reply@) {
            Ok(part) => r is Ok && final(res)@ == old(res)@ + part,
            Err(text) => r matches Err(msg) && msg@ == text && final(res)@ == old(res)@,
        },
{
    match reply {
        Frame::Simple(value) => {
            write_all(res, value.as_str().as_bytes());
            res.push(44);
            Ok(())
        },
        Frame::Bulk(value) => {
            write_all(res, value.as_ref());
            res.push(44);
            Ok(())
        },
        Frame::Null => {
            res.push(78);
            res.push(111);
            res.push(110);
            res.push(101);
            res.push(44);
            Ok(())
        },
        frame => Err(frame.to_error()),
    }
}

/// The text of the error for key and value texts that do not come in pairs.
pub open spec fn unpaired_text() -> Seq<char> {
    unexpected_text(FrameView::Error("Wrong number of parameters"@))
}

/// The requests that store each value of `datas` under the key in front of it.
pub fn mset_requests(datas: &Vec<String>) -> (r: Result<Vec<SetCmd>, String>)
    ensures
        match r {
            Ok(cmds) => datas@.len() % 2 == 0 && cmds@.len() * 2 == datas@.len() && forall|i: int|
                0 <= i < cmds@.len() ==> (#[trigger] cmds@[i])@ == (CommandView::SetCmd {
                    key: datas@[2 * i]@,
                    value: encode_utf8(datas@[2 * i + 1]@),
                    expire: None,
                }),
            Err(msg) => datas@.len() % 2 == 1 && msg@ == unpaired_text(),
        },
{
    let l = datas.len();
    if l % 2 == 1 {
        return Err(Frame::Error("Wrong number of parameters".to_string()).to_error());
    }
    let mut cmds: Vec<SetCmd> = Vec::new();
    let mut i: usize = 0;
    while i < l
        invariant
            l == datas@.len(),
            l % 2 == 0,
            i % 2 == 0,
            i <= l,
            cmds@.len() * 2 == i,
            forall|j: int|
                0 <= j < cmds@.len() ==> (#[trigger] cmds@[j])@ == (CommandView::SetCmd {
                    key: datas@[2 * j]@,
                    value: encode_utf8(datas@[2 * j + 1]@),
                    expire: None,
                }),
        decreases l - i,
    {
        cmds.push(SetCmd::new(datas[i].as_str(), bulk_of(datas[i + 1].as_str()), None));
        i = i + 2;
    }
    Ok(cmds)
}

} // verus!
