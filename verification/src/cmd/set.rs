//! `set`: store a byte string under a key.

use crate::cmd::{bulk_of, ok, reply_of, request, table_after, wakes, Applied, CommandView};
use crate::entity::db::Db;
use crate::entity::frame::Frame;
use crate::entity::parse::{bytes_field, string_field, u64_field, Failure, Parse, ParseError};
use crate::entity::wire::FrameView;
use crate::utils::blob::contents;
use bytes::Bytes;
use vstd::prelude::*;

verus! {

/// A request to store a byte string under a key, for a number of milliseconds where
/// one is given and for good otherwise.
#[derive(Debug)]
pub struct SetCmd {
    key: String,
    value: Bytes,
    expire: Option<u64>,
}

impl View for SetCmd {
    type V = CommandView;

    closed spec fn view(&self) -> CommandView {
        CommandView::SetCmd { key: self.key@, value: contents(self.value), expire: self.expire }
    }
}

/// The command that the fields after its name ask for, and how many fields it takes:
/// the key, the value, and the milliseconds to keep it for or nothing.
pub open spec fn parsed(fields: Seq<FrameView>) -> Result<(CommandView, nat), Failure> {
    match string_field(fields, 0) {
        Ok(key) => match bytes_field(fields, 1) {
            Ok(value) => match u64_field(fields, 2) {
                Ok(ms) => Ok(
                    (CommandView::SetCmd { key: key, value: value, expire: Some(ms) }, 3nat),
                ),
                Err(Failure::End) => Ok(
                    (CommandView::SetCmd { key: key, value: value, expire: None }, 2nat),
                ),
                Err(e) => Err(e),
            },
            Err(e) => Err(e),
        },
        Err(e) => Err(e),
    }
}

impl SetCmd {
    /// Which kind of request this is.
    pub proof fn lemma_kind(&self)
        ensures
            self@ is SetCmd,
    {
    }

    /// The request to store `value` under `key`, for `expire` milliseconds where that
    /// is given.
    pub fn new(key: &str, value: Bytes, expire: Option<u64>) -> (cmd: SetCmd)
        ensures
            cmd@ == (CommandView::SetCmd { key: key@, value: contents(value), expire: expire }),
    {
        SetCmd { key: key.to_owned(), value, expire }
    }

    /// The key.
    pub fn key(&self) -> (key: &str)
        ensures
            self@ matches CommandView::SetCmd { key: k, .. } && k == key@,
    {
        self.key.as_str()
    }

    /// The value.
    pub fn value(&self) -> (value: &Bytes)
        ensures
            self@ matches CommandView::SetCmd { value: v, .. } && v == contents(*value),
    {
        &self.value
    }

    /// For how many milliseconds the value is to be kept.
    pub fn expire(&self) -> (expire: Option<u64>)
        ensures
            self@ matches CommandView::SetCmd { expire: e, .. } && e == expire,
    {
        self.expire
    }

    /// Reads the request from the fields that follow its name.
    pub fn parse_frames(parse: &mut Parse) -> (r: Result<SetCmd, ParseError>)
        ensures
            match parsed(old(parse).remaining()) {
                Ok((cmd, used)) => {
                    &&& r matches Ok(c) && c@ == cmd
                    &&& used <= old(parse).remaining().len()
                    &&& final(parse).remaining() == old(parse).remaining().skip(used as int)
                },
                Err(failure) => r matches Err(e) && e@ == failure,
            },
    {
        let key = parse.next_string()?;
        let value = parse.next_bytes()?;
        match parse.next_u64() {
            Ok(ms) => {
                Ok(SetCmd { key, value, expire: Some(ms) })
            },
            Err(ParseError::EndOfStream) => Ok(SetCmd { key, value, expire: None }),
            Err(e) => {
                Err(e)
            },
        }
    }

    /// Does to the engine what the request asks for, at the moment `now`, and gives the
    /// reply.
    pub fn apply(self, db: &mut Db, now: u64) -> (out: Applied)
        requires
            old(db).wf(),
        ensures
            final(db).wf(),
            final(db).closed() == old(db).closed(),
            final(db)@ == table_after(self@, old(db)@, now),
            out.reply@ == reply_of(self@, old(db)@),
            out.notify == wakes(self@, old(db)@, now),
    {
        let notify = db.set(self.key, self.value, self.expire, now);
        Applied { reply: ok(), notify }
    }

    /// The message that the request is sent as.
    pub fn into_frame(self) -> (frame: Frame)
        ensures
            frame@ == request(self@),
    {
        let mut frame = Frame::array();
        frame.push_bulk(bulk_of("set"));
        frame.push_bulk(bulk_of(self.key.as_str()));
        frame.push_bulk(self.value);
        match self.expire {
            Some(ms) => {
                frame.push_u64(ms);
            },
            None => {},
        }
        assert(frame@->Array_0 =~= request(self@)->Array_0);
        frame
    }
}

} // verus!
