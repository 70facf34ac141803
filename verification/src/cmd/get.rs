//! `get`: the byte string stored under a key

use crate::cmd::{bulk_of, reply_of, request, value_reply, CommandView};
use crate::entity::db::Db;
use crate::entity::frame::Frame;
use crate::entity::parse::{string_field, Failure, Parse, ParseError};
use crate::entity::wire::FrameView;
use vstd::prelude::*;

verus! {

/// A request for the byte string stored under a key.
#[derive(Debug)]
pub struct Get {
    key: String,
}

impl View for Get {
    type V = CommandView;

    closed spec fn view(&self) -> CommandView {
        CommandView::Get { key: self.key@ }
    }
}

/// The command that the fields after its name ask for, and how many fields it takes.
pub open spec fn parsed(fields: Seq<FrameView>) -> Result<(CommandView, nat), Failure> {
    match string_field(fields, 0) {
        Ok(key) => Ok((CommandView::Get { key: key }, 1nat)),
        Err(e) => Err(e),
    }
}

impl Get {
    /// Which kind of request this is.
    pub proof fn lemma_kind(&self)
        ensures
            self@ is Get,
    {
    }

    /// The request for the key `key`.
    pub fn new(key: &str) -> (cmd: Get)
        ensures
            cmd@ == (CommandView::Get { key: key@ }),
    {
        Get { key: key.to_owned() }
    }

    /// The key.
    pub fn key(&self) -> (key: &str)
        ensures
            self@ == (CommandView::Get { key: key@ }),
    {
        self.key.as_str()
    }

    /// Reads the request from the fields that follow its name.
    pub fn parse_frames(parse: &mut Parse) -> (r: Result<Get, ParseError>)
        ensures
            match parsed(old(parse).remaining()) {
                Ok((cmd, used)) => {
                    &&& r matches Ok(c) && c@ == cmd
                    &&& used <= old(parse).remaining().len()
                    &&& final(parse).remaining() == old(parse).remaining().skip(used as int)
                },
                Err(failure) => r matches Err(e) && e@ == failure,
            },
    {
        let key = parse.next_string()?;
        Ok(Get { key })
    }

    /// Gives the reply.
    pub fn apply(self, db: &Db) -> (reply: Frame)
        requires
            db.wf(),
        ensures
            reply@ == reply_of(self@, db@),
    {
        value_reply(db.get(self.key.as_str()))
    }

    /// The message that the request is sent as.
    pub fn into_frame(self) -> (frame: Frame)
        ensures
            frame@ == request(self@),
    {
        let mut frame = Frame::array();
        frame.push_bulk(bulk_of("get"));
        frame.push_bulk(bulk_of(self.key.as_str()));
        assert(frame@->Array_0 =~= request(self@)->Array_0);
        frame
    }
}

} // verus!
