//! `sismember`: whether a value is in a set.

use crate::cmd::{bulk_of, reply_of, request, value_reply, CommandView};
use crate::entity::db::Db;
use crate::entity::frame::Frame;
use crate::entity::parse::{string_field, Failure, Parse, ParseError};
use crate::entity::wire::FrameView;
use vstd::prelude::*;

verus! {

/// A request to tell whether a value is in the set under a key.
#[derive(Debug)]
pub struct Sismember {
    key: String,
    value: String,
}

impl View for Sismember {
    type V = CommandView;

    closed spec fn view(&self) -> CommandView {
        CommandView::Sismember { key: self.key@, member: self.value@ }
    }
}

/// The command that the fields after its name ask for, and how many fields it takes:
/// the key, then the value.
pub open spec fn parsed(fields: Seq<FrameView>) -> Result<(CommandView, nat), Failure> {
    match string_field(fields, 0) {
        Ok(key) => match string_field(fields, 1) {
            Ok(value) => Ok((CommandView::Sismember { key: key, member: value }, 2nat)),
            Err(e) => Err(e),
        },
        Err(e) => Err(e),
    }
}

impl Sismember {
    /// Which kind of request this is.
    pub proof fn lemma_kind(&self)
        ensures
            self@ is Sismember,
    {
    }

    /// The request to tell whether `value` is in the set under `key`.
    pub fn new(key: &str, value: String) -> (cmd: Sismember)
        ensures
            cmd@ == (CommandView::Sismember { key: key@, member: value@ }),
    {
        Sismember { key: key.to_owned(), value }
    }

    /// Reads the request from the fields that follow its name.
    pub fn parse_frames(parse: &mut Parse) -> (r: Result<Sismember, ParseError>)
        ensures
            match parsed(old(parse).remaining()) {
                Ok((cmd, used)) => {
                    &&& r matches Ok(c) && c@ == cmd
                    &&& used <= old(parse).remaining().len()
                    &&& final(parse).remaining() == old(parse).remaining().skip(used as int)
                },
                Err(failure) => r matches Err(e) && e@ == failure,
            },
    {
        let key = parse.next_string()?;
        let value = parse.next_string()?;
        Ok(Sismember { key, value })
    }

    /// Gives the reply.
    pub fn apply(self, db: &Db) -> (reply: Frame)
        requires
            db.wf(),
        ensures
            reply@ == reply_of(self@, db@),
    {
        value_reply(db.sismember(self.key.as_str(), self.value.as_str()))
    }

    /// The message that the request is sent as.
    pub fn into_frame(self) -> (frame: Frame)
        ensures
            frame@ == request(self@),
    {
        let mut frame = Frame::array();
        frame.push_bulk(bulk_of("sismember"));
        frame.push_bulk(bulk_of(self.key.as_str()));
        frame.push_bulk(bulk_of(self.value.as_str()));
        assert(frame@->Array_0 =~= request(self@)->Array_0);
        frame
    }
}

} // verus!
