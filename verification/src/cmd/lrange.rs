//! `lrange`: the items of a list with an index in a range.

use crate::cmd::{bulk_of, reply_of, request, value_reply, CommandView};
use crate::entity::db::Db;
use crate::entity::frame::Frame;
use crate::entity::parse::{string_field, u64_field, Failure, Parse, ParseError};
use crate::entity::wire::FrameView;
use vstd::prelude::*;

verus! {

/// A request for the items of the list under a key with an index from `start` to
/// `end`, both included.
#[derive(Debug)]
pub struct Lrange {
    key: String,
    start: u64,
    end: u64,
}

impl View for Lrange {
    type V = CommandView;

    closed spec fn view(&self) -> CommandView {
        CommandView::Lrange { key: self.key@, start: self.start, end: self.end }
    }
}

/// The command that the fields after its name ask for, and how many fields it takes:
/// the key, the first index and the last.
pub open spec fn parsed(fields: Seq<FrameView>) -> Result<(CommandView, nat), Failure> {
    match string_field(fields, 0) {
        Ok(key) => match u64_field(fields, 1) {
            Ok(start) => match u64_field(fields, 2) {
                Ok(end) => Ok((CommandView::Lrange { key: key, start: start, end: end }, 3nat)),
                Err(e) => Err(e),
            },
            Err(e) => Err(e),
        },
        Err(e) => Err(e),
    }
}

impl Lrange {
    /// Which kind of request this is.
    pub proof fn lemma_kind(&self)
        ensures
            self@ is Lrange,
    {
    }

    /// The request for the items of the list under `key` from `start` to `end`.
    pub fn new(key: &str, start: u64, end: u64) -> (cmd: Lrange)
        ensures
            cmd@ == (CommandView::Lrange { key: key@, start: start, end: end }),
    {
        Lrange { key: key.to_owned(), start, end }
    }

    /// The key.
    pub fn key(&self) -> (key: &str)
        ensures
            self@ matches CommandView::Lrange { key: k, .. } && k == key@,
    {
        self.key.as_str()
    }

    /// Reads the request from the fields that follow its name.
    pub fn parse_frames(parse: &mut Parse) -> (r: Result<Lrange, ParseError>)
        ensures
            match parsed(old(parse).remaining()) {
                Ok((cmd, used)) => {
                    &&& r matches Ok(c) && c@ == cmd
                    &&& used <= old(parse).remaining().len()
                    &&& final(parse).remaining() == old(parse).remaining().skip(used as int)
                },
                Err(failure) => r matches Err(e) && e@ == failure,
            },
    {
        let key = parse.next_string()?;
        let start = parse.next_u64()?;
        let end = parse.next_u64()?;
        Ok(Lrange { key, start, end })
    }

    /// Gives the reply.
    pub fn apply(self, db: &Db) -> (reply: Frame)
        requires
            db.wf(),
        ensures
            reply@ == reply_of(self@, db@),
    {
        value_reply(db.lrange(self.key.as_str(), self.start, self.end))
    }

    /// The message that the request is sent as.
    pub fn into_frame(self) -> (frame: Frame)
        ensures
            frame@ == request(self@),
    {
        let mut frame = Frame::array();
        frame.push_bulk(bulk_of("lrange"));
        frame.push_bulk(bulk_of(self.key.as_str()));
        frame.push_u64(self.start);
        frame.push_u64(self.end);
        assert(frame@->Array_0 =~= request(self@)->Array_0);
        frame
    }
}

} // verus!
