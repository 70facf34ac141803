//! `pop`: take an item off one end of a list.

use crate::cmd::{bulk_of, reply_of, request, table_after, value_reply, CommandView};
use crate::entity::db::Db;
use crate::entity::frame::Frame;
use crate::entity::parse::{string_field, u64_field, Failure, Parse, ParseError};
use crate::entity::wire::FrameView;
use vstd::prelude::*;

verus! {

/// A request to take an item off the list under a key: the last where `right`, the
/// first otherwise.
#[derive(Debug)]
pub struct Pop {
    key: String,
    right: bool,
}

impl View for Pop {
    type V = CommandView;

    closed spec fn view(&self) -> CommandView {
        CommandView::Pop { key: self.key@, right: self.right }
    }
}

/// The command that the fields after its name ask for, and how many fields it takes:
/// the key, then a number that is zero for the front of the list.
pub open spec fn parsed(fields: Seq<FrameView>) -> Result<(CommandView, nat), Failure> {
    match string_field(fields, 0) {
        Ok(key) => match u64_field(fields, 1) {
            Ok(flag) => Ok((CommandView::Pop { key: key, right: flag != 0 }, 2nat)),
            Err(e) => Err(e),
        },
        Err(e) => Err(e),
    }
}

impl Pop {
    /// Which kind of request this is.
    pub proof fn lemma_kind(&self)
        ensures
            self@ is Pop,
    {
    }

    /// The request to take an item off the list under `key`.
    pub fn new(key: &str, right: bool) -> (cmd: Pop)
        ensures
            cmd@ == (CommandView::Pop { key: key@, right: right }),
    {
        Pop { key: key.to_owned(), right }
    }

    /// The key.
    pub fn key(&self) -> (key: &str)
        ensures
            self@ matches CommandView::Pop { key: k, .. } && k == key@,
    {
        self.key.as_str()
    }

    /// Reads the request from the fields that follow its name.
    pub fn parse_frames(parse: &mut Parse) -> (r: Result<Pop, ParseError>)
        ensures
            match parsed(old(parse).remaining()) {
                Ok((cmd, used)) => {
                    &&& r matches Ok(c) && c@ == cmd
                    &&& used <= old(parse).remaining().len()
                    &&& final(parse).remaining() == old(parse).remaining().skip(used as int)
                },
                Err(failure) => r matches Err(e) && e@ == failure,
            },
    {
        let key = parse.next_string()?;
        let flag = parse.next_u64()?;
        Ok(Pop { key, right: flag != 0 })
    }

    /// Does to the engine what the request asks for, and gives the reply.
    pub fn apply(self, db: &mut Db) -> (reply: Frame)
        requires
            old(db).wf(),
        ensures
            final(db).wf(),
            final(db).closed() == old(db).closed(),
            final(db)@ == table_after(self@, old(db)@, 0),
            reply@ == reply_of(self@, old(db)@),
    {
        value_reply(db.pop(self.key.as_str(), self.right))
    }

    /// The message that the request is sent as.
    pub fn into_frame(self) -> (frame: Frame)
        ensures
            frame@ == request(self@),
    {
        let mut frame = Frame::array();
        frame.push_bulk(bulk_of("pop"));
        frame.push_bulk(bulk_of(self.key.as_str()));
        let flag: u64 = if self.right {
            1
        } else {
            0
        };
        frame.push_u64(flag);
        assert(frame@->Array_0 =~= request(self@)->Array_0);
        frame
    }
}

} // verus!
