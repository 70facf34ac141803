//! `incrby`: add a number to the number stored under a key.

use crate::cmd::{bulk_of, incr_error_text, ok, reply_of, request, table_after, CommandView};
use crate::entity::db::{Db, IncrError};
use crate::entity::frame::Frame;
use crate::entity::parse::{i64_field, string_field, Failure, Parse, ParseError};
use crate::entity::wire::FrameView;
use vstd::prelude::*;

verus! {

/// A request to add a number to the number stored under a key.
#[derive(Debug)]
pub struct Incrby {
    key: String,
    value: i64,
}

impl View for Incrby {
    type V = CommandView;

    closed spec fn view(&self) -> CommandView {
        CommandView::Incrby { key: self.key@, delta: self.value }
    }
}

/// The command that the fields after its name ask for, and how many fields it takes:
/// the key, then the number to add.
pub open spec fn parsed(fields: Seq<FrameView>) -> Result<(CommandView, nat), Failure> {
    match string_field(fields, 0) {
        Ok(key) => match i64_field(fields, 1) {
            Ok(value) => Ok((CommandView::Incrby { key: key, delta: value }, 2nat)),
            Err(e) => Err(e),
        },
        Err(e) => Err(e),
    }
}

/// The reply that tells a client why no number was added.
fn error_reply(e: IncrError) -> (reply: Frame)
    ensures
        reply@ == FrameView::Error(incr_error_text(e)),
{
    let text = match e {
        IncrError::NoSuchKey => "ERR no such key",
        IncrError::WrongType => "WRONGTYPE Operation against a key holding the wrong kind of value",
        IncrError::NotANumber => "ERR value is not an integer or out of range",
        IncrError::Overflow => "ERR increment or decrement would overflow",
    };
    Frame::Error(text.to_string())
}

impl Incrby {
    /// Which kind of request this is.
    pub proof fn lemma_kind(&self)
        ensures
            self@ is Incrby,
    {
    }

    /// The request to add `value` to the number under `key`.
    pub fn new(key: &str, value: i64) -> (cmd: Incrby)
        ensures
            cmd@ == (CommandView::Incrby { key: key@, delta: value }),
    {
        Incrby { key: key.to_owned(), value }
    }

    /// The key.
    pub fn key(&self) -> (key: &str)
        ensures
            self@ matches CommandView::Incrby { key: k, .. } && k == key@,
    {
        self.key.as_str()
    }

    /// Reads the request from the fields that follow its name.
    pub fn parse_frames(parse: &mut Parse) -> (r: Result<Incrby, ParseError>)
        ensures
            match parsed(old(parse).remaining()) {
                Ok((cmd, used)) => {
                    &&& r matches Ok(c) && c@ == cmd
                    &&& used <= old(parse).remaining().len()
                    &&& final(parse).remaining() == old(parse).remaining().skip(used as int)
                },
                Err(failure) => r matches Err(e) && e@ == failure,
            },
    {
        let key = parse.next_string()?;
        let value = parse.next_i64()?;
        Ok(Incrby { key, value })
    }

    /// Does to the engine what the request asks for, and gives the reply.
    pub fn apply(self, db: &mut Db) -> (reply: Frame)
        requires
            old(db).wf(),
        ensures
            final(db).wf(),
            final(db).closed() == old(db).closed(),
            final(db)@ == table_after(self@, old(db)@, 0),
            reply@ == reply_of(self@, old(db)@),
    {
        match db.incrby(self.key.as_str(), self.value) {
            Ok(_) => ok(),
            Err(e) => error_reply(e),
        }
    }

    /// The message that the request is sent as.
    pub fn into_frame(self) -> (frame: Frame)
        ensures
            frame@ == request(self@),
    {
        let mut frame = Frame::array();
        frame.push_bulk(bulk_of("incrby"));
        frame.push_bulk(bulk_of(self.key.as_str()));
        frame.push_i64(self.value);
        assert(frame@->Array_0 =~= request(self@)->Array_0);
        frame
    }
}

} // verus!
