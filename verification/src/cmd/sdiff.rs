//! `sdiff`: what is in the first of several sets and in none of the others

use crate::cmd::{bulk_of, push_bulks, reply_of, request, value_reply, CommandView};
use crate::entity::db::Db;
use crate::entity::frame::Frame;
use crate::entity::parse::{
    Failure, Parse, ParseError, lemma_string_fields_shift, string_fields, string_views, u64_field,
};
use crate::entity::wire::FrameView;
use vstd::prelude::*;

verus! {

/// A request for what is in the first of several sets and in none of the others.
#[derive(Debug)]
pub struct Sdiff {
    keys: Vec<String>,
}

impl View for Sdiff {
    type V = CommandView;

    closed spec fn view(&self) -> CommandView {
        CommandView::Sdiff { keys: string_views(self.keys@) }
    }
}

/// The command that the fields after its name ask for, and how many fields it takes:
/// the number of keys, then the keys.
pub open spec fn parsed(fields: Seq<FrameView>) -> Result<(CommandView, nat), Failure> {
    match u64_field(fields, 0) {
        Ok(count) => match string_fields(fields, 1, count as nat) {
            Ok(keys) => Ok((CommandView::Sdiff { keys: keys }, 1 + count as nat)),
            Err(e) => Err(e),
        },
        Err(e) => Err(e),
    }
}

impl Sdiff {
    /// Which kind of request this is.
    pub proof fn lemma_kind(&self)
        ensures
            self@ is Sdiff,
    {
    }

    /// The request for the sets under `keys`.
    pub fn new(keys: Vec<String>) -> (cmd: Sdiff)
        ensures
            cmd@ == (CommandView::Sdiff { keys: string_views(keys@) }),
    {
        Sdiff { keys }
    }

    /// The keys.
    pub fn keys(&self) -> (keys: &Vec<String>)
        ensures
            self@ == (CommandView::Sdiff { keys: string_views(keys@) }),
    {
        &self.keys
    }

    /// Reads the request from the fields that follow its name.
    pub fn parse_frames(parse: &mut Parse) -> (r: Result<Sdiff, ParseError>)
        ensures
            match parsed(old(parse).remaining()) {
                Ok((cmd, used)) => {
                    &&& r matches Ok(c) && c@ == cmd
                    &&& used <= old(parse).remaining().len()
                    &&& final(parse).remaining() == old(parse).remaining().skip(used as int)
                },
                Err(failure) => r matches Err(e) && e@ == failure,
            },
    {
        let ghost fields = parse.remaining();
        let len = parse.next_u64()?;
        proof {
            lemma_string_fields_shift(fields, 1, len as nat);
        }
        let keys = parse.next_strings(len)?;
        Ok(Sdiff { keys })
    }

    /// Gives the reply.
    pub fn apply(self, db: &Db) -> (reply: Frame)
        requires
            db.wf(),
        ensures
            reply@ == reply_of(self@, db@),
    {
        value_reply(db.sdiff(&self.keys))
    }

    /// The message that the request is sent as.
    pub fn into_frame(self) -> (frame: Frame)
        ensures
            frame@ == request(self@),
    {
        let mut frame = Frame::array();
        frame.push_bulk(bulk_of("sdiff"));
        frame.push_u64(self.keys.len() as u64);
        push_bulks(&mut frame, &self.keys);
        assert(frame@->Array_0 =~= request(self@)->Array_0);
        frame
    }
}

} // verus!
