//! `ping`: ask for a sign of life.

use crate::cmd::{bulk_of, reply_of, request, CommandView};
use crate::entity::frame::Frame;
use crate::entity::parse::{bytes_field, Failure, Parse, ParseError};
use crate::entity::wire::FrameView;
use crate::utils::blob::contents;
use bytes::Bytes;
use crate::entity::db::Table;
use vstd::prelude::*;

verus! {

/// A request for a sign of life, which may carry bytes to send back.
#[derive(Debug)]
pub struct Ping {
    msg: Option<Bytes>,
}

impl View for Ping {
    type V = CommandView;

    closed spec fn view(&self) -> CommandView {
        CommandView::Ping {
            msg: match self.msg {
                Some(b) => Some(contents(b)),
                None => None,
            },
        }
    }
}

impl Default for Ping {
    fn default() -> (cmd: Ping)
        ensures
            cmd@ == (CommandView::Ping { msg: None }),
    {
        Ping { msg: None }
    }
}

/// The command that the fields after its name ask for, and how many fields it takes:
/// the bytes to send back, or nothing.
pub open spec fn parsed(fields: Seq<FrameView>) -> Result<(CommandView, nat), Failure> {
    match bytes_field(fields, 0) {
        Ok(data) => Ok((CommandView::Ping { msg: Some(data) }, 1nat)),
        Err(Failure::End) => Ok((CommandView::Ping { msg: None }, 0nat)),
        Err(e) => Err(e),
    }
}

impl Ping {
    /// Which kind of request this is.
    pub proof fn lemma_kind(&self)
        ensures
            self@ is Ping,
    {
    }

    /// The request that carries `msg`.
    pub fn new(msg: Option<Bytes>) -> (cmd: Ping)
        ensures
            cmd@ == (CommandView::Ping {
                msg: match msg {
                    Some(b) => Some(contents(b)),
                    None => None,
                },
            }),
    {
        Ping { msg }
    }

    /// Reads the request from the fields that follow its name.
    pub fn parse_frames(parse: &mut Parse) -> (r: Result<Ping, ParseError>)
        ensures
            match parsed(old(parse).remaining()) {
                Ok((cmd, used)) => {
                    &&& r matches Ok(c) && c@ == cmd
                    &&& used <= old(parse).remaining().len()
                    &&& final(parse).remaining() == old(parse).remaining().skip(used as int)
                },
                Err(failure) => r matches Err(e) && e@ == failure,
            },
    {
        match parse.next_bytes() {
            Ok(msg) => {
                Ok(Ping::new(Some(msg)))
            },
            Err(ParseError::EndOfStream) => {
                Ok(Ping::new(None))
            },
            Err(e) => Err(e),
        }
    }

    /// Gives the reply.
    pub fn apply(self) -> (reply: Frame)
        ensures
            forall|t: Table| reply@ == #[trigger] reply_of(self@, t),
    {
        match self.msg {
            None => Frame::Simple("PONG".to_string()),
            Some(msg) => Frame::Bulk(msg),
        }
    }

    /// The message that the request is sent as.
    pub fn into_frame(self) -> (frame: Frame)
        ensures
            frame@ == request(self@),
    {
        let mut frame = Frame::array();
        frame.push_bulk(bulk_of("ping"));
        match self.msg {
            Some(msg) => {
                frame.push_bulk(msg);
            },
            None => {},
        }
        assert(frame@->Array_0 =~= request(self@)->Array_0);
        frame
    }
}

} // verus!
