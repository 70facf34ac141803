//! `push`: push items onto one end of a list.

use crate::cmd::{
    bulk_of, byte_texts, ok, push_bulks, reply_of, request, table_after, CommandView,
};
use crate::entity::db::{texts, Db};
use crate::entity::frame::Frame;
use crate::entity::parse::{
    Failure, Parse, ParseError, i64_field, lemma_string_fields_shift, string_field, string_fields,
    string_views,
};
use crate::entity::wire::FrameView;
use std::time::Duration;
use vstd::prelude::*;

verus! {

/// A request to push items onto the list under a key: at its back where `right`, at
/// its front otherwise.
#[derive(Debug)]
pub struct Push {
    key: String,
    value: Vec<String>,
    right: bool,
}

impl View for Push {
    type V = CommandView;

    closed spec fn view(&self) -> CommandView {
        CommandView::Push { key: self.key@, values: string_views(self.value@), right: self.right }
    }
}

/// How many items a count announces: the count itself, without its sign.
pub open spec fn announced(count: i64) -> nat {
    if count > 0 {
        count as nat
    } else {
        (-count) as nat
    }
}

/// The command that the fields after its name ask for, and how many fields it takes:
/// the key, the number of items, then the items. A number above zero asks for the back
/// of the list, any other for its front.
pub open spec fn parsed(fields: Seq<FrameView>) -> Result<(CommandView, nat), Failure> {
    match string_field(fields, 0) {
        Ok(key) => match i64_field(fields, 1) {
            Ok(count) => match string_fields(fields, 2, announced(count)) {
                Ok(value) => Ok(
                    (
                        CommandView::Push { key: key, values: value, right: count > 0 },
                        2 + announced(count),
                    ),
                ),
                Err(e) => Err(e),
            },
            Err(e) => Err(e),
        },
        Err(e) => Err(e),
    }
}

impl Push {
    /// Which kind of request this is.
    pub proof fn lemma_kind(&self)
        ensures
            self@ is Push,
    {
    }

    /// The request to push `value` onto the list under `key`.
    pub fn new(key: &str, value: Vec<String>, right: bool) -> (cmd: Push)
        ensures
            cmd@ == (CommandView::Push { key: key@, values: string_views(value@), right: right }),
    {
        Push { key: key.to_owned(), value, right }
    }

    /// The key.
    pub fn key(&self) -> (key: &str)
        ensures
            self@ matches CommandView::Push { key: k, .. } && k == key@,
    {
        self.key.as_str()
    }

    /// The items.
    pub fn value(&self) -> (value: &Vec<String>)
        ensures
            self@ matches CommandView::Push { values: v, .. } && v == string_views(value@),
    {
        &self.value
    }

    /// After how long the list expires: it never does.
    pub fn expire(&self) -> (r: Option<Duration>)
        ensures
            r is None,
    {
        None
    }

    /// Reads the request from the fields that follow its name.
    pub fn parse_frames(parse: &mut Parse) -> (r: Result<Push, ParseError>)
        ensures
            match parsed(old(parse).remaining()) {
                Ok((cmd, used)) => {
                    &&& r matches Ok(c) && c@ == cmd
                    &&& used <= old(parse).remaining().len()
                    &&& final(parse).remaining() == old(parse).remaining().skip(used as int)
                },
                Err(failure) => r matches Err(e) && e@ == failure,
            },
    {
        let ghost fields = parse.remaining();
        let key = parse.next_string()?;
        let lens = parse.next_i64()?;
        let right = lens > 0;
        let len: u64 = if lens > 0 {
            lens as u64
        } else if lens == i64::MIN {
            9223372036854775808u64
        } else {
            (-lens) as u64
        };
        proof {
            assert(fields.drop_first().drop_first() =~= fields.skip(2));
            lemma_string_fields_shift(fields, 2, len as nat);
        }
        let value = parse.next_strings(len)?;
        Ok(Push { key, value, right })
    }

    /// Does to the engine what the request asks for, and gives the reply.
    pub fn apply(self, db: &mut Db) -> (reply: Frame)
        requires
            old(db).wf(),
        ensures
            final(db).wf(),
            final(db).closed() == old(db).closed(),
            final(db)@ == table_after(self@, old(db)@, 0),
            reply@ == reply_of(self@, old(db)@),
    {
        assert(texts(self.value@) =~= byte_texts(string_views(self.value@)));
        db.push(self.key, self.value, self.right);
        ok()
    }

    /// The message that the request is sent as.
    pub fn into_frame(self) -> (frame: Frame)
        requires
            self@ matches CommandView::Push { values, .. } && values.len() <= i64::MAX,
        ensures
            frame@ == request(self@),
    {
        let mut frame = Frame::array();
        frame.push_bulk(bulk_of("push"));
        frame.push_bulk(bulk_of(self.key.as_str()));
        let mut len: i64 = self.value.len() as i64;
        if !self.right {
            len = -len;
        }
        frame.push_i64(len);
        push_bulks(&mut frame, &self.value);
        assert(frame@->Array_0 =~= request(self@)->Array_0);
        frame
    }
}

} // verus!
