//! `sadd`: add items to the set under a key

use crate::cmd::{bulk_of, byte_texts, ok, push_bulks, reply_of, request, table_after, CommandView};
use crate::entity::db::{texts, Db};
use crate::entity::frame::Frame;
use crate::entity::parse::{
    lemma_string_fields_shift, string_field, string_fields, string_views, Failure, Parse,
    ParseError,
    u64_field,
};
use crate::entity::wire::FrameView;
use vstd::prelude::*;

verus! {

/// A request to add items to the set under a key.
#[derive(Debug)]
pub struct Sadd {
    key: String,
    datas: Vec<String>,
}

impl View for Sadd {
    type V = CommandView;

    closed spec fn view(&self) -> CommandView {
        CommandView::Sadd { key: self.key@, datas: string_views(self.datas@) }
    }
}

/// The command that the fields after its name ask for, and how many fields it takes:
/// the key, the number of items, then the items.
pub open spec fn parsed(fields: Seq<FrameView>) -> Result<(CommandView, nat), Failure> {
    match string_field(fields, 0) {
        Ok(key) => match u64_field(fields, 1) {
            Ok(count) => match string_fields(fields, 2, count as nat) {
                Ok(datas) => Ok((CommandView::Sadd { key: key, datas: datas }, 2 + count as nat)),
                Err(e) => Err(e),
            },
            Err(e) => Err(e),
        },
        Err(e) => Err(e),
    }
}

impl Sadd {
    /// Which kind of request this is.
    pub proof fn lemma_kind(&self)
        ensures
            self@ is Sadd,
    {
    }

    /// The request for the key `key` and the items `datas`.
    pub fn new(key: &str, datas: Vec<String>) -> (cmd: Sadd)
        ensures
            cmd@ == (CommandView::Sadd { key: key@, datas: string_views(datas@) }),
    {
        Sadd { key: key.to_owned(), datas }
    }

    /// The key.
    pub fn key(&self) -> (key: &str)
        ensures
            self@ matches CommandView::Sadd { key: k, .. } && k == key@,
    {
        self.key.as_str()
    }

    /// Reads the request from the fields that follow its name.
    pub fn parse_frames(parse: &mut Parse) -> (r: Result<Sadd, ParseError>)
        ensures
            match parsed(old(parse).remaining()) {
                Ok((cmd, used)) => {
                    &&& r matches Ok(c) && c@ == cmd
                    &&& used <= old(parse).remaining().len()
                    &&& final(parse).remaining() == old(parse).remaining().skip(used as int)
                },
                Err(failure) => r matches Err(e) && e@ == failure,
            },
    {
        let ghost fields = parse.remaining();
        let key = parse.next_string()?;
        let len = parse.next_u64()?;
        proof {
            assert(fields.drop_first().drop_first() =~= fields.skip(2));
            lemma_string_fields_shift(fields, 2, len as nat);
        }
        let datas = parse.next_strings(len)?;
        Ok(Sadd { key, datas })
    }

    /// Does to the engine what the request asks for, and gives the reply.
    pub fn apply(self, db: &mut Db) -> (reply: Frame)
        requires
            old(db).wf(),
        ensures
            final(db).wf(),
            final(db).closed() == old(db).closed(),
            final(db)@ == table_after(self@, old(db)@, 0),
            reply@ == reply_of(self@, old(db)@),
    {
        assert(texts(self.datas@) =~= byte_texts(string_views(self.datas@)));
        db.sadd(self.key, self.datas);
        ok()
    }

    /// The message that the request is sent as.
    pub fn into_frame(self) -> (frame: Frame)
        ensures
            frame@ == request(self@),
    {
        let mut frame = Frame::array();
        frame.push_bulk(bulk_of("sadd"));
        frame.push_bulk(bulk_of(self.key.as_str()));
        frame.push_u64(self.datas.len() as u64);
        push_bulks(&mut frame, &self.datas);
        assert(frame@->Array_0 =~= request(self@)->Array_0);
        frame
    }
}

} // verus!
