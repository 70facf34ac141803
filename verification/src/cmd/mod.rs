//! The commands: what a request asks for, how it is read from a message, and what it
//! does to the engine.

pub mod get;
pub mod incrby;
pub mod lrange;
pub mod ping;
pub mod pop;
pub mod push;
pub mod sadd;
pub mod scard;
pub mod sdiff;
pub mod set;
pub mod sinter;
pub mod sismember;
pub mod sismembers;
pub mod srem;
pub mod sunion;
pub mod unknown;

pub use get::Get;
pub use incrby::Incrby;
pub use lrange::Lrange;
pub use ping::Ping;
pub use pop::Pop;
pub use push::Push;
pub use sadd::Sadd;
pub use scard::Scard;
pub use sdiff::Sdiff;
pub use set::SetCmd;
pub use sinter::Sinter;
pub use sismember::Sismember;
pub use sismembers::Sismembers;
pub use srem::Srem;
pub use sunion::Sunion;
pub use unknown::Unknown;

use crate::entity::db::{
    after_incrby, after_pop, after_push, after_sadd, after_set, after_srem, all_members,
    cardinality, combination, incremented, membership, popped, ranged, removed_count, set_wakes,
    string_at, Db, IncrError, SetOp, Table,
};
use crate::entity::frame::Frame;
use crate::entity::parse::{Failure, Parse, ParseError, kind_name, string_field, string_views};
use crate::entity::wire::FrameView;
use crate::utils::blob::contents;
use crate::utils::order::same_text;
use crate::utils::text::{lowercase, to_lowercase};
use bytes::Bytes;
use vstd::prelude::*;
use vstd::utf8::encode_utf8;

verus! {

/// What a request asks for, as a mathematical value.
pub enum CommandView {
    Get { key: Seq<char> },
    SetCmd { key: Seq<char>, value: Seq<u8>, expire: Option<u64> },
    Ping { msg: Option<Seq<u8>> },
    Incrby { key: Seq<char>, delta: i64 },
    Push { key: Seq<char>, values: Seq<Seq<char>>, right: bool },
    Lrange { key: Seq<char>, start: u64, end: u64 },
    Pop { key: Seq<char>, right: bool },
    Unknown { name: Seq<char> },
    Sadd { key: Seq<char>, datas: Seq<Seq<char>> },
    Srem { key: Seq<char>, datas: Seq<Seq<char>> },
    Scard { key: Seq<char> },
    Sismember { key: Seq<char>, member: Seq<char> },
    Sismembers { key: Seq<char> },
    Sinter { keys: Seq<Seq<char>> },
    Sdiff { keys: Seq<Seq<char>> },
    Sunion { keys: Seq<Seq<char>> },
}

/// A request.
#[derive(Debug)]
pub enum Command {
    Get(Get),
    SetCmd(SetCmd),
    Ping(Ping),
    Incrby(Incrby),
    Push(Push),
    Lrange(Lrange),
    Pop(Pop),
    Unknown(Unknown),
    Sadd(Sadd),
    Srem(Srem),
    Scard(Scard),
    Sismember(Sismember),
    Sismembers(Sismembers),
    Sinter(Sinter),
    Sdiff(Sdiff),
    Sunion(Sunion),
}

impl View for Command {
    type V = CommandView;

    open spec fn view(&self) -> CommandView {
        match self {
            Command::Get(cmd) => cmd@,
            Command::SetCmd(cmd) => cmd@,
            Command::Ping(cmd) => cmd@,
            Command::Incrby(cmd) => cmd@,
            Command::Push(cmd) => cmd@,
            Command::Lrange(cmd) => cmd@,
            Command::Pop(cmd) => cmd@,
            Command::Unknown(cmd) => cmd@,
            Command::Sadd(cmd) => cmd@,
            Command::Srem(cmd) => cmd@,
            Command::Scard(cmd) => cmd@,
            Command::Sismember(cmd) => cmd@,
            Command::Sismembers(cmd) => cmd@,
            Command::Sinter(cmd) => cmd@,
            Command::Sdiff(cmd) => cmd@,
            Command::Sunion(cmd) => cmd@,
        }
    }
}

/// The bulk string that holds a text.
pub open spec fn bulk_text(text: Seq<char>) -> FrameView {
    FrameView::Bulk(encode_utf8(text))
}

/// The bulk strings that hold texts.
pub open spec fn bulk_texts(items: Seq<Seq<char>>) -> Seq<FrameView> {
    Seq::new(items.len(), |i: int| bulk_text(items[i]))
}

/// The bytes of texts.
pub open spec fn byte_texts(items: Seq<Seq<char>>) -> Seq<Seq<u8>> {
    Seq::new(items.len(), |i: int| encode_utf8(items[i]))
}

/// The reply that carries a value, or says that there is none.
pub open spec fn bulk_or_null(value: Option<Seq<u8>>) -> FrameView {
    match value {
        Some(data) => FrameView::Bulk(data),
        None => FrameView::Null,
    }
}

/// The reply to a change that was made.
pub open spec fn ok_reply() -> FrameView {
    FrameView::Simple("OK"@)
}

/// The text that tells a client why no number was added.
pub open spec fn incr_error_text(e: IncrError) -> Seq<char> {
    match e {
        IncrError::NoSuchKey => "ERR no such key"@,
        IncrError::WrongType => {
            "WRONGTYPE Operation against a key holding the wrong kind of value"@
        },
        IncrError::NotANumber => "ERR value is not an integer or out of range"@,
        IncrError::Overflow => "ERR increment or decrement would overflow"@,
    }
}

/// The message that a request is sent as.
pub open spec fn request(cmd: CommandView) -> FrameView {
    FrameView::Array(
        match cmd {
            CommandView::Get { key } => seq![bulk_text("get"@), bulk_text(key)],
            CommandView::SetCmd { key, value, expire } => {
                let head = seq![bulk_text("set"@), bulk_text(key), FrameView::Bulk(value)];
                match expire {
                    Some(ms) => head.push(FrameView::USize(ms)),
                    None => head,
                }
            },
            CommandView::Ping { msg } => match msg {
                Some(data) => seq![bulk_text("ping"@), FrameView::Bulk(data)],
                None => seq![bulk_text("ping"@)],
            },
            CommandView::Incrby { key, delta } => seq![
                bulk_text("incrby"@),
                bulk_text(key),
                FrameView::Integer(delta),
            ],
            CommandView::Push { key, values, right } => seq![
                bulk_text("push"@),
                bulk_text(key),
                FrameView::Integer(
                    if right {
                        values.len() as i64
                    } else {
                        (-values.len()) as i64
                    },
                ),
            ] + bulk_texts(values),
            CommandView::Lrange { key, start, end } => seq![
                bulk_text("lrange"@),
                bulk_text(key),
                FrameView::USize(start),
                FrameView::USize(end),
            ],
            CommandView::Pop { key, right } => seq![
                bulk_text("pop"@),
                bulk_text(key),
                FrameView::USize(
                    if right {
                        1u64
                    } else {
                        0u64
                    },
                ),
            ],
            CommandView::Unknown { name } => seq![bulk_text(name)],
            CommandView::Sadd { key, datas } => seq![
                bulk_text("sadd"@),
                bulk_text(key),
                FrameView::USize(datas.len() as u64),
            ] + bulk_texts(datas),
            CommandView::Srem { key, datas } => seq![
                bulk_text("srem"@),
                bulk_text(key),
                FrameView::USize(datas.len() as u64),
            ] + bulk_texts(datas),
            CommandView::Scard { key } => seq![bulk_text("scard"@), bulk_text(key)],
            CommandView::Sismember { key, member } => seq![
                bulk_text("sismember"@),
                bulk_text(key),
                bulk_text(member),
            ],
            CommandView::Sismembers { key } => seq![bulk_text("sismembers"@), bulk_text(key)],
            CommandView::Sinter { keys } => seq![
                bulk_text("sinter"@),
                FrameView::USize(keys.len() as u64),
            ] + bulk_texts(keys),
            CommandView::Sdiff { keys } => seq![
                bulk_text("sdiff"@),
                FrameView::USize(keys.len() as u64),
            ] + bulk_texts(keys),
            CommandView::Sunion { keys } => seq![
                bulk_text("sunion"@),
                FrameView::USize(keys.len() as u64),
            ] + bulk_texts(keys),
        },
    )
}

/// The reply to a request, given what the engine holds.
pub open spec fn reply_of(cmd: CommandView, t: Table) -> FrameView {
    match cmd {
        CommandView::Get { key } => bulk_or_null(string_at(t, key)),
        CommandView::SetCmd { .. } => ok_reply(),
        CommandView::Ping { msg } => match msg {
            Some(data) => FrameView::Bulk(data),
            None => FrameView::Simple("PONG"@),
        },
        CommandView::Incrby { key, delta } => match incremented(t, key, delta) {
            Ok(_) => ok_reply(),
            Err(e) => FrameView::Error(incr_error_text(e)),
        },
        CommandView::Push { .. } => ok_reply(),
        CommandView::Lrange { key, start, end } => bulk_or_null(ranged(t, key, start, end)),
        CommandView::Pop { key, right } => bulk_or_null(popped(t, key, right)),
        CommandView::Unknown { name } => FrameView::Error(
            "ERR unknown command '"@ + name + "'"@,
        ),
        CommandView::Sadd { .. } => ok_reply(),
        CommandView::Srem { key, datas } => bulk_or_null(
            removed_count(t, key, byte_texts(datas).to_set()),
        ),
        CommandView::Scard { key } => bulk_or_null(cardinality(t, key)),
        CommandView::Sismember { key, member } => bulk_or_null(
            membership(t, key, encode_utf8(member)),
        ),
        CommandView::Sismembers { key } => bulk_or_null(all_members(t, key)),
        CommandView::Sinter { keys } => bulk_or_null(combination(t, keys, SetOp::Inter)),
        CommandView::Sdiff { keys } => bulk_or_null(combination(t, keys, SetOp::Diff)),
        CommandView::Sunion { keys } => bulk_or_null(combination(t, keys, SetOp::Union)),
    }
}

/// What the engine holds after a request that came at the moment `now`.
pub open spec fn table_after(cmd: CommandView, t: Table, now: u64) -> Table {
    match cmd {
        CommandView::SetCmd { key, value, expire } => after_set(t, key, value, expire, now),
        CommandView::Incrby { key, delta } => after_incrby(t, key, delta),
        CommandView::Push { key, values, right } => after_push(t, key, byte_texts(values), right),
        CommandView::Pop { key, right } => after_pop(t, key, right),
        CommandView::Sadd { key, datas } => after_sadd(t, key, byte_texts(datas).to_set()),
        CommandView::Srem { key, datas } => after_srem(t, key, byte_texts(datas).to_set()),
        _ => t,
    }
}

/// Whether a request that came at the moment `now` brings a deadline that comes before
/// all that there were, so that the sweeper has to be woken.
pub open spec fn wakes(cmd: CommandView, t: Table, now: u64) -> bool {
    match cmd {
        CommandView::SetCmd { key, value, expire } => set_wakes(t, expire, now),
        _ => false,
    }
}

/// A request for what is under a key that holds nothing is answered with the null
/// marker, and changes nothing.
pub proof fn lemma_unwritten_key_replies(t: Table, key: Seq<char>, right: bool, now: u64)
    requires
        !t.contains_key(key),
    ensures
        reply_of(CommandView::Get { key: key }, t) == FrameView::Null,
        reply_of(CommandView::Pop { key: key, right: right }, t) == FrameView::Null,
        table_after(CommandView::Pop { key: key, right: right }, t, now) == t,
{
}

/// A value that was set under a key is what a request for the key is answered with
/// right after.
pub proof fn lemma_set_then_get_replies(
    t: Table,
    key: Seq<char>,
    value: Seq<u8>,
    expire: Option<u64>,
    now: u64,
)
    ensures
        reply_of(
            CommandView::Get { key: key },
            table_after(CommandView::SetCmd { key: key, value: value, expire: expire }, t, now),
        ) == FrameView::Bulk(value),
{
}

/// A reply is never an array, so that it can always be written.
pub proof fn lemma_reply_is_flat(cmd: CommandView, t: Table)
    ensures
        !(reply_of(cmd, t) is Array),
{
}

/// The outcome of reading a command: the command where all fields were used, and a
/// fault where some are left.
pub open spec fn finished(r: Result<(CommandView, nat), Failure>, fields: Seq<FrameView>) -> Result<
    CommandView,
    Failure,
> {
    match r {
        Ok((cmd, used)) => if used == fields.len() {
            Ok(cmd)
        } else {
            Err(Failure::Bad("protocol error; expected end of frame, but there was more"@))
        },
        Err(e) => Err(e),
    }
}

/// The command with the lower-case name `name` and the fields `fields`. A name that is
/// not known gives the command that reports it.
pub open spec fn named(name: Seq<char>, fields: Seq<FrameView>) -> Result<CommandView, Failure> {
    if name == "get"@ {
        finished(get::parsed(fields), fields)
    } else if name == "pop"@ {
        finished(pop::parsed(fields), fields)
    } else if name == "set"@ {
        finished(set::parsed(fields), fields)
    } else if name == "ping"@ {
        finished(ping::parsed(fields), fields)
    } else if name == "incrby"@ {
        finished(incrby::parsed(fields), fields)
    } else if name == "lrange"@ {
        finished(lrange::parsed(fields), fields)
    } else if name == "push"@ {
        finished(push::parsed(fields), fields)
    } else if name == "sadd"@ {
        finished(sadd::parsed(fields), fields)
    } else if name == "srem"@ {
        finished(srem::parsed(fields), fields)
    } else if name == "scard"@ {
        finished(scard::parsed(fields), fields)
    } else if name == "sismember"@ {
        finished(sismember::parsed(fields), fields)
    } else if name == "sismembers"@ {
        finished(sismembers::parsed(fields), fields)
    } else if name == "sinter"@ {
        finished(sinter::parsed(fields), fields)
    } else if name == "sdiff"@ {
        finished(sdiff::parsed(fields), fields)
    } else if name == "sunion"@ {
        finished(sunion::parsed(fields), fields)
    } else {
        Ok(CommandView::Unknown { name: name })
    }
}

/// The command that a message asks for: the message is an array, its first field the
/// name of the command in any case, the others what the command takes.
pub open spec fn command_of(f: FrameView) -> Result<CommandView, Failure> {
    match f {
        FrameView::Array(fields) => match string_field(fields, 0) {
            Ok(name) => named(lowercase(name), fields.skip(1)),
            Err(e) => Err(e),
        },
        _ => Err(Failure::Bad("protocol error; expected array, got "@ + kind_name(f))),
    }
}

/// A reply and whether the sweeper has to be woken.
#[derive(Debug)]
pub struct Applied {
    pub reply: Frame,
    pub notify: bool,
}

/// The bulk string that holds `text`.
pub fn bulk_of(text: &str) -> (b: Bytes)
    ensures
        contents(b) == encode_utf8(text@),
{
    Bytes::copy_from_slice(text.as_bytes())
}

/// The reply that carries `value`, or says that there is none.
pub fn value_reply(value: Option<Bytes>) -> (reply: Frame)
    ensures
        reply@ == bulk_or_null(
            match value {
                Some(b) => Some(contents(b)),
                None => None,
            },
        ),
{
    match value {
        Some(b) => Frame::Bulk(b),
        None => Frame::Null,
    }
}

/// The reply to a change that was made.
pub fn ok() -> (reply: Frame)
    ensures
        reply@ == ok_reply(),
{
    Frame::Simple("OK".to_string())
}

/// Appends a bulk string for each of `items` to an array.
pub fn push_bulks(frame: &mut Frame, items: &Vec<String>)
    requires
        old(frame)@ is Array,
    ensures
        final(frame)@ == FrameView::Array(
            old(frame)@->Array_0 + bulk_texts(string_views(items@)),
        ),
{
    let ghost start = frame@->Array_0;
    let ghost all = bulk_texts(string_views(items@));
    let mut i: usize = 0;
    while i < items.len()
        invariant
            i <= items@.len(),
            all == bulk_texts(string_views(items@)),
            frame@ == FrameView::Array(start + all.take(i as int)),
        decreases items@.len() - i,
    {
        frame.push_bulk(bulk_of(items[i].as_str()));
        i = i + 1;
        assert(start + all.take(i as int) =~= (start + all.take(i - 1)).push(all[i - 1]));
    }
    assert(all.take(i as int) =~= all);
}

impl Command {
    /// Reads the command with the lower-case name `command_name` from the fields that
    /// follow the name.
    pub fn from_name(command_name: String, parse: &mut Parse) -> (r: Result<Command, ParseError>)
        ensures
            match named(command_name@, old(parse).remaining()) {
                Ok(cmd) => r matches Ok(c) && c@ == cmd,
                Err(failure) => r matches Err(e) && e@ == failure,
            },
    {
        let name = command_name.as_str();
        let command = if same_text(name, "get") {
            Command::Get(Get::parse_frames(parse)?)
        } else if same_text(name, "pop") {
            Command::Pop(Pop::parse_frames(parse)?)
        } else if same_text(name, "set") {
            Command::SetCmd(SetCmd::parse_frames(parse)?)
        } else if same_text(name, "ping") {
            Command::Ping(Ping::parse_frames(parse)?)
        } else if same_text(name, "incrby") {
            Command::Incrby(Incrby::parse_frames(parse)?)
        } else if same_text(name, "lrange") {
            Command::Lrange(Lrange::parse_frames(parse)?)
        } else if same_text(name, "push") {
            Command::Push(Push::parse_frames(parse)?)
        } else if same_text(name, "sadd") {
            Command::Sadd(Sadd::parse_frames(parse)?)
        } else if same_text(name, "srem") {
            Command::Srem(Srem::parse_frames(parse)?)
        } else if same_text(name, "scard") {
            Command::Scard(Scard::parse_frames(parse)?)
        } else if same_text(name, "sismember") {
            Command::Sismember(Sismember::parse_frames(parse)?)
        } else if same_text(name, "sismembers") {
            Command::Sismembers(Sismembers::parse_frames(parse)?)
        } else if same_text(name, "sinter") {
            Command::Sinter(Sinter::parse_frames(parse)?)
        } else if same_text(name, "sdiff") {
            Command::Sdiff(Sdiff::parse_frames(parse)?)
        } else if same_text(name, "sunion") {
            Command::Sunion(Sunion::parse_frames(parse)?)
        } else {
            return Ok(Command::Unknown(Unknown::new(command_name)));
        };
        parse.finish()?;
        Ok(command)
    }

    /// Reads the command that `frame` asks for.
    pub fn from_frame(frame: Frame) -> (r: Result<Command, ParseError>)
        ensures
            match command_of(frame@) {
                Ok(cmd) => r matches Ok(c) && c@ == cmd,
                Err(failure) => r matches Err(e) && e@ == failure,
            },
    {
        let mut parse = Parse::new(frame)?;
        let name = parse.next_string()?;
        let command_name = to_lowercase(name.as_str());
        Command::from_name(command_name, &mut parse)
    }

    /// Does to the engine what the command asks for, at the moment `now`, and gives the
    /// reply.
    pub fn apply(self, db: &mut Db, now: u64) -> (out: Applied)
        requires
            old(db).wf(),
        ensures
            final(db).wf(),
            final(db).closed() == old(db).closed(),
            final(db)@ == table_after(self@, old(db)@, now),
            out.reply@ == reply_of(self@, old(db)@),
            out.notify == wakes(self@, old(db)@, now),
            !(out.reply@ is Array),
    {
        match self {
            Command::Get(cmd) => {
                proof {
                    cmd.lemma_kind();
                }
                Applied { reply: cmd.apply(db), notify: false }
            },
            Command::Lrange(cmd) => {
                proof {
                    cmd.lemma_kind();
                }
                Applied { reply: cmd.apply(db), notify: false }
            },
            Command::Pop(cmd) => {
                proof {
                    cmd.lemma_kind();
                }
                Applied { reply: cmd.apply(db), notify: false }
            },
            Command::SetCmd(cmd) => {
                proof {
                    cmd.lemma_kind();
                }
                cmd.apply(db, now)
            },
            Command::Push(cmd) => {
                proof {
                    cmd.lemma_kind();
                }
                Applied { reply: cmd.apply(db), notify: false }
            },
            Command::Ping(cmd) => {
                proof {
                    cmd.lemma_kind();
                }
                Applied { reply: cmd.apply(), notify: false }
            },
            Command::Unknown(cmd) => {
                proof {
                    cmd.lemma_kind();
                }
                Applied { reply: cmd.apply(), notify: false }
            },
            Command::Incrby(cmd) => {
                proof {
                    cmd.lemma_kind();
                }
                Applied { reply: cmd.apply(db), notify: false }
            },
            Command::Sadd(cmd) => {
                proof {
                    cmd.lemma_kind();
                }
                Applied { reply: cmd.apply(db), notify: false }
            },
            Command::Srem(cmd) => {
                proof {
                    cmd.lemma_kind();
                }
                Applied { reply: cmd.apply(db), notify: false }
            },
            Command::Scard(cmd) => {
                proof {
                    cmd.lemma_kind();
                }
                Applied { reply: cmd.apply(db), notify: false }
            },
            Command::Sismember(cmd) => {
                proof {
                    cmd.lemma_kind();
                }
                Applied { reply: cmd.apply(db), notify: false }
            },
            Command::Sismembers(cmd) => {
                proof {
                    cmd.lemma_kind();
                }
                Applied { reply: cmd.apply(db), notify: false }
            },
            Command::Sinter(cmd) => {
                proof {
                    cmd.lemma_kind();
                }
                Applied { reply: cmd.apply(db), notify: false }
            },
            Command::Sdiff(cmd) => {
                proof {
                    cmd.lemma_kind();
                }
                Applied { reply: cmd.apply(db), notify: false }
            },
            Command::Sunion(cmd) => {
                proof {
                    cmd.lemma_kind();
                }
                Applied { reply: cmd.apply(db), notify: false }
            },
        }
    }
}

} // verus!
