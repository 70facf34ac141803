//! The life of the server and of its connections, as decisions: whom to take in, how
//! long to wait after a failed accept, what to do with what a connection brings, and
//! when all is done.

use crate::cmd::{command_of, reply_of, table_after, wakes, Command};
use crate::connect::connection::{reset_text, Connection, Progress};
use crate::connect::shutdown::Shutdown;
use crate::entity::db::{Db, Table};
use crate::entity::frame::{fault_text, Error, Frame};
use crate::entity::parse::{failure_text, ParseError};
use crate::entity::wire::{decode, encode, Decoded};
use vstd::prelude::*;

verus! {

/// How many connections may be open at a time unless told otherwise.
pub const MAX_CONNECTIONS: usize = 250;

/// The longest wait, in seconds, after which a failed accept is tried again.
pub const MAX_BACKOFF: u64 = 64;

/// What to do with a peer that wants to connect.
#[derive(Debug, Clone, Copy, PartialEq, Eq)]
pub enum Admission {
    /// Take the connection.
    Accept,
    /// As many connections are open as may be: wait until one closes.
    Wait,
    /// The server is shutting down: take no more connections.
    Stop,
}

/// What to do with a peer that wants to connect while `open` connections are open and
/// up to `limit` may be.
pub open spec fn admission(open: nat, limit: nat, closing: bool) -> Admission {
    if closing {
        Admission::Stop
    } else if open < limit {
        Admission::Accept
    } else {
        Admission::Wait
    }
}

/// A peer that comes while as many connections are open as may be is made to wait, and
/// is taken as soon as one of them has closed: it is never turned away.
pub proof fn lemma_excess_waits(open: nat, limit: nat)
    requires
        open >= limit,
        limit > 0,
    ensures
        admission(open, limit, false) == Admission::Wait,
        admission((limit - 1) as nat, limit, false) == Admission::Accept,
{
}

/// The state of the server as far as it decides about connections.
#[derive(Debug)]
pub struct Listener {
    limit: usize,
    open: usize,
    backoff: u64,
    closing: bool,
}

impl Listener {
    /// How many connections may be open at a time.
    pub closed spec fn limit(&self) -> nat {
        self.limit as nat
    }

    /// How many connections are open.
    pub closed spec fn open(&self) -> nat {
        self.open as nat
    }

    /// How many seconds to wait after the next failed accept.
    pub closed spec fn backoff(&self) -> nat {
        self.backoff as nat
    }

    /// Whether the server is shutting down.
    pub closed spec fn closing(&self) -> bool {
        self.closing
    }

    /// Whether the state is in order: no more connections are open than may be, and
    /// the wait is a power of two from 1 to 128 seconds.
    pub closed spec fn wf(&self) -> bool {
        &&& self.open <= self.limit
        &&& 1 <= self.backoff <= 2 * MAX_BACKOFF
    }

    /// A server without connections that admits up to `limit` at a time.
    pub fn new(limit: usize) -> (l: Listener)
        ensures
            l.wf(),
            l.limit() == limit,
            l.open() == 0,
            l.backoff() == 1,
            !l.closing(),
    {
        Listener { limit, open: 0, backoff: 1, closing: false }
    }

    /// How many connections are open.
    pub fn open_connections(&self) -> (n: usize)
        ensures
            n == self.open(),
    {
        self.open
    }

    /// Decides about a peer that wants to connect. It is taken where fewer connections
    /// are open than may be; otherwise it has to wait, and is never turned away. Once
    /// the server shuts down, no peer is taken.
    pub fn acquire(&mut self) -> (r: Admission)
        requires
            old(self).wf(),
        ensures
            final(self).wf(),
            final(self).limit() == old(self).limit(),
            final(self).backoff() == old(self).backoff(),
            final(self).closing() == old(self).closing(),
            r == admission(old(self).open(), old(self).limit(), old(self).closing()),
            final(self).open() == if r == Admission::Accept {
                old(self).open() + 1
            } else {
                old(self).open()
            },
    {
        if self.closing {
            Admission::Stop
        } else if self.open < self.limit {
            self.open = self.open + 1;
            Admission::Accept
        } else {
            Admission::Wait
        }
    }

    /// Takes note that a connection has closed, for whatever reason.
    pub fn release(&mut self)
        requires
            old(self).wf(),
            old(self).open() > 0,
        ensures
            final(self).wf(),
            final(self).limit() == old(self).limit(),
            final(self).backoff() == old(self).backoff(),
            final(self).closing() == old(self).closing(),
            final(self).open() == old(self).open() - 1,
    {
        self.open = self.open - 1;
    }

    /// Takes note that a connection was accepted: the next failed accept is followed
    /// by a wait of one second again.
    pub fn accepted(&mut self)
        requires
            old(self).wf(),
        ensures
            final(self).wf(),
            final(self).limit() == old(self).limit(),
            final(self).open() == old(self).open(),
            final(self).closing() == old(self).closing(),
            final(self).backoff() == 1,
    {
        self.backoff = 1;
    }

    /// Decides what to do after an accept that failed: to wait for the seconds given
    /// and try again, the wait doubling each time, or to give up once the wait would be
    /// longer than 64 seconds.
    pub fn accept_failed(&mut self) -> (r: Option<u64>)
        requires
            old(self).wf(),
        ensures
            final(self).wf(),
            final(self).limit() == old(self).limit(),
            final(self).open() == old(self).open(),
            final(self).closing() == old(self).closing(),
            r == if old(self).backoff() > MAX_BACKOFF {
                None::<u64>
            } else {
                Some(old(self).backoff() as u64)
            },
            final(self).backoff() == if old(self).backoff() > MAX_BACKOFF {
                old(self).backoff()
            } else {
                2 * old(self).backoff()
            },
    {
        if self.backoff > MAX_BACKOFF {
            None
        } else {
            let wait = self.backoff;
            self.backoff = self.backoff * 2;
            Some(wait)
        }
    }

    /// Starts to shut the server down: from now on no peer is taken.
    pub fn shutdown(&mut self)
        requires
            old(self).wf(),
        ensures
            final(self).wf(),
            final(self).limit() == old(self).limit(),
            final(self).open() == old(self).open(),
            final(self).backoff() == old(self).backoff(),
            final(self).closing(),
    {
        self.closing = true;
    }

    /// Whether the server may end: it is shutting down and every connection has closed.
    pub fn drained(&self) -> (r: bool)
        ensures
            r == (self.closing() && self.open() == 0),
    {
        self.closing && self.open == 0
    }
}

/// The wait after `failures` failed accepts in a row, in seconds: 1, 2, 4 and so on.
pub open spec fn wait_after(failures: nat) -> nat
    decreases failures,
{
    if failures == 0 {
        1
    } else {
        2 * wait_after((failures - 1) as nat)
    }
}

/// What happened on a connection.
#[derive(Debug, Clone, Copy, PartialEq, Eq)]
pub enum Event {
    /// Bytes came in, or nothing happened since the last step.
    Data,
    /// The peer ended the stream.
    Eof,
    /// The signal to shut down came.
    Shutdown,
}

/// What the caller has to do for a connection.
#[derive(Debug)]
pub enum Action {
    /// Send the bytes that are waiting to go out and flush them; wake the sweeper where
    /// `notify`; then take the next step.
    Reply { notify: bool },
    /// Wait for bytes from the peer or for the signal to shut down.
    Read,
    /// Close the connection: it has come to its end in good order.
    Close,
    /// Close the connection: it failed, and the error says how.
    Fail(Error),
}

/// Where a connection stands in its life.
#[derive(Debug, Clone, Copy, PartialEq, Eq)]
pub enum Phase {
    /// Taken, and no step made yet.
    Accepted,
    /// Reading messages and answering them.
    Running,
    /// The signal to shut down was seen: the next step closes the connection.
    Draining,
    /// At its end, in good order or not.
    Closed,
}

/// The state of one connection: what came in and is to go out, whether the signal to
/// shut down has come, and where the connection stands in its life.
#[derive(Debug)]
pub struct Handler {
    connection: Connection,
    shutdown: Shutdown,
    phase: Phase,
}

/// Where a connection stands after a step that asks the caller for `action`.
pub open spec fn phase_after(action: ActionView) -> Phase {
    match action {
        ActionView::Reply { .. } => Phase::Running,
        ActionView::Read => Phase::Running,
        ActionView::Close => Phase::Closed,
        ActionView::Fail(_) => Phase::Closed,
    }
}

/// The error for a message that is no command.
fn command_error(e: ParseError) -> (r: Error)
    ensures
        r matches Error::Other(msg) && msg@ == failure_text(e@),
{
    match e {
        ParseError::EndOfStream => Error::Other(
            "protocol error; unexpected end of stream".to_string(),
        ),
        ParseError::Other(msg) => Error::Other(msg),
    }
}

impl Handler {
    /// The connection.
    pub closed spec fn connection(&self) -> Connection {
        self.connection
    }

    /// Whether the signal to shut down has come.
    pub closed spec fn stopped(&self) -> bool {
        self.shutdown.received()
    }

    /// Where the connection stands in its life.
    pub closed spec fn phase(&self) -> Phase {
        self.phase
    }

    /// Whether the next step reads no message: the connection is closed, or the signal
    /// to shut down has come.
    pub open spec fn idle(&self) -> bool {
        self.stopped() || self.phase() == Phase::Draining || self.phase() == Phase::Closed
    }

    /// The state of a connection that was just accepted.
    pub fn new(connection: Connection, shutdown: Shutdown) -> (h: Handler)
        ensures
            h.connection() == connection,
            h.stopped() == shutdown.received(),
            h.phase() == Phase::Accepted,
    {
        Handler { connection, shutdown, phase: Phase::Accepted }
    }

    /// Where the connection stands in its life.
    pub fn current_phase(&self) -> (phase: Phase)
        ensures
            phase == self.phase(),
    {
        self.phase
    }

    /// Takes note that the signal to shut down has come: a connection that is not
    /// closed yet is closed by its next step.
    pub fn drain(&mut self)
        ensures
            final(self).connection() == old(self).connection(),
            final(self).stopped(),
            final(self).phase() == if old(self).phase() == Phase::Closed {
                Phase::Closed
            } else {
                Phase::Draining
            },
    {
        self.shutdown.recv();
        match self.phase {
            Phase::Closed => {},
            _ => {
                self.phase = Phase::Draining;
            },
        }
    }

    /// The connection, for the caller to move bytes between it and the socket.
    pub fn connection_mut(&mut self) -> (c: &mut Connection)
        ensures
            *c == old(self).connection(),
            final(self).connection() == *final(c),
            final(self).stopped() == old(self).stopped(),
            final(self).phase() == old(self).phase(),
    {
        &mut self.connection
    }

    /// Whether the signal to shut down has come.
    pub fn is_shutdown(&self) -> (r: bool)
        ensures
            r == self.stopped(),
    {
        self.shutdown.is_shutdown()
    }

    /// One step in the life of a connection, at the moment `now`.
    ///
    /// Once the signal to shut down has come, no message is read and the connection
    /// closes; a closed connection stays closed. Otherwise a whole message at the front
    /// of what came in is read as a command, the command does its work on the engine,
    /// and its reply is put with the bytes to go out: that is one step, so a command
    /// that has begun is finished and answered before anything else is decided. Without
    /// a whole message the step asks for more bytes, or closes the connection where the
    /// peer has ended the stream.
    pub fn step(&mut self, db: &mut Db, event: Event, now: u64) -> (action: Action)
        requires
            old(db).wf(),
        ensures
            final(db).wf(),
            final(db).closed() == old(db).closed(),
            final(self).stopped() == (old(self).stopped() || event == Event::Shutdown),
            final(self).phase() == phase_after(action@),
            outcome(
                old(self).connection().incoming(),
                old(self).idle() || event == Event::Shutdown,
                event == Event::Eof,
                old(db)@,
                now,
            ) == (Outcome {
                table: final(db)@,
                sent: final(self).connection().outgoing().skip(
                    old(self).connection().outgoing().len() as int,
                ),
                left: final(self).connection().incoming(),
                action: action@,
            }),
            old(self).connection().outgoing().len() <= final(self).connection().outgoing().len(),
            final(self).connection().outgoing().take(
                old(self).connection().outgoing().len() as int,
            ) == old(self).connection().outgoing(),
    {
        let ghost before = self.connection.outgoing();
        assert(before.skip(before.len() as int) =~= Seq::<u8>::empty());
        match event {
            Event::Shutdown => {
                self.shutdown.recv();
            },
            _ => {},
        }
        let idle = match self.phase {
            Phase::Draining => true,
            Phase::Closed => true,
            _ => self.shutdown.is_shutdown(),
        };
        if idle {
            self.phase = Phase::Closed;
            return Action::Close;
        }
        let eof = match event {
            Event::Eof => true,
            _ => false,
        };
        match self.connection.read_frame(eof) {
            Ok(Progress::Frame(frame)) => match Command::from_frame(frame) {
                Ok(cmd) => {
                    let out = cmd.apply(db, now);
                    self.connection.write_frame(&out.reply);
                    proof {
                        let after = self.connection.outgoing();
                        assert(after.skip(before.len() as int) =~= encode(out.reply@));
                    }
                    self.phase = Phase::Running;
                    Action::Reply { notify: out.notify }
                },
                Err(e) => {
                    self.phase = Phase::Closed;
                    Action::Fail(command_error(e))
                },
            },
            Ok(Progress::NeedMore) => {
                self.phase = Phase::Running;
                Action::Read
            },
            Ok(Progress::Closed) => {
                self.phase = Phase::Closed;
                Action::Close
            },
            Err(e) => {
                self.phase = Phase::Closed;
                Action::Fail(e)
            },
        }
    }
}

/// What the caller has to do for a connection, as a mathematical value.
pub enum ActionView {
    Reply { notify: bool },
    Read,
    Close,
    Fail(Seq<char>),
}

impl View for Action {
    type V = ActionView;

    open spec fn view(&self) -> ActionView {
        match self {
            Action::Reply { notify } => ActionView::Reply { notify: *notify },
            Action::Read => ActionView::Read,
            Action::Close => ActionView::Close,
            Action::Fail(e) => ActionView::Fail(
                match e {
                    Error::Incomplete => "stream ended early"@,
                    Error::Other(msg) => msg@,
                },
            ),
        }
    }
}

/// What a step comes to: what the engine holds after it, the bytes that it puts with
/// those to go out, the bytes that are left of what came in, and what the caller has
/// to do.
pub struct Outcome {
    pub table: Table,
    pub sent: Seq<u8>,
    pub left: Seq<u8>,
    pub action: ActionView,
}

/// What a step comes to, given the bytes that came in, whether the connection is closed
/// or the signal to shut down has come, whether the peer has ended the stream, what the
/// engine holds, and the moment.
pub open spec fn outcome(
    incoming: Seq<u8>,
    stopped: bool,
    eof: bool,
    t: Table,
    now: u64,
) -> Outcome {
    if stopped {
        Outcome { table: t, sent: Seq::empty(), left: incoming, action: ActionView::Close }
    } else {
        match decode(incoming) {
            Decoded::Complete { frame, len } => match command_of(frame) {
                Ok(cmd) => Outcome {
                    table: table_after(cmd, t, now),
                    sent: encode(reply_of(cmd, t)),
                    left: incoming.skip(len as int),
                    action: ActionView::Reply { notify: wakes(cmd, t, now) },
                },
                Err(fault) => Outcome {
                    table: t,
                    sent: Seq::empty(),
                    left: incoming.skip(len as int),
                    action: ActionView::Fail(failure_text(fault)),
                },
            },
            Decoded::Incomplete => Outcome {
                table: t,
                sent: Seq::empty(),
                left: incoming,
                action: if !eof {
                    ActionView::Read
                } else if incoming.len() == 0 {
                    ActionView::Close
                } else {
                    ActionView::Fail(reset_text())
                },
            },
            Decoded::Malformed(fault) => Outcome {
                table: t,
                sent: Seq::empty(),
                left: incoming,
                action: ActionView::Fail(fault_text(fault)),
            },
        }
    }
}

/// Once the signal to shut down has come, and once a connection is closed, a step
/// accepts no command: the engine stays as it is, nothing is read and nothing is sent,
/// and the connection is closed from then on.
pub proof fn lemma_no_command_after_shutdown(
    incoming: Seq<u8>,
    eof: bool,
    t: Table,
    now: u64,
)
    ensures
        outcome(incoming, true, eof, t, now) == (Outcome {
            table: t,
            sent: Seq::empty(),
            left: incoming,
            action: ActionView::Close,
        }),
        phase_after(outcome(incoming, true, eof, t, now).action) == Phase::Closed,
{
}

/// A step that changes what the engine holds is the work of one command, and puts the
/// reply to that command with the bytes to go out.
pub proof fn lemma_command_is_answered(
    incoming: Seq<u8>,
    stopped: bool,
    eof: bool,
    t: Table,
    now: u64,
)
    requires
        outcome(incoming, stopped, eof, t, now).table != t,
    ensures
        !stopped,
        decode(incoming) is Complete,
        command_of(decode(incoming)->frame) matches Ok(cmd) && outcome(
            incoming,
            stopped,
            eof,
            t,
            now,
        ).sent == encode(reply_of(cmd, t)) && outcome(incoming, stopped, eof, t, now).action
            is Reply,
{
}

/// After `failures` failed accepts in a row the wait is `wait_after(failures)` seconds,
/// up to the seventh; the eighth failure in a row is the end.
pub proof fn lemma_backoff_schedule()
    ensures
        wait_after(0) == 1,
        wait_after(6) == MAX_BACKOFF,
        wait_after(7) > MAX_BACKOFF,
        forall|k: nat| #[trigger] wait_after(k + 1) == 2 * wait_after(k),
{
    assert(wait_after(1) == 2) by { reveal_with_fuel(wait_after, 2); }
    assert(wait_after(2) == 4) by { reveal_with_fuel(wait_after, 3); }
    assert(wait_after(3) == 8) by { reveal_with_fuel(wait_after, 4); }
    assert(wait_after(4) == 16) by { reveal_with_fuel(wait_after, 5); }
    assert(wait_after(5) == 32) by { reveal_with_fuel(wait_after, 6); }
    assert(wait_after(6) == 64) by { reveal_with_fuel(wait_after, 7); }
    assert(wait_after(7) == 128) by { reveal_with_fuel(wait_after, 8); }
}

} // verus!
