//! What every transport shares: its flags, the connection it writes to, and
//! the commands it issues.

use crate::manager::{Record, RecordView};
use crate::protocol::{CloseCode, Frame};
use vstd::prelude::*;

pub mod websocket;

verus! {

/// One condition a transport can be in.
#[derive(Clone, Copy, Debug, PartialEq, Eq, Structural)]
pub enum Flag {
    /// The backlog has been flushed: live frames go straight to the wire.
    Ready,
    /// A transmission failed: the session is to be released at the next
    /// `Ready`.
    Release,
}

/// The set of conditions a transport is in.
#[derive(Clone, Copy, Debug, PartialEq, Eq, Structural)]
pub struct Flags {
    pub ready: bool,
    pub release: bool,
}

impl Flags {
    /// Whether the set holds `flag`.
    pub open spec fn has(self, flag: Flag) -> bool {
        match flag {
            Flag::Ready => self.ready,
            Flag::Release => self.release,
        }
    }

    /// The set with `flag` added.
    pub open spec fn with(self, flag: Flag) -> Flags {
        match flag {
            Flag::Ready => Flags { ready: true, ..self },
            Flag::Release => Flags { release: true, ..self },
        }
    }

    /// The set that holds no flag.
    pub open spec fn none() -> Flags {
        Flags { ready: false, release: false }
    }

    /// The set that holds no flag.
    pub fn empty() -> (r: Flags)
        ensures
            r == Flags::none(),
    {
        Flags { ready: false, release: false }
    }

    /// Whether the set holds `flag`.
    pub fn contains(&self, flag: Flag) -> (r: bool)
        ensures
            r == self.has(flag),
    {
        match flag {
            Flag::Ready => self.ready,
            Flag::Release => self.release,
        }
    }

    /// Adds `flag` to the set.
    pub fn insert(&mut self, flag: Flag)
        ensures
            *final(self) == old(self).with(flag),
    {
        match flag {
            Flag::Ready => {
                self.ready = true;
            },
            Flag::Release => {
                self.release = true;
            },
        }
    }
}

/// Whether a transport may go on sending after a frame.
#[derive(Clone, Copy, Debug, PartialEq, Eq, Structural)]
pub enum SendResult {
    /// The frame was handled; more may follow.
    Continue,
    /// The frame could not be transmitted; the transport must stop.
    Stop,
}

/// Whether a transport that was asked to stop goes on or stops.
#[derive(Clone, Copy, Debug, PartialEq, Eq, Structural)]
pub enum Running {
    /// The transport stops.
    Stop,
    /// The transport goes on.
    Continue,
}

/// What the registry puts on a transport's live stream.
#[derive(Clone, Debug, PartialEq, Eq)]
pub enum ChannelItem {
    /// A frame for the session.
    Frame(Frame),
    /// The backlog is complete: from here on frames may go to the wire.
    Ready,
}

/// One thing a transport asks of the outside world.
#[derive(Clone, Debug, PartialEq, Eq)]
pub enum Command {
    /// Ask the registry to bind this transport to the session.
    Acquire(String),
    /// Start reading the session's live stream.
    Subscribe,
    /// Transmit one text message to the peer.
    Text(String),
    /// Answer a ping with this payload.
    Pong(Vec<u8>),
    /// Close the connection with this code and its reason.
    Close(CloseCode),
    /// Give the record back to the registry.
    Release(Record),
    /// Hand a decoded payload to the registry, for the session's handler.
    Deliver(String, String),
    /// Stop serving the connection.
    Stop,
}

/// A command as a mathematical value.
pub enum CommandView {
    Acquire(Seq<char>),
    Subscribe,
    Text(Seq<char>),
    Pong(Seq<u8>),
    Close(CloseCode),
    Release(RecordView),
    Deliver(Seq<char>, Seq<char>),
    Stop,
}

impl View for Command {
    type V = CommandView;

    open spec fn view(&self) -> CommandView {
        match self {
            Command::Acquire(sid) => CommandView::Acquire(sid@),
            Command::Subscribe => CommandView::Subscribe,
            Command::Text(text) => CommandView::Text(text@),
            Command::Pong(payload) => CommandView::Pong(payload@),
            Command::Close(code) => CommandView::Close(*code),
            Command::Release(record) => CommandView::Release(record@),
            Command::Deliver(sid, payload) => CommandView::Deliver(sid@, payload@),
            Command::Stop => CommandView::Stop,
        }
    }
}

/// The views of a sequence of commands.
pub open spec fn commands(items: Seq<Command>) -> Seq<CommandView> {
    Seq::new(items.len(), |i: int| items[i]@)
}

/// A transport's side of one physical connection: whether the connection is
/// still open, and the commands issued on it so far, oldest first.
#[derive(Debug, PartialEq, Eq)]
pub struct Connection {
    connected: bool,
    outbox: Vec<Command>,
}

/// A connection as a mathematical value.
pub struct ConnectionView {
    pub connected: bool,
    pub outbox: Seq<CommandView>,
}

impl ConnectionView {
    /// The connection with one more command issued.
    pub open spec fn push(self, command: CommandView) -> ConnectionView {
        ConnectionView { outbox: self.outbox.push(command), ..self }
    }

    /// The connection with several more commands issued.
    pub open spec fn extend(self, more: Seq<CommandView>) -> ConnectionView {
        ConnectionView { outbox: self.outbox + more, ..self }
    }
}

impl View for Connection {
    type V = ConnectionView;

    closed spec fn view(&self) -> ConnectionView {
        ConnectionView { connected: self.connected, outbox: commands(self.outbox@) }
    }
}

impl Connection {
    /// A connection on which nothing has been issued yet.
    pub fn new(connected: bool) -> (r: Connection)
        ensures
            r@ == (ConnectionView { connected, outbox: Seq::empty() }),
    {
        let r = Connection { connected, outbox: Vec::new() };
        assert(r@.outbox =~= Seq::empty());
        r
    }

    /// Whether the connection is still open.
    pub fn connected(&self) -> (r: bool)
        ensures
            r == self@.connected,
    {
        self.connected
    }

    /// The commands issued so far, oldest first.
    pub fn commands(&self) -> (r: &Vec<Command>)
        ensures
            commands(r@) == self@.outbox,
    {
        &self.outbox
    }

    /// Ends the use of the connection and hands out its commands.
    pub fn into_commands(self) -> (r: Vec<Command>)
        ensures
            commands(r@) == self@.outbox,
    {
        self.outbox
    }

    fn issue(&mut self, command: Command)
        ensures
            final(self)@ == old(self)@.push(command@),
    {
        self.outbox.push(command);
        assert(commands(self.outbox@) =~= commands(old(self).outbox@).push(command@));
    }

    /// Asks the registry for the session.
    pub fn acquire(&mut self, sid: String)
        ensures
            final(self)@ == old(self)@.push(CommandView::Acquire(sid@)),
    {
        self.issue(Command::Acquire(sid));
    }

    /// Starts reading the session's live stream.
    pub fn add_message_stream(&mut self)
        ensures
            final(self)@ == old(self)@.push(CommandView::Subscribe),
    {
        self.issue(Command::Subscribe);
    }

    /// Transmits one text message.
    pub fn text(&mut self, text: String)
        ensures
            final(self)@ == old(self)@.push(CommandView::Text(text@)),
    {
        self.issue(Command::Text(text));
    }

    /// Answers a ping.
    pub fn pong(&mut self, payload: Vec<u8>)
        ensures
            final(self)@ == old(self)@.push(CommandView::Pong(payload@)),
    {
        self.issue(Command::Pong(payload));
    }

    /// Closes the connection with a code.
    pub fn close(&mut self, code: CloseCode)
        ensures
            final(self)@ == old(self)@.push(CommandView::Close(code)),
    {
        self.issue(Command::Close(code));
    }

    /// Gives a record back to the registry.
    pub fn release(&mut self, record: Record)
        ensures
            final(self)@ == old(self)@.push(CommandView::Release(record@)),
    {
        self.issue(Command::Release(record));
    }

    /// Hands a payload to the registry.
    pub fn deliver(&mut self, sid: String, payload: String)
        ensures
            final(self)@ == old(self)@.push(CommandView::Deliver(sid@, payload@)),
    {
        self.issue(Command::Deliver(sid, payload));
    }

    /// Stops serving the connection.
    pub fn stop(&mut self)
        ensures
            final(self)@ == old(self)@.push(CommandView::Stop),
    {
        self.issue(Command::Stop);
    }
}

} // verus!
