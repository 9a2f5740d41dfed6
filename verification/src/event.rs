//! What crosses the engine's boundary: application events, the commands that
//! other threads send to the engine, what the caller reports of a socket,
//! and the actions that the engine asks of its caller.

use crate::conn::{ConnView, Interest, TcpConn};
use vstd::prelude::*;

verus! {

/// Name of the event that announces a peer awaiting confirmation.
pub const EVENT_ON_PENDING_CONNECTION: &'static str = "on-pending-connection";

/// Identifier of the listening socket among the readiness sources.
pub const TCP_SERVER_TOKEN: usize = 0;

/// Identifier of the command queue among the readiness sources.
pub const RECEIVER_CHANNEL_TOKEN: usize = 1;

/// The first identifier that a connection can have.
pub const FIRST_CONN_TOKEN: usize = 2;

/// An application event.
#[derive(Debug, Clone, PartialEq, Eq)]
pub struct Event {
    pub name: String,
    pub data: Vec<u8>,
    pub from: String,
}

/// The ghost form of an event.
pub struct EventView {
    pub name: Seq<char>,
    pub data: Seq<u8>,
    pub from: Seq<char>,
}

impl View for Event {
    type V = EventView;

    open spec fn view(&self) -> EventView {
        EventView { name: self.name@, data: self.data@, from: self.from@ }
    }
}

/// The event that announces the peer `token` with value `value`.
pub open spec fn pending_connection_event(token: Seq<char>, value: Seq<char>) -> EventView {
    EventView {
        name: EVENT_ON_PENDING_CONNECTION@,
        data: vstd::utf8::encode_utf8(value),
        from: token,
    }
}

/// The kinds of command.
#[derive(Debug, Clone, Copy, PartialEq, Eq)]
pub enum TcpNetworkCMD {
    /// Adopt a socket that this node has connected.
    HandleClientConnection,
    /// Accept the pending peer with a given token.
    AcceptPendingConnection,
    /// Forward an event to a worker.
    EmitEvent,
}

/// A command to the engine. Which fields count depends on `cmd`: the last
/// socket for an adoption, the first token for an acceptance, the last event
/// and all tokens for an event.
#[derive(Debug)]
pub struct TcpNetworkCommand<S> {
    pub cmd: TcpNetworkCMD,
    pub socket: Vec<S>,
    pub token: Vec<String>,
    pub event: Vec<Event>,
}

/// The texts of a list of tokens.
pub open spec fn token_texts(tokens: Seq<String>) -> Seq<Seq<char>> {
    tokens.map_values(|t: String| t@)
}

/// What one non-blocking read gave.
#[derive(Debug, Clone, PartialEq, Eq)]
pub enum ReadOutcome {
    /// These bytes arrived.
    Data(Vec<u8>),
    /// Nothing is available now.
    WouldBlock,
    /// The read failed, or the peer closed the stream.
    Failed,
}

/// What one non-blocking write gave.
#[derive(Debug, Clone, Copy, PartialEq, Eq)]
pub enum WriteOutcome {
    /// The socket took this many bytes.
    Written(usize),
    /// The socket takes nothing now.
    WouldBlock,
    /// The write failed.
    Failed,
}

/// The readiness kinds of one wakeup.
#[derive(Debug, Clone, Copy, PartialEq, Eq)]
pub struct Readiness {
    pub readable: bool,
    pub writable: bool,
    pub error: bool,
    pub hup: bool,
}

/// What the event loop does with one ready source.
#[derive(Debug, Clone, Copy, PartialEq, Eq)]
pub enum Step {
    /// Receive commands until none is queued, and hand each to `notify`.
    DrainCommands,
    /// The listener failed: the node cannot go on.
    Fatal,
    /// Accept sockets until none is waiting.
    Accept,
    /// Close the connection.
    Close { id: usize },
    /// Serve the connection: read if `read`, then write if `write`.
    Serve { id: usize, read: bool, write: bool },
    /// Nothing to do.
    Skip,
}

/// What the engine asks of its caller.
#[derive(Debug)]
pub enum Action<S> {
    /// Nothing; wait for the next readiness.
    Idle,
    /// The socket was dropped because no identifier is left for it.
    Refused,
    /// Register the socket of connection `id` for `interest`.
    Register { id: usize, interest: Interest },
    /// Change the registration of connection `id` to `interest`.
    Reregister { id: usize, interest: Interest },
    /// Do the same operation on connection `id` again at once.
    Continue { id: usize },
    /// Connection `id` left the table and its socket was dropped.
    Closed { id: usize },
    /// Deregister the socket of connection `id`, which stays in the table,
    /// and send `event` to the application.
    Notify { id: usize, event: Event },
    /// Deregister the socket of `conn`, which left the table, and send the
    /// connection to worker `reader`.
    HandOff { reader: usize, conn: TcpConn<S> },
    /// Send `event` for the peers `tokens` to worker `reader`.
    WriteDataWithPath { reader: usize, event: Event, tokens: Vec<String> },
}

/// The ghost form of an action.
pub enum ActionView<S> {
    Idle,
    Refused,
    Register { id: usize, interest: Interest },
    Reregister { id: usize, interest: Interest },
    Continue { id: usize },
    Closed { id: usize },
    Notify { id: usize, event: EventView },
    HandOff { reader: usize, conn: ConnView<S> },
    WriteDataWithPath { reader: usize, event: EventView, tokens: Seq<Seq<char>> },
}

impl<S> View for Action<S> {
    type V = ActionView<S>;

    open spec fn view(&self) -> ActionView<S> {
        match self {
            Action::Idle => ActionView::Idle,
            Action::Refused => ActionView::Refused,
            Action::Register { id, interest } => ActionView::Register {
                id: *id,
                interest: *interest,
            },
            Action::Reregister { id, interest } => ActionView::Reregister {
                id: *id,
                interest: *interest,
            },
            Action::Continue { id } => ActionView::Continue { id: *id },
            Action::Closed { id } => ActionView::Closed { id: *id },
            Action::Notify { id, event } => ActionView::Notify { id: *id, event: event@ },
            Action::HandOff { reader, conn } => ActionView::HandOff { reader: *reader, conn: conn@ },
            Action::WriteDataWithPath { reader, event, tokens } => ActionView::WriteDataWithPath {
                reader: *reader,
                event: event@,
                tokens: token_texts(tokens@),
            },
        }
    }
}

/// What the event loop does with the source `token` when it is ready for
/// `kind`. Commands are drained whatever the kind. An error or a hang-up is
/// fatal on the listener and closes a connection. Otherwise the listener
/// accepts when readable, and a connection is served for each of reading
/// and writing that it is ready for.
pub open spec fn step_of(token: usize, kind: Readiness) -> Step {
    if token == RECEIVER_CHANNEL_TOKEN {
        Step::DrainCommands
    } else if kind.error || kind.hup {
        if token == TCP_SERVER_TOKEN {
            Step::Fatal
        } else {
            Step::Close { id: token }
        }
    } else if token == TCP_SERVER_TOKEN {
        if kind.readable {
            Step::Accept
        } else {
            Step::Skip
        }
    } else if kind.readable || kind.writable {
        Step::Serve { id: token, read: kind.readable, write: kind.writable }
    } else {
        Step::Skip
    }
}

/// Decides what the event loop does with one ready source.
pub fn dispatch(token: usize, kind: Readiness) -> (step: Step)
    ensures
        step == step_of(token, kind),
{
    if token == RECEIVER_CHANNEL_TOKEN {
        Step::DrainCommands
    } else if kind.error || kind.hup {
        if token == TCP_SERVER_TOKEN {
            Step::Fatal
        } else {
            Step::Close { id: token }
        }
    } else if token == TCP_SERVER_TOKEN {
        if kind.readable {
            Step::Accept
        } else {
            Step::Skip
        }
    } else if kind.readable || kind.writable {
        Step::Serve { id: token, read: kind.readable, write: kind.writable }
    } else {
        Step::Skip
    }
}

} // verus!
