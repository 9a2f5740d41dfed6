//! The engine as a state machine over ghost values: its state, and for each
//! operation the next state and the action that it asks of its caller.

use crate::conn::{ConnView, Interest, Origin, ProgressView};
use crate::event::{
    pending_connection_event, ActionView, EventView, ReadOutcome, TcpNetworkCMD, WriteOutcome,
    FIRST_CONN_TOKEN,
};
use crate::identity::identity_frame;
use crate::table::{first_with_token, none_with_token};
use vstd::prelude::*;

verus! {

/// The ghost form of what one read gave.
pub enum ReadView {
    Data(Seq<u8>),
    WouldBlock,
    Failed,
}

impl View for ReadOutcome {
    type V = ReadView;

    open spec fn view(&self) -> ReadView {
        match self {
            ReadOutcome::Data(bytes) => ReadView::Data(bytes@),
            ReadOutcome::WouldBlock => ReadView::WouldBlock,
            ReadOutcome::Failed => ReadView::Failed,
        }
    }
}

/// The ghost form of the engine.
pub struct NetView<S> {
    /// The pending connections by identifier.
    pub pending: Map<usize, ConnView<S>>,
    /// How many workers there are.
    pub readers: int,
    /// The worker that the next dispatch goes to.
    pub cursor: int,
    /// The identifier that the next connection gets.
    pub next_id: int,
    /// The token of this node.
    pub token: Seq<char>,
    /// The decimal text of this node's value.
    pub value: Seq<char>,
}

impl<S> NetView<S> {
    /// What holds of every engine: each envelope stands under its own
    /// identifier, identifiers of connections start at `FIRST_CONN_TOKEN` and
    /// lie below the next one to be handed out, a connection whose peer is
    /// known is not registered any more, and the cursor points into the pool.
    pub open spec fn inv(self) -> bool {
        &&& FIRST_CONN_TOKEN <= self.next_id <= usize::MAX
        &&& forall|id: usize| #[trigger]
            self.pending.contains_key(id) ==> FIRST_CONN_TOKEN <= id < self.next_id
                && self.pending[id].id == id && (self.pending[id].peer() is Some
                ==> self.pending[id].registered is None)
        &&& 0 <= self.readers <= usize::MAX
        &&& if self.readers == 0 {
            self.cursor == 0
        } else {
            0 <= self.cursor < self.readers
        }
    }

    /// The engine of the node `token` with value `value` before anything
    /// happened: no connection, no worker.
    pub open spec fn initial(token: Seq<char>, value: Seq<char>) -> NetView<S> {
        NetView {
            pending: Map::empty(),
            readers: 0,
            cursor: 0,
            next_id: FIRST_CONN_TOKEN as int,
            token,
            value,
        }
    }

    /// The handshake frame of this node.
    pub open spec fn handshake(self) -> Seq<u8> {
        identity_frame(self.token, self.value)
    }

    /// The engine after one dispatch to a worker.
    pub open spec fn turned(self) -> NetView<S> {
        if self.readers > 0 {
            NetView { cursor: (self.cursor + 1) % self.readers, ..self }
        } else {
            self
        }
    }

    /// The engine with `readers` workers and the cursor on the first.
    pub open spec fn started(self, readers: int) -> NetView<S> {
        NetView { readers, cursor: 0, ..self }
    }

    /// A socket joins the table under a fresh identifier. One that this node
    /// connected gets the handshake queued and is registered for reading and
    /// writing; one that the listener accepted waits for the peer to speak.
    /// When no identifier is left the socket is refused.
    pub open spec fn added(self, sock: S, from_client: bool) -> (NetView<S>, ActionView<S>) {
        if self.next_id >= usize::MAX {
            (self, ActionView::Refused)
        } else {
            let id = self.next_id as usize;
            let interest = if from_client {
                Interest::ReadWrite
            } else {
                Interest::Readable
            };
            let conn = if from_client {
                ConnView::fresh(sock, id, Origin::Outbound).with_output(
                    self.handshake(),
                ).registered_as(Some(interest))
            } else {
                ConnView::fresh(sock, id, Origin::Inbound).registered_as(Some(interest))
            };
            (
                NetView { pending: self.pending.insert(id, conn), next_id: self.next_id + 1, ..self },
                ActionView::Register { id, interest },
            )
        }
    }

    /// The sockets of one wakeup of the listener join the table in order.
    pub open spec fn added_all(self, socks: Seq<S>) -> (NetView<S>, Seq<ActionView<S>>)
        decreases socks.len(),
    {
        if socks.len() == 0 {
            (self, Seq::empty())
        } else {
            let (first, action) = self.added(socks[0], false);
            let (last, actions) = first.added_all(socks.drop_first());
            (last, seq![action] + actions)
        }
    }

    /// Connection `id` leaves the table for the worker under the cursor,
    /// deregistered. An accepted one gets this node's handshake queued first.
    /// Without workers the connection is closed.
    pub open spec fn accepted(self, id: usize) -> (NetView<S>, ActionView<S>) {
        if !self.pending.contains_key(id) {
            (self, ActionView::Idle)
        } else {
            let conn = if self.pending[id].side is Inbound {
                self.pending[id].with_output(self.handshake()).registered_as(None)
            } else {
                self.pending[id].registered_as(None)
            };
            let rest = NetView { pending: self.pending.remove(id), ..self };
            if self.readers > 0 {
                (rest.turned(), ActionView::HandOff { reader: self.cursor as usize, conn })
            } else {
                (rest, ActionView::Closed { id })
            }
        }
    }

    /// Connection `id` leaves the table and is closed.
    pub open spec fn closed(self, id: usize) -> (NetView<S>, ActionView<S>) {
        if self.pending.contains_key(id) {
            (NetView { pending: self.pending.remove(id), ..self }, ActionView::Closed { id })
        } else {
            (self, ActionView::Idle)
        }
    }

    /// One read on connection `id` gave `outcome`.
    ///
    /// Nothing happens for an unknown connection, for one whose peer is
    /// known already, and when the read would block. A failed read, a read of
    /// no bytes and a refused frame close the connection. Bytes that leave
    /// the frame incomplete ask for the next read. Bytes that complete it
    /// end the registration of the socket; the peer of an accepted connection
    /// is then announced to the application, and a connection that this node
    /// opened is handed to a worker.
    pub open spec fn read(self, id: usize, outcome: ReadView) -> (NetView<S>, ActionView<S>) {
        if !self.pending.contains_key(id) || self.pending[id].peer() is Some {
            (self, ActionView::Idle)
        } else {
            match outcome {
                ReadView::WouldBlock => (self, ActionView::Idle),
                ReadView::Failed => self.closed(id),
                ReadView::Data(bytes) => {
                    let conn = self.pending[id].fed(bytes);
                    let kept = NetView { pending: self.pending.insert(id, conn), ..self };
                    if bytes.len() == 0 {
                        self.closed(id)
                    } else {
                        match conn.progress() {
                            ProgressView::Failed(_) => self.closed(id),
                            ProgressView::Complete(token, value) => {
                                let known = NetView {
                                    pending: self.pending.insert(id, conn.registered_as(None)),
                                    ..self
                                };
                                if conn.side is Inbound {
                                    (
                                        known,
                                        ActionView::Notify {
                                            id,
                                            event: pending_connection_event(token, value),
                                        },
                                    )
                                } else {
                                    known.accepted(id)
                                }
                            },
                            _ => (kept, ActionView::Continue { id }),
                        }
                    }
                },
            }
        }
    }

    /// One write on connection `id` gave `outcome`.
    ///
    /// Nothing happens for an unknown connection, for one that is not
    /// registered, and when the write would block. A failed write closes the
    /// connection, and so does one that took nothing while output was
    /// pending. Otherwise the bytes taken leave the queue; an empty queue
    /// changes the registration to read-only, a rest asks for the next write.
    pub open spec fn written(self, id: usize, outcome: WriteOutcome) -> (
        NetView<S>,
        ActionView<S>,
    ) {
        if !self.pending.contains_key(id) || self.pending[id].registered is None {
            (self, ActionView::Idle)
        } else {
            match outcome {
                WriteOutcome::WouldBlock => (self, ActionView::Idle),
                WriteOutcome::Failed => self.closed(id),
                WriteOutcome::Written(n) => {
                    let conn = self.pending[id].advanced(n as int);
                    if n == 0 && self.pending[id].queued.len() > 0 {
                        self.closed(id)
                    } else if conn.queued.len() == 0 {
                        (
                            NetView {
                                pending: self.pending.insert(
                                    id,
                                    conn.registered_as(Some(Interest::Readable)),
                                ),
                                ..self
                            },
                            ActionView::Reregister { id, interest: Interest::Readable },
                        )
                    } else {
                        (
                            NetView { pending: self.pending.insert(id, conn), ..self },
                            ActionView::Continue { id },
                        )
                    }
                },
            }
        }
    }

    /// An event goes to the worker under the cursor; without workers it is
    /// dropped.
    pub open spec fn emitted(self, event: EventView, tokens: Seq<Seq<char>>) -> (
        NetView<S>,
        ActionView<S>,
    ) {
        if self.readers > 0 {
            (
                self.turned(),
                ActionView::WriteDataWithPath { reader: self.cursor as usize, event, tokens },
            )
        } else {
            (self, ActionView::Idle)
        }
    }

    /// The pending connection with the smallest identifier whose peer sent
    /// `token` is accepted; nothing happens when there is none.
    pub open spec fn accepted_by_token(self, token: Seq<char>) -> (NetView<S>, ActionView<S>) {
        if none_with_token(self.pending, token) {
            (self, ActionView::Idle)
        } else {
            self.accepted(choose|id: usize| first_with_token(self.pending, token, id))
        }
    }

    /// A command arrived. An adoption takes the last socket of the command,
    /// an acceptance its first token, an event its last event and all its
    /// tokens; a command that lacks what it needs does nothing.
    pub open spec fn notified(
        self,
        cmd: TcpNetworkCMD,
        socket: Seq<S>,
        token: Seq<Seq<char>>,
        event: Seq<EventView>,
    ) -> (NetView<S>, ActionView<S>) {
        match cmd {
            TcpNetworkCMD::HandleClientConnection => {
                if socket.len() == 0 {
                    (self, ActionView::Idle)
                } else {
                    self.added(socket.last(), true)
                }
            },
            TcpNetworkCMD::AcceptPendingConnection => {
                if token.len() == 0 {
                    (self, ActionView::Idle)
                } else {
                    self.accepted_by_token(token[0])
                }
            },
            TcpNetworkCMD::EmitEvent => {
                if event.len() == 0 {
                    (self, ActionView::Idle)
                } else {
                    self.emitted(event.last(), token)
                }
            },
        }
    }
}

} // verus!
