//! The acceptor and handshake engine.
//!
//! The engine owns the table of pending connections, this node's identity
//! and the cursor over the workers. It performs no input or output: its
//! caller runs the readiness loop, reports what each socket did, and carries
//! out the action that the engine answers with.

use crate::conn::{demand, ConnView, Interest, Origin, Stage, TcpConn};
use crate::event::{
    pending_connection_event, token_texts, Action, Event, ReadOutcome, TcpNetworkCMD,
    TcpNetworkCommand, WriteOutcome, EVENT_ON_PENDING_CONNECTION, FIRST_CONN_TOKEN,
};
use crate::identity::{decimal_text, NodeIdentity, PeerIdentity, SetupError};
use crate::model::NetView;
use crate::ring::ReaderRing;
use crate::table::{first_with_token, PendingTable};
use vstd::prelude::*;
use vstd::string::StrSliceExecFns;

verus! {

/// The event that announces `peer` to the application.
pub fn on_pending_connection(peer: &PeerIdentity) -> (event: Event)
    ensures
        event@ == pending_connection_event(peer.token@, peer.value@),
{
    Event {
        name: EVENT_ON_PENDING_CONNECTION.to_owned(),
        data: peer.value.as_str().as_bytes_vec(),
        from: peer.token.clone(),
    }
}

/// The engine. `S` is the type of the sockets, which the engine owns while
/// their connections are pending and never looks into.
pub struct TcpNetwork<S> {
    pending_connections: PendingTable<S>,
    identity: NodeIdentity,
    readers: ReaderRing,
    next_token: usize,
}

impl<S> View for TcpNetwork<S> {
    type V = NetView<S>;

    closed spec fn view(&self) -> NetView<S> {
        NetView {
            pending: self.pending_connections@,
            readers: self.readers.size(),
            cursor: self.readers.cursor(),
            next_id: self.next_token as int,
            token: self.identity.token_text(),
            value: self.identity.value_text(),
        }
    }
}

impl<S> TcpNetwork<S> {
    /// The engine is consistent.
    pub closed spec fn wf(&self) -> bool {
        &&& self.pending_connections.wf()
        &&& self@.inv()
    }

    /// The ghost form of a consistent engine satisfies the model's invariant.
    pub proof fn lemma_inv(&self)
        requires
            self.wf(),
        ensures
            self@.inv(),
    {
    }

    /// An engine for the node `token` with ring value `value`, without
    /// pending connections and without workers. The value is read as a
    /// decimal integer; the identity is refused as `NodeIdentity::new`
    /// refuses it.
    pub fn new(token: String, value: String) -> (out: Result<TcpNetwork<S>, SetupError>)
        ensures
            match (out, NodeIdentity::checked(token@, decimal_text(value@))) {
                (Ok(net), Ok((own_token, own_value))) => net.wf() && net@ == NetView::<S>::initial(
                    own_token,
                    own_value,
                ),
                (Err(e), Err(refusal)) => e == refusal,
                _ => false,
            },
    {
        match NodeIdentity::new(token, value.as_str()) {
            Err(e) => Err(e),
            Ok(identity) => {
                let net = TcpNetwork {
                    pending_connections: PendingTable::new(),
                    identity,
                    readers: ReaderRing::new(0),
                    next_token: FIRST_CONN_TOKEN,
                };
                assert(net@.pending =~= Map::<usize, ConnView<S>>::empty());
                Ok(net)
            },
        }
    }

    /// Sets the pool to `readers_count` workers and the cursor to the first.
    /// An empty pool is refused and changes nothing.
    pub fn run(&mut self, readers_count: usize) -> (out: Result<(), SetupError>)
        requires
            old(self).wf(),
        ensures
            final(self).wf(),
            readers_count == 0 ==> out == Err::<(), _>(SetupError::NoWorkers) && final(self)@
                == old(self)@,
            readers_count > 0 ==> out is Ok && final(self)@ == old(self)@.started(
                readers_count as int,
            ),
    {
        if readers_count == 0 {
            return Err(SetupError::NoWorkers);
        }
        self.readers = ReaderRing::new(readers_count);
        Ok(())
    }

    /// What the socket of pending connection `id` is registered for.
    pub fn interest(&self, id: usize) -> (interest: Option<Interest>)
        requires
            self.wf(),
        ensures
            interest == if self@.pending.contains_key(id) {
                self@.pending[id].registered
            } else {
                None
            },
    {
        match self.pending_connections.get(id) {
            Some(conn) => conn.interest(),
            None => None,
        }
    }

    /// The socket of pending connection `id`.
    pub fn socket(&self, id: usize) -> (socket: Option<&S>)
        requires
            self.wf(),
        ensures
            match socket {
                Some(s) => self@.pending.contains_key(id) && *s == self@.pending[id].sock,
                None => !self@.pending.contains_key(id),
            },
    {
        match self.pending_connections.get(id) {
            Some(conn) => Some(conn.socket()),
            None => None,
        }
    }

    /// How many bytes the handshake of connection `id` asks for next; 0 for
    /// an unknown connection.
    pub fn read_demand(&self, id: usize) -> (n: u64)
        requires
            self.wf(),
        ensures
            n == if self@.pending.contains_key(id) {
                demand(self@.pending[id].received)
            } else {
                0
            },
    {
        match self.pending_connections.get(id) {
            Some(conn) => conn.read_demand(),
            None => 0,
        }
    }

    /// The bytes to hand to the socket of connection `id` next: what is left
    /// of its first queued buffer.
    pub fn write_demand(&self, id: usize) -> (chunk: Option<&[u8]>)
        requires
            self.wf(),
        ensures
            match chunk {
                Some(bytes) => self@.pending.contains_key(id) && self@.pending[id].queued.len() > 0
                    && bytes@ == self@.pending[id].queued[0],
                None => !self@.pending.contains_key(id) || self@.pending[id].queued.len() == 0,
            },
    {
        match self.pending_connections.get(id) {
            Some(conn) => conn.next_chunk(),
            None => None,
        }
    }

    /// Whether a connection is pending under `id`.
    pub fn is_pending(&self, id: usize) -> (pending: bool)
        requires
            self.wf(),
        ensures
            pending == self@.pending.contains_key(id),
    {
        self.pending_connections.contains(id)
    }

    /// Selects the worker for the next dispatch.
    pub fn get_reader(&mut self) -> (reader: Option<usize>)
        requires
            old(self).wf(),
        ensures
            final(self).wf(),
            final(self)@ == old(self)@.turned(),
            reader == if old(self)@.readers > 0 {
                Some(old(self)@.cursor as usize)
            } else {
                None
            },
    {
        self.readers.pick()
    }

    /// Queues this node's handshake frame on `conn`.
    pub fn write_handshake_info(&self, conn: &mut TcpConn<S>)
        requires
            self.wf(),
            old(conn).wf(),
        ensures
            final(conn).wf(),
            final(conn)@ == old(conn)@.with_output(self@.handshake()),
    {
        conn.add_writable_data(self.identity.handshake());
    }

    /// Takes a socket into the table.
    pub fn add_pending_conn(&mut self, socket: S, from_client: bool) -> (action: Action<S>)
        requires
            old(self).wf(),
        ensures
            final(self).wf(),
            (final(self)@, action@) == old(self)@.added(socket, from_client),
    {
        if self.next_token >= usize::MAX {
            return Action::Refused;
        }
        let id: usize = self.next_token;
        let (origin, interest) = if from_client {
            (Origin::Outbound, Interest::ReadWrite)
        } else {
            (Origin::Inbound, Interest::Readable)
        };
        let mut conn = TcpConn::new(socket, id, origin);
        if from_client {
            self.write_handshake_info(&mut conn);
        }
        conn.set_interest(Some(interest));
        self.pending_connections.insert(conn);
        self.next_token = self.next_token + 1;
        Action::Register { id, interest }
    }

    /// Takes the sockets that the listener gave in one wakeup into the
    /// table, in order, and answers with one action for each.
    pub fn acceptable(&mut self, accepted: Vec<S>) -> (actions: Vec<Action<S>>)
        requires
            old(self).wf(),
        ensures
            final(self).wf(),
            (final(self)@, actions@.map_values(|a: Action<S>| a@)) == old(self)@.added_all(
                accepted@,
            ),
    {
        let mut accepted = accepted;
        let mut actions: Vec<Action<S>> = Vec::new();
        let ghost all = accepted@;
        let ghost start = self@;
        while accepted.len() > 0
            invariant
                self.wf(),
                ({
                    let (last, rest) = self@.added_all(accepted@);
                    (last, actions@.map_values(|a: Action<S>| a@) + rest) == start.added_all(all)
                }),
            decreases accepted@.len(),
        {
            let ghost before = self@;
            let ghost queue = accepted@;
            let ghost done = actions@.map_values(|a: Action<S>| a@);
            let socket = accepted.remove(0);
            let action = self.add_pending_conn(socket, false);
            actions.push(action);
            proof {
                assert(accepted@ =~= queue.drop_first());
                let (last, rest) = self@.added_all(accepted@);
                assert(actions@.map_values(|a: Action<S>| a@) =~= done.push(action@));
                assert(done.push(action@) + rest =~= done + (seq![action@] + rest));
            }
        }
        proof {
            let (last, rest) = self@.added_all(accepted@);
            assert(actions@.map_values(|a: Action<S>| a@) + rest =~= actions@.map_values(
                |a: Action<S>| a@,
            ));
        }
        actions
    }

    /// Closes connection `id`.
    pub fn close_connection(&mut self, id: usize) -> (action: Action<S>)
        requires
            old(self).wf(),
        ensures
            final(self).wf(),
            (final(self)@, action@) == old(self)@.closed(id),
    {
        let ghost before = self@;
        match self.pending_connections.remove(id) {
            Some(_) => Action::Closed { id },
            None => {
                assert(self@.pending =~= before.pending);
                Action::Idle
            },
        }
    }

    /// Hands connection `id` to the next worker.
    pub fn accept_conn(&mut self, id: usize) -> (action: Action<S>)
        requires
            old(self).wf(),
        ensures
            final(self).wf(),
            (final(self)@, action@) == old(self)@.accepted(id),
    {
        let ghost before = self@;
        let mut conn = match self.pending_connections.remove(id) {
            Some(conn) => conn,
            None => {
                assert(self@.pending =~= before.pending);
                return Action::Idle;
            },
        };
        if conn.from_server() {
            self.write_handshake_info(&mut conn);
        }
        conn.set_interest(None);
        match self.get_reader() {
            Some(reader) => Action::HandOff { reader, conn },
            None => Action::Closed { id },
        }
    }

    /// Forwards `ev` for the peers `tokens` to the next worker.
    pub fn emit(&mut self, ev: Event, tokens: Vec<String>) -> (action: Action<S>)
        requires
            old(self).wf(),
        ensures
            final(self).wf(),
            (final(self)@, action@) == old(self)@.emitted(ev@, token_texts(tokens@)),
    {
        match self.get_reader() {
            Some(reader) => Action::WriteDataWithPath { reader, event: ev, tokens },
            None => Action::Idle,
        }
    }

    /// Reports what one read on connection `id` gave. When `outcome` holds
    /// more bytes than the handshake asked for, the rest is ignored.
    pub fn readable(&mut self, id: usize, outcome: ReadOutcome) -> (action: Action<S>)
        requires
            old(self).wf(),
        ensures
            final(self).wf(),
            (final(self)@, action@) == old(self)@.read(id, outcome@),
    {
        let reading = match self.pending_connections.get(id) {
            Some(conn) => conn.conn_value().is_none(),
            None => false,
        };
        if !reading {
            return Action::Idle;
        }
        let bytes = match outcome {
            ReadOutcome::WouldBlock => {
                return Action::Idle;
            },
            ReadOutcome::Failed => {
                return self.close_connection(id);
            },
            ReadOutcome::Data(bytes) => bytes,
        };
        if bytes.len() == 0 {
            return self.close_connection(id);
        }
        let ghost before = self@;
        let mut conn = match self.pending_connections.remove(id) {
            Some(conn) => conn,
            None => {
                return Action::Idle;
            },
        };
        let _ = conn.feed(bytes.as_slice());
        match conn.stage() {
            Stage::Failed(_) => {
                assert(self@.pending =~= before.pending.remove(id));
                Action::Closed { id }
            },
            Stage::Complete => {
                let announcement = if conn.from_server() {
                    match conn.conn_value() {
                        Some(peer) => Some(on_pending_connection(peer)),
                        None => None,
                    }
                } else {
                    None
                };
                conn.set_interest(None);
                let ghost fed = conn@;
                self.pending_connections.insert(conn);
                assert(self@.pending =~= before.pending.insert(id, fed));
                match announcement {
                    Some(event) => Action::Notify { id, event },
                    None => self.accept_conn(id),
                }
            },
            _ => {
                let ghost fed = conn@;
                self.pending_connections.insert(conn);
                assert(self@.pending =~= before.pending.insert(id, fed));
                Action::Continue { id }
            },
        }
    }

    /// Reports what one write on connection `id` gave.
    pub fn writable(&mut self, id: usize, outcome: WriteOutcome) -> (action: Action<S>)
        requires
            old(self).wf(),
        ensures
            final(self).wf(),
            (final(self)@, action@) == old(self)@.written(id, outcome),
    {
        let registered = match self.pending_connections.get(id) {
            Some(conn) => conn.interest().is_some(),
            None => false,
        };
        if !registered {
            return Action::Idle;
        }
        let n = match outcome {
            WriteOutcome::WouldBlock => {
                return Action::Idle;
            },
            WriteOutcome::Failed => {
                return self.close_connection(id);
            },
            WriteOutcome::Written(n) => n,
        };
        let ghost before = self@;
        let mut conn = match self.pending_connections.remove(id) {
            Some(conn) => conn,
            None => {
                return Action::Idle;
            },
        };
        if n == 0 && conn.has_output() {
            assert(self@.pending =~= before.pending.remove(id));
            return Action::Closed { id };
        }
        let done = conn.advance(n);
        if done {
            conn.set_interest(Some(Interest::Readable));
        }
        let ghost moved = conn@;
        self.pending_connections.insert(conn);
        assert(self@.pending =~= before.pending.insert(id, moved));
        if done {
            Action::Reregister { id, interest: Interest::Readable }
        } else {
            Action::Continue { id }
        }
    }

    /// Carries out a command.
    pub fn notify(&mut self, command: TcpNetworkCommand<S>) -> (action: Action<S>)
        requires
            old(self).wf(),
        ensures
            final(self).wf(),
            (final(self)@, action@) == old(self)@.notified(
                command.cmd,
                command.socket@,
                token_texts(command.token@),
                command.event@.map_values(|e: Event| e@),
            ),
    {
        let TcpNetworkCommand { cmd, socket, token, event } = command;
        let mut socket = socket;
        let mut event = event;
        match cmd {
            TcpNetworkCMD::HandleClientConnection => {
                match socket.pop() {
                    Some(s) => self.add_pending_conn(s, true),
                    None => Action::Idle,
                }
            },
            TcpNetworkCMD::AcceptPendingConnection => {
                if token.len() == 0 {
                    return Action::Idle;
                }
                match self.pending_connections.find_token(&token[0]) {
                    Some(id) => {
                        proof {
                            let chosen = choose|c: usize|
                                first_with_token(self@.pending, token@[0]@, c);
                            assert(first_with_token(self@.pending, token@[0]@, id));
                            assert(chosen == id);
                        }
                        self.accept_conn(id)
                    },
                    None => Action::Idle,
                }
            },
            TcpNetworkCMD::EmitEvent => {
                match event.pop() {
                    Some(ev) => self.emit(ev, token),
                    None => Action::Idle,
                }
            },
        }
    }
}

} // verus!
