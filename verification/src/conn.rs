//! The connection envelope: what the engine knows of one socket while its
//! handshake is under way.
//!
//! The read side is a function of the bytes received so far. The envelope
//! asks for exactly the bytes of the field it is reading, so it never takes a
//! byte that follows the handshake frame. The write side is a queue of
//! buffers that drains from the front.

use crate::identity::{decode_identity, parse_identity, DecodeError, PeerIdentity};
use crate::wire::{append_bytes, be_value, get_u32, CURRENT_API_VERSION, FIELD_LEN, HEADER_LEN};
use vstd::prelude::*;

verus! {

/// Which side opened the connection.
#[derive(Debug, Clone, Copy, PartialEq, Eq)]
pub enum Origin {
    /// Accepted from the listener. The peer speaks first, and the application
    /// confirms the peer before the connection goes to a worker.
    Inbound,
    /// Opened by this node, which speaks first.
    Outbound,
}

/// The readiness that a socket is registered for. Registration is
/// edge-triggered throughout.
#[derive(Debug, Clone, Copy, PartialEq, Eq)]
pub enum Interest {
    Readable,
    ReadWrite,
}

/// How far a handshake has come, as a function of the bytes received.
pub enum ProgressView {
    /// Fewer than four bytes have arrived.
    AwaitingVersion,
    /// The version is known; length or payload are incomplete.
    AwaitingIdentity,
    /// The whole frame has arrived and carries this token and value.
    Complete(Seq<char>, Seq<char>),
    /// The frame is refused.
    Failed(DecodeError),
}

/// How far a handshake has come, without the identity.
#[derive(Debug, Clone, Copy, PartialEq, Eq)]
pub enum Stage {
    AwaitingVersion,
    AwaitingIdentity,
    Complete,
    Failed(DecodeError),
}

/// The stage of a progress.
pub open spec fn stage_of(progress: ProgressView) -> Stage {
    match progress {
        ProgressView::AwaitingVersion => Stage::AwaitingVersion,
        ProgressView::AwaitingIdentity => Stage::AwaitingIdentity,
        ProgressView::Complete(_, _) => Stage::Complete,
        ProgressView::Failed(e) => Stage::Failed(e),
    }
}

/// The version field of a stream that holds at least four bytes.
pub open spec fn version_of(received: Seq<u8>) -> int {
    be_value(received.subrange(0, 4))
}

/// The length field of a stream that holds at least eight bytes.
pub open spec fn length_of(received: Seq<u8>) -> int {
    be_value(received.subrange(4, 8))
}

/// A version that this node accepts.
pub open spec fn version_ok(version: int) -> bool {
    1 <= version <= CURRENT_API_VERSION
}

/// How many bytes the handshake still asks for before its current field is
/// whole: the rest of the version, then the rest of the length, then the rest
/// of the payload; nothing once the frame is whole or refused.
pub open spec fn demand(received: Seq<u8>) -> int {
    if received.len() < 4 {
        4 - received.len()
    } else if !version_ok(version_of(received)) {
        0
    } else if received.len() < 8 {
        8 - received.len()
    } else if received.len() < 8 + length_of(received) {
        8 + length_of(received) - received.len()
    } else {
        0
    }
}

/// The stream holds no byte beyond the field that the handshake was reading.
pub open spec fn within_frame(received: Seq<u8>) -> bool {
    ||| received.len() <= 4
    ||| version_ok(version_of(received)) && received.len() <= 8
    ||| version_ok(version_of(received)) && received.len() <= 8 + length_of(received)
}

/// How far the handshake has come after `received`.
pub open spec fn progress_of(received: Seq<u8>) -> ProgressView {
    if received.len() < 4 {
        ProgressView::AwaitingVersion
    } else if !version_ok(version_of(received)) {
        ProgressView::Failed(DecodeError::UnsupportedVersion)
    } else if received.len() < 8 || received.len() < 8 + length_of(received) {
        ProgressView::AwaitingIdentity
    } else {
        match parse_identity(received.subrange(8, 8 + length_of(received))) {
            Ok((token, value)) => ProgressView::Complete(token, value),
            Err(e) => ProgressView::Failed(e),
        }
    }
}

/// What is left of a queue of buffers after its first `n` bytes have been
/// written: whole buffers leave from the front, and the buffer that the
/// `n`-th byte falls into keeps its rest.
pub open spec fn drop_front(queue: Seq<Seq<u8>>, n: int) -> Seq<Seq<u8>>
    decreases queue.len(),
{
    if n <= 0 || queue.len() == 0 {
        queue
    } else if n < queue[0].len() {
        queue.update(0, queue[0].skip(n))
    } else {
        drop_front(queue.drop_first(), n - queue[0].len())
    }
}

/// Every buffer of the queue holds at least one byte.
pub open spec fn no_empty_buffer(queue: Seq<Seq<u8>>) -> bool {
    forall|i: int| 0 <= i < queue.len() ==> queue[i].len() > 0
}

/// How many bytes a flush of `n` bytes takes from a stream of `len` bytes.
pub open spec fn flushed(n: int, len: int) -> int {
    if n < 0 {
        0
    } else if n <= len {
        n
    } else {
        len
    }
}

/// Partial flush: dropping `n` bytes from the front of a queue drops them
/// from the front of its byte stream, all of it when `n` is more than it
/// holds, and leaves no empty buffer behind.
pub proof fn lemma_drop_front_stream(queue: Seq<Seq<u8>>, n: int)
    requires
        no_empty_buffer(queue),
    ensures
        drop_front(queue, n).flatten() == queue.flatten().skip(
            flushed(n, queue.flatten().len() as int),
        ),
        no_empty_buffer(drop_front(queue, n)),
    decreases queue.len(),
{
    if n <= 0 || queue.len() == 0 {
        assert(queue.flatten().skip(0) =~= queue.flatten());
    } else if n < queue[0].len() {
        let cut = queue.update(0, queue[0].skip(n));
        assert(cut.drop_first() =~= queue.drop_first());
        assert(cut.flatten() =~= queue.flatten().skip(n));
    } else {
        let rest = queue.drop_first();
        let m = n - queue[0].len();
        lemma_drop_front_stream(rest, m);
        let total = queue.flatten().len() as int;
        assert(queue.flatten() =~= queue[0] + rest.flatten());
        assert(queue.flatten().skip(flushed(n, total)) =~= rest.flatten().skip(
            flushed(m, rest.flatten().len() as int),
        ));
    }
}

/// An identity as its two texts, where there is one.
pub open spec fn identity_view(peer: Option<PeerIdentity>) -> Option<(Seq<char>, Seq<char>)> {
    match peer {
        Some(p) => Some((p.token@, p.value@)),
        None => None,
    }
}

/// How many of `data`'s bytes a handshake takes after `received`.
pub open spec fn intake(received: Seq<u8>, data: Seq<u8>) -> int {
    if data.len() <= demand(received) {
        data.len() as int
    } else {
        demand(received)
    }
}

/// The ghost form of an envelope.
pub struct ConnView<S> {
    /// The identifier of the socket.
    pub id: usize,
    /// Which side opened the connection.
    pub side: Origin,
    /// The socket.
    pub sock: S,
    /// What the socket is registered for with the readiness multiplexer;
    /// `None` while it is not registered.
    pub registered: Option<Interest>,
    /// Every byte received so far.
    pub received: Seq<u8>,
    /// The buffers still queued for writing, the first one without the bytes
    /// that were written already.
    pub queued: Seq<Seq<u8>>,
}

impl<S> ConnView<S> {
    /// A fresh envelope: not registered, nothing received, nothing queued.
    pub open spec fn fresh(sock: S, id: usize, side: Origin) -> ConnView<S> {
        ConnView { id, side, sock, registered: None, received: Seq::empty(), queued: Seq::empty() }
    }

    /// The envelope after its registration changed to `interest`.
    pub open spec fn registered_as(self, interest: Option<Interest>) -> ConnView<S> {
        ConnView { registered: interest, ..self }
    }

    /// How far the handshake has come.
    pub open spec fn progress(self) -> ProgressView {
        progress_of(self.received)
    }

    /// The identity of the peer, once the whole frame has arrived.
    pub open spec fn peer(self) -> Option<(Seq<char>, Seq<char>)> {
        match self.progress() {
            ProgressView::Complete(token, value) => Some((token, value)),
            _ => None,
        }
    }

    /// The bytes still to be written, in order.
    pub open spec fn pending_output(self) -> Seq<u8> {
        self.queued.flatten()
    }

    /// The envelope after `data` was offered to its handshake.
    pub open spec fn fed(self, data: Seq<u8>) -> ConnView<S> {
        ConnView { received: self.received + data.take(intake(self.received, data)), ..self }
    }

    /// The envelope after `bytes` joined its write queue.
    pub open spec fn with_output(self, bytes: Seq<u8>) -> ConnView<S> {
        if bytes.len() == 0 {
            self
        } else {
            ConnView { queued: self.queued.push(bytes), ..self }
        }
    }

    /// The envelope after the socket took `n` bytes of its output.
    pub open spec fn advanced(self, n: int) -> ConnView<S> {
        ConnView { queued: drop_front(self.queued, n), ..self }
    }
}

/// The envelope of one socket. `S` is the socket, which the envelope owns and
/// never looks into.
#[derive(Debug)]
pub struct TcpConn<S> {
    socket: S,
    socket_token: usize,
    origin: Origin,
    registered: Option<Interest>,
    received: Vec<u8>,
    conn_value: Option<PeerIdentity>,
    failure: Option<DecodeError>,
    write_queue: Vec<Vec<u8>>,
    write_offset: usize,
}

impl<S> View for TcpConn<S> {
    type V = ConnView<S>;

    open spec fn view(&self) -> ConnView<S> {
        ConnView {
            id: self.id(),
            side: self.side(),
            sock: self.sock(),
            registered: self.registration(),
            received: self.received(),
            queued: self.queued(),
        }
    }
}

impl<S> TcpConn<S> {
    /// The envelope is consistent: the outcome it keeps is the one that the
    /// received bytes determine, no byte beyond the frame was taken, the
    /// queue holds no empty buffer and the offset lies inside the first one.
    pub closed spec fn wf(&self) -> bool {
        &&& within_frame(self.received@)
        &&& match progress_of(self.received@) {
            ProgressView::Complete(token, value) => self.failure is None && identity_view(
                self.conn_value,
            ) == Some((token, value)),
            ProgressView::Failed(e) => self.failure == Some(e) && self.conn_value is None,
            _ => self.failure is None && self.conn_value is None,
        }
        &&& forall|i: int| 0 <= i < self.write_queue@.len() ==> self.write_queue@[i]@.len() > 0
        &&& if self.write_queue@.len() == 0 {
            self.write_offset == 0
        } else {
            self.write_offset < self.write_queue@[0]@.len()
        }
    }

    /// The identifier of the socket.
    pub closed spec fn id(&self) -> usize {
        self.socket_token
    }

    /// Which side opened the connection.
    pub closed spec fn side(&self) -> Origin {
        self.origin
    }

    /// The socket.
    pub closed spec fn sock(&self) -> S {
        self.socket
    }

    /// What the socket is registered for.
    pub closed spec fn registration(&self) -> Option<Interest> {
        self.registered
    }

    /// Every byte received so far.
    pub closed spec fn received(&self) -> Seq<u8> {
        self.received@
    }

    /// The buffers still queued, the first one without the bytes that were
    /// written already.
    pub closed spec fn queued(&self) -> Seq<Seq<u8>> {
        Seq::new(
            self.write_queue@.len(),
            |i: int|
                if i == 0 {
                    self.write_queue@[0]@.skip(self.write_offset as int)
                } else {
                    self.write_queue@[i]@
                },
        )
    }

    /// A fresh envelope: nothing received, nothing queued.
    pub fn new(socket: S, socket_token: usize, origin: Origin) -> (conn: TcpConn<S>)
        ensures
            conn.wf(),
            conn@ == ConnView::fresh(socket, socket_token, origin),
    {
        let conn = TcpConn {
            socket,
            socket_token,
            origin,
            registered: None,
            received: Vec::new(),
            conn_value: None,
            failure: None,
            write_queue: Vec::new(),
            write_offset: 0,
        };
        assert(conn.queued() =~= Seq::<Seq<u8>>::empty());
        assert(conn.received() =~= Seq::<u8>::empty());
        conn
    }

    /// The identifier of the socket.
    pub fn socket_token(&self) -> (id: usize)
        ensures
            id == self@.id,
    {
        self.socket_token
    }

    /// Which side opened the connection.
    pub fn origin(&self) -> (origin: Origin)
        ensures
            origin == self@.side,
    {
        self.origin
    }

    /// Whether the connection was accepted from the listener.
    pub fn from_server(&self) -> (inbound: bool)
        ensures
            inbound == (self@.side is Inbound),
    {
        match self.origin {
            Origin::Inbound => true,
            Origin::Outbound => false,
        }
    }

    /// What the socket is registered for.
    pub fn interest(&self) -> (interest: Option<Interest>)
        ensures
            interest == self@.registered,
    {
        self.registered
    }

    /// Records that the registration of the socket changed to `interest`.
    pub fn set_interest(&mut self, interest: Option<Interest>)
        requires
            old(self).wf(),
        ensures
            final(self).wf(),
            final(self)@ == old(self)@.registered_as(interest),
    {
        let ghost queued = self.queued();
        self.registered = interest;
        assert(self.queued() =~= queued);
    }

    /// The socket.
    pub fn socket(&self) -> (socket: &S)
        ensures
            *socket == self@.sock,
    {
        &self.socket
    }

    /// Gives up the envelope for its socket.
    pub fn into_socket(self) -> (socket: S)
        ensures
            socket == self@.sock,
    {
        self.socket
    }

    /// The version that the peer sent, once its four bytes have arrived.
    pub fn api_version(&self) -> (version: Option<u32>)
        ensures
            match version {
                Some(v) => self@.received.len() >= 4 && v == version_of(self@.received),
                None => self@.received.len() < 4,
            },
    {
        if self.received.len() < FIELD_LEN {
            None
        } else {
            Some(get_u32(self.received.as_slice(), 0))
        }
    }

    /// The identity of the peer, once the whole frame has arrived.
    pub fn conn_value(&self) -> (peer: &Option<PeerIdentity>)
        requires
            self.wf(),
        ensures
            identity_view(*peer) == self@.peer(),
    {
        &self.conn_value
    }

    /// How many bytes the handshake asks for next.
    pub fn read_demand(&self) -> (n: u64)
        ensures
            n == demand(self@.received),
    {
        demand_of(self.received.as_slice())
    }

    /// Takes from `data` the bytes that the handshake asks for, at most
    /// `demand` of them, and says how many it took. When they complete the
    /// frame, the identity in it is decoded.
    pub fn feed(&mut self, data: &[u8]) -> (taken: usize)
        requires
            old(self).wf(),
        ensures
            final(self).wf(),
            taken == intake(old(self)@.received, data@),
            final(self)@ == old(self)@.fed(data@),
    {
        let want: u64 = demand_of(self.received.as_slice());
        let taken: usize = if data.len() as u64 <= want {
            data.len()
        } else {
            want as usize
        };
        let ghost before = self.received@;
        if taken == 0 {
            assert(before + data@.take(0) =~= before);
            return 0;
        }
        let ghost queued = self.queued();
        append_bytes(&mut self.received, vstd::slice::slice_subrange(data, 0, taken));
        let have: usize = self.received.len();
        proof {
            assert(data@.subrange(0, taken as int) =~= data@.take(taken as int));
            if before.len() >= 4 {
                assert(self.received@.subrange(0, 4) =~= before.subrange(0, 4));
            }
            if before.len() >= 8 {
                assert(self.received@.subrange(4, 8) =~= before.subrange(4, 8));
            }
            assert(self.queued() =~= queued);
        }
        if have >= FIELD_LEN {
            let version = get_u32(self.received.as_slice(), 0);
            if version < 1 || version > CURRENT_API_VERSION {
                self.failure = Some(DecodeError::UnsupportedVersion);
            } else if have >= HEADER_LEN {
                let length = get_u32(self.received.as_slice(), FIELD_LEN);
                if have as u64 >= HEADER_LEN as u64 + length as u64 {
                    let payload = vstd::slice::slice_subrange(
                        self.received.as_slice(),
                        HEADER_LEN,
                        have,
                    );
                    match decode_identity(payload) {
                        Ok(peer) => {
                            self.conn_value = Some(peer);
                        },
                        Err(e) => {
                            self.failure = Some(e);
                        },
                    }
                }
            }
        }
        proof {
            assert(self.queued() =~= queued);
        }
        taken
    }

    /// How far the handshake has come.
    pub fn stage(&self) -> (stage: Stage)
        requires
            self.wf(),
        ensures
            stage == stage_of(self@.progress()),
    {
        if self.conn_value.is_some() {
            Stage::Complete
        } else {
            match self.failure {
                Some(e) => Stage::Failed(e),
                None => {
                    if self.received.len() < FIELD_LEN {
                        Stage::AwaitingVersion
                    } else {
                        Stage::AwaitingIdentity
                    }
                },
            }
        }
    }

    /// Puts `data` at the end of the write queue. An empty buffer is dropped.
    pub fn add_writable_data(&mut self, data: Vec<u8>)
        requires
            old(self).wf(),
        ensures
            final(self).wf(),
            final(self)@ == old(self)@.with_output(data@),
            final(self)@.pending_output() == old(self)@.pending_output() + data@,
    {
        let ghost before = self.queued();
        if data.len() == 0 {
            assert(before.flatten() + data@ =~= before.flatten());
            return ;
        }
        self.write_queue.push(data);
        proof {
            assert(self.queued() =~~= before.push(data@));
            before.lemma_flatten_push(data@);
        }
    }

    /// Whether anything is left to write.
    pub fn has_output(&self) -> (some: bool)
        requires
            self.wf(),
        ensures
            some == (self@.queued.len() > 0),
            some == (self@.pending_output().len() > 0),
    {
        proof {
            self.lemma_queue_shape();
        }
        self.write_queue.len() > 0
    }

    /// The bytes to hand to the socket next: what is left of the first
    /// buffer, `None` when the queue is empty.
    pub fn next_chunk(&self) -> (chunk: Option<&[u8]>)
        requires
            self.wf(),
        ensures
            match chunk {
                Some(bytes) => self@.queued.len() > 0 && bytes@ == self@.queued[0] && bytes@.len()
                    > 0,
                None => self@.queued.len() == 0,
            },
    {
        if self.write_queue.len() == 0 {
            None
        } else {
            let first = self.write_queue[0].as_slice();
            let end: usize = first.len();
            let rest = vstd::slice::slice_subrange(first, self.write_offset, end);
            assert(rest@ =~= self.queued()[0]);
            Some(rest)
        }
    }

    /// Records that the socket took the first `n` bytes of the pending
    /// output, or all of it if there were fewer. Says whether the queue is
    /// now empty.
    pub fn advance(&mut self, n: usize) -> (done: bool)
        requires
            old(self).wf(),
        ensures
            final(self).wf(),
            final(self)@ == old(self)@.advanced(n as int),
            final(self)@.pending_output() == old(self)@.pending_output().skip(
                flushed(n as int, old(self)@.pending_output().len() as int),
            ),
            done == (final(self)@.queued.len() == 0),
            done == (final(self)@.pending_output().len() == 0),
    {
        proof {
            self.lemma_queue_shape();
            lemma_drop_front_stream(self.queued(), n as int);
        }
        let mut left: usize = n;
        while left > 0 && self.write_queue.len() > 0
            invariant
                self.wf(),
                drop_front(self.queued(), left as int) == drop_front(old(self).queued(), n as int),
                self.received() == old(self).received(),
                self.registration() == old(self).registration(),
                self.id() == old(self).id(),
                self.side() == old(self).side(),
                self.sock() == old(self).sock(),
            decreases left,
        {
            let ghost queue = self.queued();
            let avail: usize = self.write_queue[0].len() - self.write_offset;
            if left < avail {
                self.write_offset = self.write_offset + left;
                assert(self.queued() =~~= queue.update(0, queue[0].skip(left as int)));
                left = 0;
            } else {
                let _ = self.write_queue.remove(0);
                self.write_offset = 0;
                assert(self.queued() =~~= queue.drop_first());
                left = left - avail;
            }
        }
        proof {
            self.lemma_queue_shape();
        }
        self.write_queue.len() == 0
    }

    /// The queue as kept and the queue as seen have the same length, and
    /// what is seen holds no empty buffer.
    proof fn lemma_queue_shape(&self)
        requires
            self.wf(),
        ensures
            self.queued().len() == self.write_queue@.len(),
            no_empty_buffer(self.queued()),
            (self.queued().len() > 0) == (self.queued().flatten().len() > 0),
    {
        let q = self.queued();
        if q.len() > 0 {
            assert(q.flatten() =~= q.first() + q.drop_first().flatten());
        }
    }
}

/// The byte count that `demand` gives for the received bytes.
fn demand_of(received: &[u8]) -> (n: u64)
    ensures
        n == demand(received@),
{
    let have: usize = received.len();
    if have < FIELD_LEN {
        (FIELD_LEN - have) as u64
    } else {
        let version = get_u32(received, 0);
        if version < 1 || version > CURRENT_API_VERSION {
            0
        } else if have < HEADER_LEN {
            (HEADER_LEN - have) as u64
        } else {
            let length = get_u32(received, FIELD_LEN);
            let whole: u64 = HEADER_LEN as u64 + length as u64;
            if (have as u64) < whole {
                whole - have as u64
            } else {
                0
            }
        }
    }
}

} // verus!
