//! What holds of every run of the engine, proved over its ghost form.

use crate::conn::{demand, length_of, progress_of, version_of, ConnView, ProgressView};
use crate::event::{pending_connection_event, ActionView, EventView, TcpNetworkCMD, WriteOutcome};
use crate::identity::{identity_frame, identity_payload, lemma_identity_round_trip, sep_char};
use crate::model::{NetView, ReadView};
use crate::ring::nth_pick;
use crate::table::{first_with_token, has_token, none_with_token};
use crate::wire::{lemma_frame_fields, CURRENT_API_VERSION};
use vstd::arithmetic::div_mod::{
    lemma_mod_add_multiples_vanish, lemma_mod_bound, lemma_mod_self_0, lemma_small_mod,
};
use vstd::prelude::*;

verus! {

/// One operation of the engine.
pub enum Op<S> {
    Add { sock: S, from_client: bool },
    Accept { id: usize },
    Close { id: usize },
    Read { id: usize, outcome: ReadView },
    Write { id: usize, outcome: WriteOutcome },
    Emit { event: EventView, tokens: Seq<Seq<char>> },
    Command { cmd: TcpNetworkCMD, socket: Seq<S>, token: Seq<Seq<char>>, event: Seq<EventView> },
}

/// The state after `op`, and the action that it asks for.
pub open spec fn step<S>(v: NetView<S>, op: Op<S>) -> (NetView<S>, ActionView<S>) {
    match op {
        Op::Add { sock, from_client } => v.added(sock, from_client),
        Op::Accept { id } => v.accepted(id),
        Op::Close { id } => v.closed(id),
        Op::Read { id, outcome } => v.read(id, outcome),
        Op::Write { id, outcome } => v.written(id, outcome),
        Op::Emit { event, tokens } => v.emitted(event, tokens),
        Op::Command { cmd, socket, token, event } => v.notified(cmd, socket, token, event),
    }
}

/// The state after the operations `ops`, one after the other.
pub open spec fn run_of<S>(v: NetView<S>, ops: Seq<Op<S>>) -> NetView<S>
    decreases ops.len(),
{
    if ops.len() == 0 {
        v
    } else {
        run_of(step(v, ops[0]).0, ops.drop_first())
    }
}

/// 1 when `action` announces the peer of connection `id`, else 0.
pub open spec fn announces<S>(action: ActionView<S>, id: usize) -> nat {
    match action {
        ActionView::Notify { id: announced, .. } => if announced == id {
            1
        } else {
            0
        },
        _ => 0,
    }
}

/// How often a run of `ops` from `v` announces the peer of connection `id`.
pub open spec fn announcements<S>(v: NetView<S>, ops: Seq<Op<S>>, id: usize) -> nat
    decreases ops.len(),
{
    if ops.len() == 0 {
        0
    } else {
        let (next, action) = step(v, ops[0]);
        announces(action, id) + announcements(next, ops.drop_first(), id)
    }
}

/// How often connection `id` can still be announced from `v`: once while its
/// handshake is under way or its identifier is not handed out yet, never
/// once its peer is known or it has left the table.
pub open spec fn announcements_left<S>(v: NetView<S>, id: usize) -> nat {
    if v.pending.contains_key(id) {
        if v.pending[id].peer() is Some {
            0
        } else {
            1
        }
    } else if id >= v.next_id {
        1
    } else {
        0
    }
}

/// The worker that `action` dispatches to, if it dispatches.
pub open spec fn dispatched<S>(action: ActionView<S>) -> Option<usize> {
    match action {
        ActionView::HandOff { reader, .. } => Some(reader),
        ActionView::WriteDataWithPath { reader, .. } => Some(reader),
        _ => None,
    }
}

/// The workers that a run of `ops` from `v` dispatches to, in order.
pub open spec fn dispatches<S>(v: NetView<S>, ops: Seq<Op<S>>) -> Seq<usize>
    decreases ops.len(),
{
    if ops.len() == 0 {
        Seq::empty()
    } else {
        let (next, action) = step(v, ops[0]);
        let rest = dispatches(next, ops.drop_first());
        match dispatched(action) {
            Some(reader) => seq![reader] + rest,
            None => rest,
        }
    }
}

/// The engine as `read` keeps it when `bytes` complete the frame of
/// connection `id`: the bytes are taken and the socket is deregistered.
spec fn known<S>(v: NetView<S>, id: usize, bytes: Seq<u8>) -> NetView<S> {
    NetView { pending: v.pending.insert(id, v.pending[id].fed(bytes).registered_as(None)), ..v }
}

/// The cursor stays inside the pool when it turns.
proof fn lemma_turned<S>(v: NetView<S>)
    requires
        v.inv(),
    ensures
        v.turned().inv(),
{
    if v.readers > 0 {
        lemma_mod_bound(v.cursor + 1, v.readers);
    }
}

/// Accepting keeps the invariant and adds no connection.
proof fn lemma_accepted<S>(v: NetView<S>, id: usize)
    requires
        v.inv(),
    ensures
        v.accepted(id).0.inv(),
        v.accepted(id).0.next_id == v.next_id,
        v.accepted(id).0.readers == v.readers,
        forall|other: usize| #[trigger]
            v.accepted(id).0.pending.contains_key(other) ==> v.pending.contains_key(other)
                && other != id,
{
    let rest = NetView { pending: v.pending.remove(id), ..v };
    assert(rest.inv());
    lemma_turned(rest);
}

/// Every operation keeps the invariant and the size of the pool, never
/// lowers the next identifier, and brings no connection into the table but
/// under the next identifier.
pub proof fn lemma_step_inv<S>(v: NetView<S>, op: Op<S>)
    requires
        v.inv(),
    ensures
        step(v, op).0.inv(),
        step(v, op).0.next_id >= v.next_id,
        step(v, op).0.readers == v.readers,
        forall|id: usize| #[trigger]
            step(v, op).0.pending.contains_key(id) ==> v.pending.contains_key(id) || id
                == v.next_id,
{
    match op {
        Op::Accept { id } => {
            lemma_accepted(v, id);
        },
        Op::Read { id, outcome } => {
            if let ReadView::Data(bytes) = outcome {
                if v.pending.contains_key(id) && v.pending[id].fed(bytes).peer() is Some {
                    assert(known(v, id, bytes).inv());
                    lemma_accepted(known(v, id, bytes), id);
                }
            }
        },
        Op::Emit { event, tokens } => {
            lemma_turned(v);
        },
        Op::Command { cmd, socket, token, event } => {
            lemma_turned(v);
            if token.len() > 0 {
                lemma_accepted(v, choose|id: usize| first_with_token(v.pending, token[0], id));
            }
        },
        _ => {},
    }
}

/// Every run keeps the invariant.
pub proof fn lemma_run_inv<S>(v: NetView<S>, ops: Seq<Op<S>>)
    requires
        v.inv(),
    ensures
        run_of(v, ops).inv(),
    decreases ops.len(),
{
    if ops.len() > 0 {
        lemma_step_inv(v, ops[0]);
        lemma_run_inv(step(v, ops[0]).0, ops.drop_first());
    }
}

/// Ownership moves once: a connection that is handed to a worker or closed
/// was pending and is pending no more, and the worker gets the very socket
/// that was pending, deregistered.
pub proof fn lemma_leaving_is_final<S>(v: NetView<S>, op: Op<S>)
    requires
        v.inv(),
    ensures
        match step(v, op).1 {
            ActionView::HandOff { conn, .. } => v.pending.contains_key(conn.id) && !step(
                v,
                op,
            ).0.pending.contains_key(conn.id) && conn.sock == v.pending[conn.id].sock
                && conn.registered is None,
            ActionView::Closed { id } => v.pending.contains_key(id) && !step(
                v,
                op,
            ).0.pending.contains_key(id),
            _ => true,
        },
{
    lemma_step_inv(v, op);
    match op {
        Op::Read { id, outcome } => {
            if let ReadView::Data(bytes) = outcome {
                if v.pending.contains_key(id) {
                    assert(known(v, id, bytes).pending.contains_key(id));
                }
            }
        },
        _ => {},
    }
}

/// A connection that has left the table never comes back: its identifier is
/// not handed out again.
pub proof fn lemma_gone_stays_gone<S>(v: NetView<S>, ops: Seq<Op<S>>, id: usize)
    requires
        v.inv(),
        id < v.next_id,
        !v.pending.contains_key(id),
    ensures
        !run_of(v, ops).pending.contains_key(id),
    decreases ops.len(),
{
    if ops.len() > 0 {
        lemma_step_inv(v, ops[0]);
        lemma_gone_stays_gone(step(v, ops[0]).0, ops.drop_first(), id);
    }
}

/// An announcement is made only when the bytes just read complete the
/// handshake frame of an accepted connection whose peer was unknown until
/// then. It carries the identity that the frame holds, and the connection
/// stays in the table, deregistered.
pub proof fn lemma_announcement_needs_whole_frame<S>(v: NetView<S>, op: Op<S>, id: usize)
    requires
        v.inv(),
        announces(step(v, op).1, id) == 1,
    ensures
        op matches Op::Read { id: read, outcome: ReadView::Data(_) } && read == id,
        v.pending.contains_key(id),
        v.pending[id].peer() is None,
        step(v, op).0.pending.contains_key(id),
        step(v, op).0.pending[id].side is Inbound,
        step(v, op).0.pending[id].registered is None,
        step(v, op).0.pending[id].received.len() >= 8,
        step(v, op).0.pending[id].received.len() == 8 + length_of(
            step(v, op).0.pending[id].received,
        ),
        step(v, op).0.pending[id].peer() matches Some((token, value)) && step(v, op).1
            == (ActionView::<S>::Notify { id, event: pending_connection_event(token, value) }),
{
    match op {
        Op::Read { id: read, outcome } => {
            if let ReadView::Data(bytes) = outcome {
                if v.pending.contains_key(read) {
                    assert(known(v, read, bytes).pending.contains_key(read));
                }
            }
        },
        _ => {},
    }
}

/// No operation announces more often than is left, and what is left never
/// grows.
proof fn lemma_step_announces<S>(v: NetView<S>, op: Op<S>, id: usize)
    requires
        v.inv(),
    ensures
        announces(step(v, op).1, id) + announcements_left(step(v, op).0, id) <= announcements_left(
            v,
            id,
        ),
{
    lemma_step_inv(v, op);
    match op {
        Op::Read { id: read, outcome } => {
            if let ReadView::Data(bytes) = outcome {
                if v.pending.contains_key(read) {
                    assert(known(v, read, bytes).pending.contains_key(read));
                }
            }
        },
        _ => {},
    }
}

/// The peer of a connection is announced at most once: in no run of the
/// engine does the application hear of the same connection twice.
pub proof fn lemma_announced_at_most_once<S>(v: NetView<S>, ops: Seq<Op<S>>, id: usize)
    requires
        v.inv(),
    ensures
        announcements(v, ops, id) <= announcements_left(v, id),
        announcements(v, ops, id) <= 1,
    decreases ops.len(),
{
    if ops.len() > 0 {
        lemma_step_inv(v, ops[0]);
        lemma_step_announces(v, ops[0], id);
        lemma_announced_at_most_once(step(v, ops[0]).0, ops.drop_first(), id);
    }
}

/// Among the identifiers from `bound` up to `witness` that have learned the
/// token, of which `witness` is one, there is a smallest.
proof fn lemma_first_below<S>(
    table: Map<usize, ConnView<S>>,
    token: Seq<char>,
    witness: usize,
    bound: usize,
)
    requires
        table.contains_key(witness),
        has_token(table[witness], token),
        bound <= witness,
        forall|other: usize|
            bound <= other < witness ==> !(table.contains_key(other) && has_token(
                #[trigger] table[other],
                token,
            )),
    ensures
        exists|id: usize| first_with_token(table, token, id),
    decreases bound,
{
    if bound == 0 {
        assert(first_with_token(table, token, witness));
    } else {
        let below = (bound - 1) as usize;
        if table.contains_key(below) && has_token(table[below], token) {
            lemma_first_below(table, token, below, below);
        } else {
            lemma_first_below(table, token, witness, below);
        }
    }
}

/// Where some envelope has learned a token, one of them has the smallest
/// identifier, and an acceptance by that token hands this one to a worker.
pub proof fn lemma_first_exists<S>(table: Map<usize, ConnView<S>>, token: Seq<char>)
    requires
        !none_with_token(table, token),
    ensures
        exists|id: usize| first_with_token(table, token, id),
{
    let some = choose|id: usize| table.contains_key(id) && has_token(#[trigger] table[id], token);
    lemma_first_below(table, token, some, some);
}

/// A connection whose peer has sent fewer than four bytes is awaiting its
/// version and asks for the rest of it. A read that would block leaves it
/// and the whole engine as they are, and no command touches it.
pub proof fn lemma_short_handshake_stays_pending<S>(
    v: NetView<S>,
    id: usize,
    cmd: TcpNetworkCMD,
    socket: Seq<S>,
    token: Seq<Seq<char>>,
    event: Seq<EventView>,
)
    requires
        v.inv(),
        v.pending.contains_key(id),
        v.pending[id].received.len() < 4,
    ensures
        v.pending[id].progress() == ProgressView::AwaitingVersion,
        demand(v.pending[id].received) == 4 - v.pending[id].received.len(),
        v.read(id, ReadView::WouldBlock) == (v, ActionView::<S>::Idle),
        v.notified(cmd, socket, token, event).0.pending.contains_key(id),
        v.notified(cmd, socket, token, event).0.pending[id] == v.pending[id],
{
    if token.len() > 0 && !none_with_token(v.pending, token[0]) {
        lemma_first_exists(v.pending, token[0]);
    }
}

/// No timeout: a connection whose peer has sent fewer than four bytes leaves
/// the table only when the caller closes or accepts it by its identifier,
/// when a read on it fails, gives nothing or completes the version, or when
/// a write on it fails or takes nothing of what is queued.
pub proof fn lemma_short_handshake_leaves_only_when_told<S>(v: NetView<S>, op: Op<S>, id: usize)
    requires
        v.inv(),
        v.pending.contains_key(id),
        v.pending[id].received.len() < 4,
        !step(v, op).0.pending.contains_key(id),
    ensures
        match op {
            Op::Accept { id: told } => told == id,
            Op::Close { id: told } => told == id,
            Op::Read { id: told, outcome } => told == id && match outcome {
                ReadView::Failed => true,
                ReadView::Data(bytes) => bytes.len() == 0 || v.pending[id].received.len()
                    + bytes.len() >= 4,
                ReadView::WouldBlock => false,
            },
            Op::Write { id: told, outcome } => told == id && match outcome {
                WriteOutcome::Failed => true,
                WriteOutcome::Written(n) => n == 0 && v.pending[id].queued.len() > 0,
                WriteOutcome::WouldBlock => false,
            },
            _ => false,
        },
{
    match op {
        Op::Read { id: told, outcome } => {
            if let ReadView::Data(bytes) = outcome {
                if v.pending.contains_key(told) {
                    assert(known(v, told, bytes).pending.contains_key(id));
                }
            }
        },
        Op::Command { cmd, socket, token, event } => {
            lemma_short_handshake_stays_pending(v, id, cmd, socket, token, event);
        },
        _ => {},
    }
}

/// An acceptance by a token that no pending connection has learned changes
/// nothing and asks for nothing.
pub proof fn lemma_unknown_token_is_noop<S>(
    v: NetView<S>,
    socket: Seq<S>,
    token: Seq<Seq<char>>,
    event: Seq<EventView>,
)
    requires
        token.len() == 0 || none_with_token(v.pending, token[0]),
    ensures
        v.notified(TcpNetworkCMD::AcceptPendingConnection, socket, token, event) == (
            v,
            ActionView::<S>::Idle,
        ),
{
}

/// An operation that dispatches sends to the worker under the cursor and
/// turns the cursor by one, whether it hands off a connection or forwards an
/// event; any other leaves the cursor alone.
pub proof fn lemma_step_cursor<S>(v: NetView<S>, op: Op<S>)
    requires
        v.inv(),
    ensures
        match dispatched(step(v, op).1) {
            Some(reader) => v.readers > 0 && reader == v.cursor && step(v, op).0.cursor == (v.cursor
                + 1) % v.readers,
            None => step(v, op).0.cursor == v.cursor,
        },
{
    match op {
        Op::Read { id, outcome } => {
            if let ReadView::Data(bytes) = outcome {
                if v.pending.contains_key(id) {
                    assert(known(v, id, bytes).pending.contains_key(id));
                }
            }
        },
        _ => {},
    }
}

/// `(c + 1) % n` followed by `k - 1` further steps is `c` followed by `k`.
proof fn lemma_shift_mod(c: int, k: int, n: int)
    requires
        0 <= c < n,
        1 <= k,
    ensures
        ((c + 1) % n + (k - 1)) % n == (c + k) % n,
{
    if c + 1 < n {
        lemma_small_mod((c + 1) as nat, n as nat);
    } else {
        lemma_mod_self_0(n);
        lemma_mod_add_multiples_vanish(k - 1, n);
    }
}

/// Round robin: in every run of the engine the `k`-th dispatch, be it a
/// connection handed off or an event forwarded, goes to the worker `k` steps
/// after the cursor, counted modulo the size of the pool.
pub proof fn lemma_round_robin<S>(v: NetView<S>, ops: Seq<Op<S>>, k: int)
    requires
        v.inv(),
        0 <= k < dispatches(v, ops).len(),
    ensures
        v.readers > 0,
        dispatches(v, ops)[k] == nth_pick(v.cursor, v.readers, k),
    decreases ops.len(),
{
    let (next, action) = step(v, ops[0]);
    lemma_step_inv(v, ops[0]);
    lemma_step_cursor(v, ops[0]);
    match dispatched(action) {
        Some(reader) => {
            if k == 0 {
                lemma_small_mod(v.cursor as nat, v.readers as nat);
            } else {
                lemma_round_robin(next, ops.drop_first(), k - 1);
                lemma_shift_mod(v.cursor, k, v.readers);
            }
        },
        None => {
            lemma_round_robin(next, ops.drop_first(), k);
        },
    }
}

/// The handshake frame of a node, received whole, completes the handshake
/// with that node's token and value, for every token without the separator
/// character.
pub proof fn lemma_frame_completes(token: Seq<char>, value: Seq<char>)
    requires
        !token.contains(sep_char()),
        identity_payload(token, value).len() <= u32::MAX,
    ensures
        progress_of(identity_frame(token, value)) == ProgressView::Complete(token, value),
        demand(identity_frame(token, value)) == 0,
{
    let payload = identity_payload(token, value);
    let frame = identity_frame(token, value);
    lemma_frame_fields(CURRENT_API_VERSION, payload);
    lemma_identity_round_trip(token, value);
    assert(version_of(frame) == CURRENT_API_VERSION);
    assert(length_of(frame) == payload.len());
}

} // verus!
