use tcp_network::conn::{Interest, Origin, Stage, TcpConn};
use tcp_network::event::{
    dispatch, Action, Event, ReadOutcome, Readiness, Step, TcpNetworkCMD,
    TcpNetworkCommand, WriteOutcome, EVENT_ON_PENDING_CONNECTION, FIRST_CONN_TOKEN,
    RECEIVER_CHANNEL_TOKEN, TCP_SERVER_TOKEN,
};
use tcp_network::fault::{severity, Fault, Severity};
use tcp_network::identity::{DecodeError, PeerIdentity, SetupError};
use tcp_network::net::{on_pending_connection, TcpNetwork};

type Net = TcpNetwork<u32>;

fn engine(workers: usize) -> Net {
    let mut net = Net::new("me".to_string(), "5".to_string()).unwrap();
    if workers > 0 {
        net.run(workers).unwrap();
    }
    net
}

fn my_frame() -> Vec<u8> {
    vec![0, 0, 0, 1, 0, 0, 0, 4, b'm', b'e', b'|', b'5']
}

fn frame(token: &str, value: &str) -> Vec<u8> {
    let payload = format!("{}|{}", token, value).into_bytes();
    let mut out = vec![0, 0, 0, 1];
    out.extend_from_slice(&(payload.len() as u32).to_be_bytes());
    out.extend_from_slice(&payload);
    out
}

fn accept_one(net: &mut Net, socket: u32) -> usize {
    let mut actions = net.acceptable(vec![socket]);
    assert_eq!(actions.len(), 1);
    match actions.pop().unwrap() {
        Action::Register { id, interest } => {
            assert_eq!(interest, Interest::Readable);
            id
        }
        other => panic!("unexpected action {:?}", other),
    }
}

fn adopt(net: &mut Net, socket: u32) -> usize {
    let action = net.notify(TcpNetworkCommand {
        cmd: TcpNetworkCMD::HandleClientConnection,
        socket: vec![socket],
        token: vec![],
        event: vec![],
    });
    match action {
        Action::Register { id, interest } => {
            assert_eq!(interest, Interest::ReadWrite);
            id
        }
        other => panic!("unexpected action {:?}", other),
    }
}

fn accept_by_token(net: &mut Net, token: &str) -> Action<u32> {
    net.notify(TcpNetworkCommand {
        cmd: TcpNetworkCMD::AcceptPendingConnection,
        socket: vec![],
        token: vec![token.to_string()],
        event: vec![],
    })
}

fn event(name: &str) -> Event {
    Event { name: name.to_string(), data: vec![1, 2, 3], from: "app".to_string() }
}

/// Feeds a whole frame the way the loop does: as many bytes per read as the
/// engine asks for. Gives the action of the last read.
fn deliver(net: &mut Net, id: usize, bytes: &[u8]) -> Action<u32> {
    let mut at = 0;
    let mut last = Action::Idle;
    while at < bytes.len() {
        let want = net.read_demand(id) as usize;
        if want == 0 {
            break;
        }
        let end = usize::min(bytes.len(), at + want);
        last = net.readable(id, ReadOutcome::Data(bytes[at..end].to_vec()));
        at = end;
    }
    last
}

fn output_of(conn: &mut TcpConn<u32>) -> Vec<u8> {
    let mut out = Vec::new();
    loop {
        let n = match conn.next_chunk() {
            Some(chunk) => {
                out.extend_from_slice(chunk);
                chunk.len()
            }
            None => break,
        };
        conn.advance(n);
    }
    out
}

fn reader_of(action: Action<u32>) -> usize {
    match action {
        Action::HandOff { reader, .. } => reader,
        Action::WriteDataWithPath { reader, .. } => reader,
        other => panic!("no dispatch in {:?}", other),
    }
}

#[test]
fn malformed_node_value_fails_construction() {
    assert_eq!(Net::new("me".to_string(), "five".to_string()).err(), Some(SetupError::MalformedValue));
    assert_eq!(Net::new("me".to_string(), "".to_string()).err(), Some(SetupError::MalformedValue));
    assert_eq!(Net::new("me".to_string(), "-1".to_string()).err(), Some(SetupError::NegativeValue));
    assert!(Net::new("me".to_string(), "18446744073709551616".to_string()).is_ok());
}

#[test]
fn empty_pool_is_refused_and_changes_nothing() {
    let mut net = engine(2);
    assert!(matches!(net.emit(event("e"), vec![]), Action::WriteDataWithPath { reader: 0, .. }));
    assert_eq!(net.run(0), Err(SetupError::NoWorkers));
    assert!(matches!(net.emit(event("e"), vec![]), Action::WriteDataWithPath { reader: 1, .. }));
}

#[test]
fn run_resets_the_cursor() {
    let mut net = engine(3);
    assert_eq!(reader_of(net.emit(event("e"), vec![])), 0);
    assert_eq!(reader_of(net.emit(event("e"), vec![])), 1);
    assert_eq!(net.run(2), Ok(()));
    assert_eq!(reader_of(net.emit(event("e"), vec![])), 0);
    assert_eq!(reader_of(net.emit(event("e"), vec![])), 1);
    assert_eq!(reader_of(net.emit(event("e"), vec![])), 0);
}

#[test]
fn loop_dispatch_by_source_and_readiness() {
    let quiet = Readiness { readable: false, writable: false, error: false, hup: false };
    let readable = Readiness { readable: true, ..quiet };
    let writable = Readiness { writable: true, ..quiet };
    let both = Readiness { readable: true, writable: true, ..quiet };
    let error = Readiness { error: true, readable: true, ..quiet };
    let hup = Readiness { hup: true, writable: true, ..quiet };

    assert_eq!(TCP_SERVER_TOKEN, 0);
    assert_eq!(RECEIVER_CHANNEL_TOKEN, 1);
    assert_eq!(FIRST_CONN_TOKEN, 2);

    for kind in [quiet, readable, writable, both, error, hup] {
        assert_eq!(dispatch(RECEIVER_CHANNEL_TOKEN, kind), Step::DrainCommands);
    }
    assert_eq!(dispatch(TCP_SERVER_TOKEN, error), Step::Fatal);
    assert_eq!(dispatch(TCP_SERVER_TOKEN, hup), Step::Fatal);
    assert_eq!(dispatch(TCP_SERVER_TOKEN, readable), Step::Accept);
    assert_eq!(dispatch(TCP_SERVER_TOKEN, both), Step::Accept);
    assert_eq!(dispatch(TCP_SERVER_TOKEN, writable), Step::Skip);
    assert_eq!(dispatch(TCP_SERVER_TOKEN, quiet), Step::Skip);
    assert_eq!(dispatch(9, error), Step::Close { id: 9 });
    assert_eq!(dispatch(9, hup), Step::Close { id: 9 });
    assert_eq!(dispatch(9, readable), Step::Serve { id: 9, read: true, write: false });
    assert_eq!(dispatch(9, writable), Step::Serve { id: 9, read: false, write: true });
    assert_eq!(dispatch(9, both), Step::Serve { id: 9, read: true, write: true });
    assert_eq!(dispatch(9, quiet), Step::Skip);
}

#[test]
fn three_accepted_sockets_make_three_pending_envelopes() {
    let mut net = engine(2);
    let actions = net.acceptable(vec![10, 11, 12]);
    assert_eq!(actions.len(), 3);
    for (i, action) in actions.iter().enumerate() {
        match action {
            Action::Register { id, interest } => {
                assert_eq!(*id, FIRST_CONN_TOKEN + i);
                assert_eq!(*interest, Interest::Readable);
            }
            other => panic!("unexpected action {:?}", other),
        }
    }
    for i in 0..3 {
        assert!(net.is_pending(FIRST_CONN_TOKEN + i));
        assert_eq!(net.socket(FIRST_CONN_TOKEN + i), Some(&(10 + i as u32)));
        assert_eq!(net.read_demand(FIRST_CONN_TOKEN + i), 4);
        assert!(net.write_demand(FIRST_CONN_TOKEN + i).is_none());
    }
    assert!(!net.is_pending(FIRST_CONN_TOKEN + 3));
    assert!(!net.is_pending(TCP_SERVER_TOKEN));
    assert!(!net.is_pending(RECEIVER_CHANNEL_TOKEN));
    assert!(net.acceptable(vec![]).is_empty());
    assert!(!net.is_pending(FIRST_CONN_TOKEN + 3));
}

#[test]
fn identifiers_are_not_handed_out_twice() {
    let mut net = engine(1);
    let a = accept_one(&mut net, 1);
    assert!(matches!(net.close_connection(a), Action::Closed { id } if id == a));
    let b = accept_one(&mut net, 2);
    assert_ne!(a, b);
    assert!(!net.is_pending(a));
    assert!(net.is_pending(b));
}

#[test]
fn adopted_connection_writes_its_handshake_first() {
    let mut net = engine(2);
    let id = adopt(&mut net, 77);
    assert_eq!(id, FIRST_CONN_TOKEN);
    assert_eq!(net.socket(id), Some(&77));
    assert_eq!(net.write_demand(id), Some(&my_frame()[..]));
    assert_eq!(net.read_demand(id), 4);
}

#[test]
fn direct_adoption_matches_the_command() {
    let mut net = engine(2);
    match net.add_pending_conn(5, true) {
        Action::Register { id, interest } => {
            assert_eq!(id, FIRST_CONN_TOKEN);
            assert_eq!(interest, Interest::ReadWrite);
        }
        other => panic!("unexpected action {:?}", other),
    }
    match net.add_pending_conn(6, false) {
        Action::Register { id, interest } => {
            assert_eq!(id, FIRST_CONN_TOKEN + 1);
            assert_eq!(interest, Interest::Readable);
        }
        other => panic!("unexpected action {:?}", other),
    }
    assert!(net.write_demand(FIRST_CONN_TOKEN + 1).is_none());
}

#[test]
fn adoption_takes_the_last_socket_of_the_command() {
    let mut net = engine(1);
    let action = net.notify(TcpNetworkCommand {
        cmd: TcpNetworkCMD::HandleClientConnection,
        socket: vec![1, 2, 3],
        token: vec![],
        event: vec![],
    });
    assert!(matches!(action, Action::Register { id: 2, interest: Interest::ReadWrite }));
    assert_eq!(net.socket(2), Some(&3));
    assert!(!net.is_pending(3));
}

#[test]
fn commands_that_lack_their_payload_do_nothing() {
    let mut net = engine(2);
    let id = accept_one(&mut net, 1);
    deliver(&mut net, id, &frame("a", "1"));
    for cmd in [
        TcpNetworkCMD::HandleClientConnection,
        TcpNetworkCMD::AcceptPendingConnection,
        TcpNetworkCMD::EmitEvent,
    ] {
        let action = net.notify(TcpNetworkCommand { cmd, socket: vec![], token: vec![], event: vec![] });
        assert!(matches!(action, Action::Idle), "{:?}", cmd);
    }
    assert!(net.is_pending(id));
    assert!(!net.is_pending(id + 1));
    assert_eq!(reader_of(net.emit(event("e"), vec![])), 0);
}

#[test]
fn inbound_handshake_announces_the_peer() {
    let mut net = engine(2);
    let id = accept_one(&mut net, 1);
    assert!(matches!(
        net.readable(id, ReadOutcome::Data(vec![0, 0, 0, 1])),
        Action::Continue { id: c } if c == id
    ));
    assert!(matches!(
        net.readable(id, ReadOutcome::Data(vec![0, 0, 0, 3])),
        Action::Continue { id: c } if c == id
    ));
    match net.readable(id, ReadOutcome::Data(b"a|1".to_vec())) {
        Action::Notify { id: announced, event } => {
            assert_eq!(announced, id);
            assert_eq!(event.name, EVENT_ON_PENDING_CONNECTION);
            assert_eq!(event.name, "on-pending-connection");
            assert_eq!(event.data, b"1".to_vec());
            assert_eq!(event.from, "a");
        }
        other => panic!("unexpected action {:?}", other),
    }
    assert!(net.is_pending(id));
    assert_eq!(net.read_demand(id), 0);
}

#[test]
fn announced_peer_is_handed_off_on_acceptance() {
    let mut net = engine(2);
    let id = accept_one(&mut net, 41);
    assert!(matches!(deliver(&mut net, id, &frame("a", "1")), Action::Notify { .. }));
    match accept_by_token(&mut net, "a") {
        Action::HandOff { reader, mut conn } => {
            assert_eq!(reader, 0);
            assert_eq!(conn.socket_token(), id);
            assert_eq!(conn.origin(), Origin::Inbound);
            assert_eq!(*conn.socket(), 41);
            assert_eq!(conn.stage(), Stage::Complete);
            let peer = conn.conn_value().as_ref().unwrap();
            assert_eq!(peer.token, "a");
            assert_eq!(peer.value, "1");
            assert_eq!(output_of(&mut conn), my_frame());
        }
        other => panic!("unexpected action {:?}", other),
    }
    assert!(!net.is_pending(id));
    assert!(matches!(accept_by_token(&mut net, "a"), Action::Idle));
}

#[test]
fn outbound_handshake_is_handed_off_at_once() {
    let mut net = engine(2);
    let id = adopt(&mut net, 9);
    match deliver(&mut net, id, &frame("a", "1")) {
        Action::HandOff { reader, mut conn } => {
            assert_eq!(reader, 0);
            assert_eq!(conn.socket_token(), id);
            assert_eq!(conn.origin(), Origin::Outbound);
            assert_eq!(conn.into_socket_check(), 9);
            let peer = conn.conn_value().as_ref().unwrap();
            assert_eq!(peer.token, "a");
            assert_eq!(peer.value, "1");
            assert_eq!(output_of(&mut conn), my_frame());
        }
        other => panic!("unexpected action {:?}", other),
    }
    assert!(!net.is_pending(id));
}

trait SocketCheck {
    fn into_socket_check(&self) -> u32;
}

impl SocketCheck for TcpConn<u32> {
    fn into_socket_check(&self) -> u32 {
        *self.socket()
    }
}

#[test]
fn outbound_handshake_after_flushing_leaves_nothing_to_write() {
    let mut net = engine(1);
    let id = adopt(&mut net, 9);
    assert!(matches!(
        net.writable(id, WriteOutcome::Written(12)),
        Action::Reregister { id: r, interest: Interest::Readable } if r == id
    ));
    match deliver(&mut net, id, &frame("peer", "77")) {
        Action::HandOff { reader: 0, mut conn } => {
            assert!(!conn.has_output());
            assert!(output_of(&mut conn).is_empty());
        }
        other => panic!("unexpected action {:?}", other),
    }
}

#[test]
fn length_larger_than_what_arrived_keeps_the_connection_pending() {
    let mut net = engine(2);
    let id = accept_one(&mut net, 1);
    net.readable(id, ReadOutcome::Data(vec![0, 0, 0, 1]));
    net.readable(id, ReadOutcome::Data(vec![0, 0, 0, 9]));
    assert_eq!(net.read_demand(id), 9);
    assert!(matches!(net.readable(id, ReadOutcome::Data(b"a|1".to_vec())), Action::Continue { .. }));
    assert_eq!(net.read_demand(id), 6);
    assert!(matches!(net.readable(id, ReadOutcome::WouldBlock), Action::Idle));
    assert!(net.is_pending(id));
    match net.readable(id, ReadOutcome::Data(b"234567".to_vec())) {
        Action::Notify { event, .. } => {
            assert_eq!(event.from, "a");
            assert_eq!(event.data, b"1234567".to_vec());
        }
        other => panic!("unexpected action {:?}", other),
    }
}

#[test]
fn peer_is_announced_once() {
    let mut net = engine(2);
    let id = accept_one(&mut net, 1);
    assert!(matches!(deliver(&mut net, id, &frame("a", "1")), Action::Notify { .. }));
    for outcome in [
        ReadOutcome::Data(frame("a", "1")),
        ReadOutcome::Data(vec![1]),
        ReadOutcome::Data(vec![]),
        ReadOutcome::WouldBlock,
        ReadOutcome::Failed,
    ] {
        assert!(matches!(net.readable(id, outcome), Action::Idle));
        assert!(net.is_pending(id));
    }
    assert!(matches!(accept_by_token(&mut net, "a"), Action::HandOff { .. }));
    assert!(matches!(net.readable(id, ReadOutcome::Data(frame("a", "1"))), Action::Idle));
}

#[test]
fn fewer_than_four_bytes_keep_the_connection_pending() {
    let mut net = engine(2);
    let id = accept_one(&mut net, 1);
    assert!(matches!(net.readable(id, ReadOutcome::Data(vec![0, 0, 0])), Action::Continue { .. }));
    for _ in 0..5 {
        assert!(matches!(net.readable(id, ReadOutcome::WouldBlock), Action::Idle));
        assert!(net.is_pending(id));
        assert_eq!(net.read_demand(id), 1);
    }
    assert!(matches!(accept_by_token(&mut net, ""), Action::Idle));
    assert!(matches!(net.emit(event("e"), vec![]), Action::WriteDataWithPath { .. }));
    adopt(&mut net, 2);
    assert!(net.is_pending(id));
    assert_eq!(net.read_demand(id), 1);
}

#[test]
fn failed_read_closes_the_connection() {
    let mut net = engine(2);
    let id = accept_one(&mut net, 1);
    assert!(matches!(net.readable(id, ReadOutcome::Failed), Action::Closed { id: c } if c == id));
    assert!(!net.is_pending(id));
    assert!(net.socket(id).is_none());
    assert_eq!(net.read_demand(id), 0);
    assert!(matches!(net.readable(id, ReadOutcome::Failed), Action::Idle));
}

#[test]
fn read_of_no_bytes_closes_the_connection() {
    let mut net = engine(2);
    let id = accept_one(&mut net, 1);
    assert!(matches!(net.readable(id, ReadOutcome::Data(vec![])), Action::Closed { .. }));
    assert!(!net.is_pending(id));
}

#[test]
fn refused_frame_closes_the_connection() {
    let frames: [Vec<u8>; 5] = [
        vec![0, 0, 0, 2],
        vec![0, 0, 0, 0],
        vec![0, 0, 0, 1, 0, 0, 0, 0],
        vec![0, 0, 0, 1, 0, 0, 0, 3, b'a', b'b', b'c'],
        vec![0, 0, 0, 1, 0, 0, 0, 3, 0xff, b'|', b'1'],
    ];
    for bytes in frames {
        for outbound in [false, true] {
            let mut net = engine(2);
            let id = if outbound { adopt(&mut net, 1) } else { accept_one(&mut net, 1) };
            assert!(
                matches!(deliver(&mut net, id, &bytes), Action::Closed { id: c } if c == id),
                "{:?}",
                bytes
            );
            assert!(!net.is_pending(id));
            assert_eq!(reader_of(net.emit(event("e"), vec![])), 0);
        }
    }
}

#[test]
fn reads_on_unknown_connections_do_nothing() {
    let mut net = engine(2);
    for id in [0, 1, 2, 99, usize::MAX] {
        assert!(matches!(net.readable(id, ReadOutcome::Data(vec![1])), Action::Idle));
        assert!(matches!(net.readable(id, ReadOutcome::Failed), Action::Idle));
        assert!(matches!(net.writable(id, WriteOutcome::Written(1)), Action::Idle));
        assert!(matches!(net.writable(id, WriteOutcome::Failed), Action::Idle));
        assert!(matches!(net.close_connection(id), Action::Idle));
        assert!(matches!(net.accept_conn(id), Action::Idle));
        assert!(net.write_demand(id).is_none());
    }
    assert_eq!(reader_of(net.emit(event("e"), vec![])), 0);
}

#[test]
fn partial_flush_keeps_the_rest_queued() {
    let mut net = engine(2);
    let id = adopt(&mut net, 1);
    let whole = my_frame();
    assert!(matches!(
        net.writable(id, WriteOutcome::Written(5)),
        Action::Continue { id: c } if c == id
    ));
    assert_eq!(net.write_demand(id), Some(&whole[5..]));
    assert!(matches!(net.writable(id, WriteOutcome::WouldBlock), Action::Idle));
    assert!(net.is_pending(id));
    assert_eq!(net.write_demand(id), Some(&whole[5..]));
    assert!(matches!(
        net.writable(id, WriteOutcome::Written(7)),
        Action::Reregister { id: c, interest: Interest::Readable } if c == id
    ));
    assert!(net.write_demand(id).is_none());
    assert!(net.is_pending(id));
}

#[test]
fn writable_with_nothing_queued_asks_for_read_only() {
    let mut net = engine(2);
    let id = accept_one(&mut net, 1);
    assert!(matches!(
        net.writable(id, WriteOutcome::Written(0)),
        Action::Reregister { interest: Interest::Readable, .. }
    ));
    assert!(net.is_pending(id));
}

#[test]
fn failed_write_closes_the_connection() {
    let mut net = engine(2);
    let id = adopt(&mut net, 1);
    assert!(matches!(net.writable(id, WriteOutcome::Failed), Action::Closed { id: c } if c == id));
    assert!(!net.is_pending(id));
}

#[test]
fn write_that_takes_nothing_closes_the_connection() {
    let mut net = engine(2);
    let id = adopt(&mut net, 1);
    assert!(matches!(net.writable(id, WriteOutcome::Written(0)), Action::Closed { .. }));
    assert!(!net.is_pending(id));
}

#[test]
fn acceptance_by_unknown_token_is_a_no_op() {
    let mut net = engine(3);
    let waiting = accept_one(&mut net, 1);
    deliver(&mut net, waiting, &frame("a", "1"));
    let reading = accept_one(&mut net, 2);
    net.readable(reading, ReadOutcome::Data(vec![0, 0]));
    for token in ["b", "", "A", "a|1", "a "] {
        assert!(matches!(accept_by_token(&mut net, token), Action::Idle), "{:?}", token);
        assert!(net.is_pending(waiting));
        assert!(net.is_pending(reading));
        assert_eq!(net.read_demand(waiting), 0);
        assert_eq!(net.read_demand(reading), 2);
    }
    assert_eq!(reader_of(net.emit(event("e"), vec![])), 0);
    assert!(matches!(accept_by_token(&mut net, "a"), Action::HandOff { reader: 1, .. }));
}

#[test]
fn acceptance_takes_the_first_token_of_the_command() {
    let mut net = engine(1);
    let a = accept_one(&mut net, 1);
    let b = accept_one(&mut net, 2);
    deliver(&mut net, a, &frame("a", "1"));
    deliver(&mut net, b, &frame("b", "2"));
    let action = net.notify(TcpNetworkCommand {
        cmd: TcpNetworkCMD::AcceptPendingConnection,
        socket: vec![],
        token: vec!["b".to_string(), "a".to_string()],
        event: vec![],
    });
    match action {
        Action::HandOff { conn, .. } => assert_eq!(conn.socket_token(), b),
        other => panic!("unexpected action {:?}", other),
    }
    assert!(net.is_pending(a));
}

#[test]
fn acceptance_picks_the_oldest_of_equal_tokens() {
    let mut net = engine(1);
    let first = accept_one(&mut net, 1);
    let second = accept_one(&mut net, 2);
    let third = accept_one(&mut net, 3);
    deliver(&mut net, third, &frame("same", "3"));
    deliver(&mut net, second, &frame("same", "2"));
    deliver(&mut net, first, &frame("other", "1"));
    match accept_by_token(&mut net, "same") {
        Action::HandOff { conn, .. } => {
            assert_eq!(conn.socket_token(), second);
            assert_eq!(conn.conn_value().as_ref().unwrap().value, "2");
        }
        other => panic!("unexpected action {:?}", other),
    }
    match accept_by_token(&mut net, "same") {
        Action::HandOff { conn, .. } => assert_eq!(conn.socket_token(), third),
        other => panic!("unexpected action {:?}", other),
    }
    assert!(matches!(accept_by_token(&mut net, "same"), Action::Idle));
    assert!(net.is_pending(first));
}

#[test]
fn dispatch_is_round_robin_whatever_the_call() {
    let mut net = engine(3);
    let mut visited = Vec::new();
    for round in 0..8u32 {
        if round % 2 == 0 {
            visited.push(reader_of(net.emit(event("e"), vec!["t".to_string()])));
        } else {
            let id = adopt(&mut net, round);
            visited.push(reader_of(net.accept_conn(id)));
        }
    }
    assert_eq!(visited, vec![0, 1, 2, 0, 1, 2, 0, 1]);
    let id = accept_one(&mut net, 100);
    deliver(&mut net, id, &frame("z", "26"));
    visited.push(reader_of(accept_by_token(&mut net, "z")));
    let id = adopt(&mut net, 101);
    visited.push(reader_of(deliver(&mut net, id, &frame("y", "25"))));
    visited.push(reader_of(net.notify(TcpNetworkCommand {
        cmd: TcpNetworkCMD::EmitEvent,
        socket: vec![],
        token: vec![],
        event: vec![event("e")],
    })));
    assert_eq!(visited[8..], [2, 0, 1]);
}

#[test]
fn operations_that_dispatch_nothing_leave_the_cursor() {
    let mut net = engine(4);
    assert_eq!(reader_of(net.emit(event("e"), vec![])), 0);
    let id = accept_one(&mut net, 1);
    net.readable(id, ReadOutcome::Data(vec![0, 0, 0, 1]));
    net.writable(id, WriteOutcome::WouldBlock);
    net.accept_conn(999);
    accept_by_token(&mut net, "nobody");
    net.close_connection(id);
    assert_eq!(reader_of(net.emit(event("e"), vec![])), 1);
}

#[test]
fn event_is_forwarded_with_its_targets() {
    let mut net = engine(2);
    let targets = vec!["a".to_string(), "b".to_string()];
    match net.emit(event("greet"), targets.clone()) {
        Action::WriteDataWithPath { reader, event, tokens } => {
            assert_eq!(reader, 0);
            assert_eq!(event.name, "greet");
            assert_eq!(event.data, vec![1, 2, 3]);
            assert_eq!(event.from, "app");
            assert_eq!(tokens, targets);
        }
        other => panic!("unexpected action {:?}", other),
    }
    let action = net.notify(TcpNetworkCommand {
        cmd: TcpNetworkCMD::EmitEvent,
        socket: vec![],
        token: targets.clone(),
        event: vec![event("first"), event("last")],
    });
    match action {
        Action::WriteDataWithPath { reader, event, tokens } => {
            assert_eq!(reader, 1);
            assert_eq!(event.name, "last");
            assert_eq!(tokens, targets);
        }
        other => panic!("unexpected action {:?}", other),
    }
}

#[test]
fn without_workers_nothing_is_dispatched() {
    let mut net = engine(0);
    assert!(matches!(net.emit(event("e"), vec![]), Action::Idle));
    assert_eq!(net.get_reader(), None);
    let id = adopt(&mut net, 1);
    assert!(matches!(net.accept_conn(id), Action::Closed { id: c } if c == id));
    assert!(!net.is_pending(id));
    let id = adopt(&mut net, 2);
    assert!(matches!(deliver(&mut net, id, &frame("a", "1")), Action::Closed { .. }));
    assert!(!net.is_pending(id));
}

#[test]
fn get_reader_turns_the_cursor() {
    let mut net = engine(2);
    assert_eq!(net.get_reader(), Some(0));
    assert_eq!(net.get_reader(), Some(1));
    assert_eq!(net.get_reader(), Some(0));
    assert_eq!(reader_of(net.emit(event("e"), vec![])), 1);
}

#[test]
fn handshake_is_queued_on_an_envelope() {
    let net = engine(1);
    let mut conn = TcpConn::new(3u32, 8, Origin::Inbound);
    net.write_handshake_info(&mut conn);
    assert_eq!(conn.next_chunk(), Some(&my_frame()[..]));
    net.write_handshake_info(&mut conn);
    let mut twice = my_frame();
    twice.extend_from_slice(&my_frame());
    assert_eq!(output_of(&mut conn), twice);
}

#[test]
fn accepting_an_unfinished_inbound_connection_queues_the_handshake() {
    let mut net = engine(2);
    let id = accept_one(&mut net, 1);
    match net.accept_conn(id) {
        Action::HandOff { reader, mut conn } => {
            assert_eq!(reader, 0);
            assert_eq!(conn.stage(), Stage::AwaitingVersion);
            assert!(conn.conn_value().is_none());
            assert_eq!(output_of(&mut conn), my_frame());
        }
        other => panic!("unexpected action {:?}", other),
    }
}

#[test]
fn close_removes_only_the_named_connection() {
    let mut net = engine(2);
    let a = accept_one(&mut net, 1);
    let b = accept_one(&mut net, 2);
    let c = accept_one(&mut net, 3);
    assert!(matches!(net.close_connection(b), Action::Closed { id } if id == b));
    assert!(net.is_pending(a));
    assert!(!net.is_pending(b));
    assert!(net.is_pending(c));
    assert!(matches!(net.close_connection(b), Action::Idle));
    assert_eq!(net.socket(a), Some(&1));
    assert_eq!(net.socket(c), Some(&3));
}

#[test]
fn registration_follows_the_handshake() {
    let mut net = engine(2);
    assert_eq!(net.interest(FIRST_CONN_TOKEN), None);
    let inbound = accept_one(&mut net, 1);
    let outbound = adopt(&mut net, 2);
    assert_eq!(net.interest(inbound), Some(Interest::Readable));
    assert_eq!(net.interest(outbound), Some(Interest::ReadWrite));
    net.readable(inbound, ReadOutcome::Data(vec![0, 0, 0, 1]));
    assert_eq!(net.interest(inbound), Some(Interest::Readable));
    assert!(matches!(deliver(&mut net, inbound, &frame("a", "1")[4..]), Action::Notify { .. }));
    assert_eq!(net.interest(inbound), None);
    match accept_by_token(&mut net, "a") {
        Action::HandOff { conn, .. } => assert_eq!(conn.interest(), None),
        other => panic!("unexpected action {:?}", other),
    }
    match deliver(&mut net, outbound, &frame("b", "2")) {
        Action::HandOff { conn, .. } => assert_eq!(conn.interest(), None),
        other => panic!("unexpected action {:?}", other),
    }
}

#[test]
fn partial_flush_leaves_write_readiness_registered() {
    let mut net = engine(2);
    let id = adopt(&mut net, 1);
    assert!(matches!(net.writable(id, WriteOutcome::Written(5)), Action::Continue { .. }));
    assert!(matches!(net.writable(id, WriteOutcome::WouldBlock), Action::Idle));
    assert_eq!(net.interest(id), Some(Interest::ReadWrite));
    assert!(net.is_pending(id));
    assert_eq!(net.write_demand(id).map(|rest| rest.len()), Some(7));
    assert!(matches!(net.writable(id, WriteOutcome::Written(7)), Action::Reregister { .. }));
    assert_eq!(net.interest(id), Some(Interest::Readable));
}

#[test]
fn deregistered_connection_is_not_written_to() {
    let mut net = engine(2);
    let id = accept_one(&mut net, 1);
    deliver(&mut net, id, &frame("a", "1"));
    assert_eq!(net.interest(id), None);
    for outcome in [WriteOutcome::Written(0), WriteOutcome::Written(3), WriteOutcome::Failed] {
        assert!(matches!(net.writable(id, outcome), Action::Idle));
        assert!(net.is_pending(id));
        assert_eq!(net.interest(id), None);
    }
}

#[test]
fn envelope_records_its_registration() {
    let mut conn = TcpConn::new(0u32, 2, Origin::Inbound);
    assert_eq!(conn.interest(), None);
    conn.set_interest(Some(Interest::ReadWrite));
    assert_eq!(conn.interest(), Some(Interest::ReadWrite));
    conn.add_writable_data(vec![1, 2]);
    conn.feed(&[0, 0]);
    conn.advance(1);
    assert_eq!(conn.interest(), Some(Interest::ReadWrite));
    conn.set_interest(None);
    assert_eq!(conn.interest(), None);
    assert_eq!(conn.read_demand(), 2);
    assert_eq!(conn.next_chunk(), Some(&[2u8][..]));
}

#[test]
fn failures_by_reach() {
    for fault in [Fault::MalformedNodeValue, Fault::MultiplexerCreation, Fault::ListenerFailure] {
        assert_eq!(severity(fault), Severity::Fatal);
    }
    for fault in [Fault::AddressParse, Fault::Bind, Fault::SourceRegistration] {
        assert_eq!(severity(fault), Severity::LoopAbort);
    }
    assert_eq!(severity(Fault::WouldBlock), Severity::Retry);
    for fault in [
        Fault::Read,
        Fault::Write,
        Fault::Decode(DecodeError::UnsupportedVersion),
        Fault::Decode(DecodeError::MissingSeparator),
        Fault::Decode(DecodeError::InvalidToken),
        Fault::Decode(DecodeError::InvalidValue),
        Fault::ConnectionHangup,
        Fault::ConnectionRegistration,
        Fault::HandOff,
    ] {
        assert_eq!(severity(fault), Severity::CloseConnection);
    }
}

#[test]
fn announcement_carries_value_and_token() {
    let peer = PeerIdentity { token: "nodé".to_string(), value: "12".to_string() };
    let event = on_pending_connection(&peer);
    assert_eq!(event.name, "on-pending-connection");
    assert_eq!(event.data, b"12".to_vec());
    assert_eq!(event.from, "nodé");
}
