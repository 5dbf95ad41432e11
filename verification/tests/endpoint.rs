use quinn_endpoint::addr::{IpAddr, SocketAddr, SocketAddrV4, SocketAddrV6};
use quinn_endpoint::cid::ConnectionId;
use quinn_endpoint::connections::{ConnectionHandle, EcnCodepoint, NewConnection, Routed, Side};
use quinn_endpoint::endpoint::{
    on_handle_dropped, AcceptError, AcceptPoll, ConnectError, DriverStep, Endpoint, EndpointEvent,
    EventRound, EventStep,
};
use quinn_endpoint::recv::{
    proto_ecn, respond, DatagramAction, DatagramEvent, PollProgress, PollSocket, RecvMeta,
    RecvPoll, RecvStep, Transmit, UdpEcn,
};
use quinn_endpoint::transport::VarInt;

const V4: SocketAddr = SocketAddr::V4(SocketAddrV4 { ip: 0x7f00_0001, port: 4433 });
const V6: SocketAddr =
    SocketAddr::V6(SocketAddrV6 { ip: 1, port: 4433, flowinfo: 0, scope_id: 0 });

/// An endpoint with connection IDs of one byte; configurations, wakers, sockets and channels are
/// names, attempts to connect are numbers.
type Named = Endpoint<&'static str, &'static str, &'static str, &'static str, u32>;

fn endpoint(local: SocketAddr) -> Named {
    Endpoint::new_with_abstract_socket("socket", local, 1, 1480, 2, 4)
}

fn conn(handle: usize, cid: &[u8]) -> NewConnection {
    NewConnection {
        handle: ConnectionHandle(handle),
        handshake_cid: ConnectionId::new(cid),
        side: Side::Server,
        remote: V4,
        local_ip: None,
    }
}

fn open(e: &mut Named, handle: usize, cid: &[u8]) {
    assert!(e.connecting::<()>(Ok(conn(handle, cid)), "channel").is_ok());
}

fn transmit(size: usize) -> Transmit {
    Transmit {
        destination: V6,
        ecn: Some(EcnCodepoint::Ect0),
        size,
        segment_size: Some(3),
        src_ip: Some(IpAddr::V4(9)),
    }
}

fn meta(len: usize, stride: usize) -> RecvMeta {
    RecvMeta { addr: V4, len, stride, ecn: Some(UdpEcn::Ce), dst_ip: None }
}

#[test]
fn new_endpoint_is_blank() {
    let e = endpoint(V6);
    assert!(e.proto.ipv6 && !e.proto.driver_lost);
    assert_eq!(e.stats(), Default::default());
    assert_eq!(e.stats().accepted_handshakes, 0);
    assert_eq!(e.io.recv_state.recv_buf, vec![0u8; 1480 * 2 * 4]);
    assert!(e.is_idle());
    assert!(!e.has_incoming());
    assert!(!endpoint(V4).proto.ipv6);
}

#[test]
fn receive_buffer_is_capped_and_divides_evenly() {
    let e: Named = Endpoint::new_with_abstract_socket("socket", V4, 0, u64::MAX, 2, 3);
    let len = e.io.recv_state.recv_buf.len();
    assert_eq!(len, 65536 * 2 * 3);
    let chunk = e.io.recv_state.message_buf_len(3);
    assert_eq!(chunk, 65536 * 2);
    assert_eq!(e.io.recv_state.recv_buf.chunks(chunk).count(), 3);
    assert_eq!(e.io.recv_state.message_buf_len(5), 65536 * 2 * 3 / 5);
}

#[test]
fn connecting_needs_a_configuration() {
    let mut e = endpoint(V6);
    assert_eq!(e.connect(V4), Err(ConnectError::NoDefaultClientConfig));
    e.set_default_client_config("config");
    let (config, target) = e.connect(V6).unwrap();
    assert_eq!((*config, target), ("config", V6));
}

#[test]
fn connecting_respects_the_family_of_the_socket() {
    let six = endpoint(V6);
    assert_eq!(
        six.connect_with(V4),
        Ok(SocketAddr::V6(SocketAddrV6 {
            ip: 0xffff_7f00_0001,
            port: 4433,
            flowinfo: 0,
            scope_id: 0
        }))
    );
    let four = endpoint(V4);
    assert_eq!(four.connect_with(V4), Ok(V4));
    assert_eq!(four.connect_with(V6), Err(ConnectError::InvalidRemoteAddress(V6)));
}

#[test]
fn stopping_endpoint_does_not_connect() {
    let mut closed = endpoint(V4);
    closed.set_default_client_config("config");
    closed.close(VarInt::from_u32(0), b"");
    assert_eq!(closed.connect_with(V4), Err(ConnectError::EndpointStopping));
    assert_eq!(closed.connect(V6), Err(ConnectError::EndpointStopping));
    let mut lost = endpoint(V4);
    lost.drop_driver();
    assert_eq!(lost.connect_with(V6), Err(ConnectError::EndpointStopping));
    assert_eq!(lost.connect(V4), Err(ConnectError::NoDefaultClientConfig));
}

#[test]
fn only_begun_handshakes_are_counted() {
    let mut e = endpoint(V4);
    assert_eq!(e.connecting(Err("no"), "channel").err(), Some("no"));
    assert_eq!(e.stats().outgoing_handshakes, 0);
    let admitted = e.connecting::<()>(Ok(conn(5, &[8])), "channel").unwrap();
    assert_eq!(admitted.handle, ConnectionHandle(5));
    assert!(admitted.close.is_none());
    assert_eq!(e.stats().outgoing_handshakes, 1);
    assert!(!e.is_idle());
}

#[test]
fn accepting_counts_and_failing_answers() {
    let mut e = endpoint(V4);
    let admitted = e.accept::<()>(Ok(conn(1, &[1])), &[], "channel").ok().unwrap();
    assert_eq!(admitted.handle, ConnectionHandle(1));
    assert_eq!(e.stats().accepted_handshakes, 1);
    let failed = e
        .accept(
            Err(AcceptError { cause: "bad", response: Some(transmit(2)) }),
            &[7, 8, 9],
            "channel",
        )
        .err()
        .unwrap();
    assert_eq!(failed.cause, "bad");
    assert_eq!(failed.response.unwrap().contents, &[7, 8]);
    let silent = e
        .accept(Err(AcceptError { cause: "worse", response: None }), &[], "channel")
        .err()
        .unwrap();
    assert!(silent.response.is_none());
    assert_eq!(e.stats().accepted_handshakes, 1);
}

#[test]
fn refusing_retrying_and_ignoring() {
    let mut e = endpoint(V4);
    let r = e.refuse(transmit(1), &[4, 5]);
    assert_eq!(r.contents, &[4]);
    assert_eq!(e.stats().refused_handshakes, 1);
    assert_eq!(e.retry::<()>(Ok(transmit(2)), &[4, 5]).ok().unwrap().contents, &[4, 5]);
    assert_eq!(e.retry(Err("cannot"), &[]).err(), Some("cannot"));
    e.ignore();
    e.ignore();
    let stats = e.stats();
    assert_eq!((stats.ignored_handshakes, stats.refused_handshakes), (2, 1));
    assert_eq!((stats.accepted_handshakes, stats.outgoing_handshakes), (0, 0));
}

#[test]
fn response_is_what_was_written() {
    let r = respond(transmit(3), &[1, 2, 3, 4]);
    assert_eq!(r.contents, &[1, 2, 3]);
    assert_eq!(r.destination, V6);
    assert_eq!(r.ecn, Some(EcnCodepoint::Ect0));
    assert_eq!(r.segment_size, Some(3));
    assert_eq!(r.src_ip, Some(IpAddr::V4(9)));
    assert!(respond(transmit(0), &[1]).contents.is_empty());
}

#[test]
fn rebinding_switches_sockets() {
    let mut e = endpoint(V4);
    open(&mut e, 3, &[3]);
    e.register_driver("waker");
    let rebound = e.rebind_abstract::<()>("new", Ok(V6)).ok().unwrap();
    assert_eq!(rebound.wake, Some("waker"));
    assert_eq!(rebound.tell, vec![ConnectionHandle(3)]);
    assert_eq!((e.io.socket, e.io.prev_socket), ("new", Some("socket")));
    assert!(e.proto.ipv6);
    assert_eq!(e.proto.driver, None);
}

#[test]
fn failing_to_rebind_changes_nothing() {
    let mut e = endpoint(V4);
    e.register_driver("waker");
    assert_eq!(e.rebind_abstract("new", Err("gone")).err(), Some("gone"));
    assert_eq!((e.io.socket, e.io.prev_socket), ("socket", None));
    assert!(!e.proto.ipv6);
    assert_eq!(e.proto.driver, Some("waker"));
}

#[test]
fn closing_tells_everybody() {
    let mut e = endpoint(V4);
    open(&mut e, 1, &[1]);
    open(&mut e, 2, &[2]);
    let told = e.close(VarInt::from_u32(42), b"bye");
    let mut handles: Vec<usize> = told.iter().map(|t| (t.0).0).collect();
    handles.sort_unstable();
    assert_eq!(handles, vec![1, 2]);
    for (_, close) in &told {
        assert_eq!((close.error_code.into_inner(), &close.reason[..]), (42, &b"bye"[..]));
    }
    let late = e.accept::<()>(Ok(conn(9, &[9])), &[], "channel").ok().unwrap().close.unwrap();
    assert_eq!((late.error_code.into_inner(), &late.reason[..]), (42, &b"bye"[..]));
}

#[test]
fn waiting_for_attempts_to_connect() {
    let mut e = endpoint(V4);
    assert!(matches!(e.poll_accept(), AcceptPoll::Wait));
    e.io.recv_state.incoming.push_back(1);
    e.io.recv_state.incoming.push_back(2);
    e.io.recv_state.incoming.push_back(3);
    assert!(e.has_incoming());
    assert!(matches!(e.poll_accept(), AcceptPoll::Ready(1)));
    e.close(VarInt::from_u32(0), b"");
    // Those that came before the close are still there.
    assert!(matches!(e.poll_accept(), AcceptPoll::Ready(2)));
    assert_eq!(e.io.recv_state.drain_incoming(), vec![3]);
    assert!(matches!(e.poll_accept(), AcceptPoll::Ended));
    let mut lost = endpoint(V4);
    lost.io.recv_state.incoming.push_back(1);
    lost.drop_driver();
    assert!(matches!(lost.poll_accept(), AcceptPoll::Ended));
}

#[test]
fn events_retire_remove_and_reply() {
    let mut e = endpoint(V4);
    open(&mut e, 1, &[1]);
    open(&mut e, 2, &[2]);
    let reply = e.handle_event(
        ConnectionHandle(1),
        EndpointEvent { drained: false, retired_local_cid_seq: None, reply: Some('x') },
    );
    assert_eq!(reply.deliver, Some((ConnectionHandle(1), 'x')));
    assert!(!reply.notify_idle);
    let retired = e.handle_event::<()>(
        ConnectionHandle(1),
        EndpointEvent { drained: false, retired_local_cid_seq: Some(0), reply: None },
    );
    assert!(retired.deliver.is_none() && !retired.notify_idle);
    let set = &e.io.recv_state.connections;
    assert_eq!(set.lookup_fast(V4, None, &[0, 1]), None);
    assert_eq!(set.sender(ConnectionHandle(1)), Some(&"channel"));
    let over = EndpointEvent { drained: true, retired_local_cid_seq: None, reply: None };
    assert!(!e.handle_event::<()>(ConnectionHandle(1), over).notify_idle);
    let over = EndpointEvent { drained: true, retired_local_cid_seq: Some(0), reply: None };
    assert!(e.handle_event::<()>(ConnectionHandle(2), over).notify_idle);
    assert!(e.is_idle());
}

#[test]
fn event_rounds_are_bounded() {
    let mut round = EventRound::new(1);
    assert_eq!(round.before_poll(), None);
    let h = ConnectionHandle(0);
    assert!(matches!(round.on_poll(Some((h, 5))), EventStep::Handle(_, 5)));
    assert_eq!(round.before_poll(), Some(true));
    let mut round = EventRound::new(2);
    assert!(matches!(round.on_poll::<()>(None), EventStep::Return(false)));
}

#[test]
fn driver_comes_and_goes() {
    let mut e = endpoint(V4);
    e.register_driver("first");
    e.register_driver("second");
    assert_eq!(e.proto.driver, Some("first"));
    // Two handles besides the driver's: no need to wake it for the first.
    assert!(!on_handle_dropped(2));
    assert!(on_handle_dropped(1));
    assert_eq!(e.take_driver(), Some("first"));
    assert_eq!(e.proto.driver, None);
    assert_eq!(e.poll_driver(0, true), DriverStep::Finished);
    assert_eq!(e.poll_driver(1, true), DriverStep::Reschedule);
    assert_eq!(e.poll_driver(1, false), DriverStep::Sleep);
    open(&mut e, 1, &[1]);
    assert_eq!(e.poll_driver(0, false), DriverStep::Sleep);
    e.drop_driver();
    assert!(e.proto.driver_lost && e.is_idle());
}

#[test]
fn abandoned_socket_is_let_go() {
    let quiet = PollProgress { received_connection_packet: false, keep_going: false };
    let busy = PollProgress { received_connection_packet: true, keep_going: true };
    let rebound = || {
        let mut e = endpoint(V4);
        assert!(e.rebind_abstract::<()>("new", Ok(V4)).is_ok());
        e
    };
    let mut e = rebound();
    assert_eq!(e.drive_recv::<()>(Some(Ok(busy)), Ok(quiet)), Ok(false));
    assert_eq!(e.io.prev_socket, Some("socket"));
    assert_eq!(e.drive_recv::<()>(Some(Ok(quiet)), Ok(busy)), Ok(true));
    assert_eq!(e.io.prev_socket, None);
    assert_eq!(e.drive_recv(None, Err("broken")), Err("broken"));
    let mut e = rebound();
    assert_eq!(e.drive_recv(Some(Err("old")), Ok(quiet)), Ok(false));
    assert_eq!(e.io.prev_socket, None);
    let mut e = rebound();
    assert_eq!(e.drive_recv(Some(Ok(quiet)), Err("new")), Err("new"));
    assert_eq!(e.io.prev_socket, Some("socket"));
}

#[test]
fn messages_are_cut_and_routed() {
    let mut e = endpoint(V4);
    open(&mut e, 6, &[0xaa]);
    let set = &e.io.recv_state.connections;
    let mut pass = PollSocket::new();
    // Three datagrams of three, three and two bytes; the buffer goes on behind the message.
    let buf = [0x40, 0xbb, 1, 0x40, 0xaa, 2, 0x40, 0xaa, 99, 99];
    let routed = pass.on_message(set, 11, &meta(3, 3), &buf);
    assert_eq!(routed.len(), 1);
    assert!(!pass.received_connection_packet);
    let routed = pass.on_message(set, 11, &meta(8, 3), &buf);
    assert!(pass.received_connection_packet);
    assert_eq!(routed.len(), 3);
    match &routed[0] {
        Routed::Unrouted(data) => assert_eq!(&data[..], &[0x40, 0xbb, 1]),
        Routed::Deliver(_, _) => panic!("routed"),
    }
    for (r, expected) in routed[1..].iter().zip([&[0x40, 0xaa, 2][..], &[0x40, 0xaa][..]]) {
        match r {
            Routed::Deliver(h, d) => {
                assert_eq!(*h, ConnectionHandle(6));
                assert_eq!(&d.data[..], expected);
                assert_eq!((d.now, d.remote, d.ecn), (11, V4, Some(EcnCodepoint::Ce)));
            }
            Routed::Unrouted(_) => panic!("not routed"),
        }
    }
    assert!(pass.on_message(set, 0, &meta(0, 0), &buf).is_empty());
}

#[test]
fn attempts_to_connect_are_queued_until_closed() {
    let mut e = endpoint(V4);
    open(&mut e, 1, &[1]);
    let mut pass = PollSocket::new();
    let set = &e.io.recv_state.connections;
    let queue = &mut e.io.recv_state.incoming;
    let new = |i| Some(DatagramEvent::<u32, char>::NewConnection(i));
    assert!(matches!(pass.on_handled(set, queue, new(1)), DatagramAction::Done));
    assert!(matches!(pass.on_handled(set, queue, new(2)), DatagramAction::Done));
    assert_eq!(*queue, [1, 2]);
    assert!(matches!(pass.on_handled::<_, _, char>(set, queue, None), DatagramAction::Done));
    let response = Some(DatagramEvent::<u32, char>::Response(transmit(4)));
    match pass.on_handled(set, queue, response) {
        DatagramAction::Respond(t) => assert_eq!(t.size, 4),
        _ => panic!("no response"),
    }
    assert!(!pass.received_connection_packet);
    let event = Some(DatagramEvent::ConnectionEvent(ConnectionHandle(1), 'e'));
    assert!(matches!(
        pass.on_handled(set, queue, event),
        DatagramAction::Deliver(ConnectionHandle(1), 'e')
    ));
    assert!(pass.received_connection_packet);
    e.close(VarInt::from_u32(0), b"");
    let set = &e.io.recv_state.connections;
    let queue = &mut e.io.recv_state.incoming;
    assert!(matches!(pass.on_handled(set, queue, new(3)), DatagramAction::Refuse(3)));
    assert_eq!(*queue, [1, 2]);
    // Refusing on account of the close is not counted.
    assert_eq!(e.stats().refused_handshakes, 0);
}

#[test]
fn passes_end_when_they_should() {
    let pass = PollSocket { received_connection_packet: true };
    assert!(matches!(pass.on_recv::<()>(RecvPoll::Received(4)), RecvStep::Process(4)));
    assert!(matches!(pass.on_recv::<()>(RecvPoll::ConnectionReset), RecvStep::PollAgain));
    assert!(matches!(pass.on_recv(RecvPoll::Failed(7)), RecvStep::Return(Err(7))));
    match pass.on_recv::<()>(RecvPoll::Pending) {
        RecvStep::Return(Ok(p)) => {
            assert_eq!(p, PollProgress { received_connection_packet: true, keep_going: false })
        }
        _ => panic!("not over"),
    }
    assert_eq!(pass.on_work_limit(true), None);
    assert_eq!(
        PollSocket::new().on_work_limit(false),
        Some(PollProgress { received_connection_packet: false, keep_going: true })
    );
}

#[test]
fn congestion_marks_are_translated() {
    assert_eq!(proto_ecn(UdpEcn::Ect0), EcnCodepoint::Ect0);
    assert_eq!(proto_ecn(UdpEcn::Ect1), EcnCodepoint::Ect1);
    assert_eq!(proto_ecn(UdpEcn::Ce), EcnCodepoint::Ce);
}

#[test]
fn another_close_replaces_the_reason() {
    let mut e = endpoint(V4);
    open(&mut e, 1, &[1]);
    e.close(VarInt::from_u32(1), b"first");
    let told = e.close(VarInt::from_u32(2), b"second");
    assert_eq!(told.len(), 1);
    assert_eq!((told[0].1.error_code.into_inner(), &told[0].1.reason[..]), (2, &b"second"[..]));
    // Nobody is gone, and whoever comes later is told the same, whatever has happened since.
    assert!(!e.is_idle());
    let over = EndpointEvent { drained: true, retired_local_cid_seq: None, reply: None };
    assert!(e.handle_event::<()>(ConnectionHandle(1), over).notify_idle);
    let late = e.connecting::<()>(Ok(conn(2, &[2])), "channel").ok().unwrap().close.unwrap();
    assert_eq!((late.error_code.into_inner(), &late.reason[..]), (2, &b"second"[..]));
}

#[test]
fn round_handles_events_in_order() {
    for (waiting, bound, handled, more) in
        [(0, 0, 0, true), (0, 3, 0, false), (2, 3, 2, false), (3, 3, 3, true), (5, 3, 3, true)]
    {
        let mut events = (0..waiting).map(|i| (ConnectionHandle(i), i));
        let mut seen = Vec::new();
        let mut round = EventRound::new(bound);
        let result = loop {
            if let Some(more) = round.before_poll() {
                break more;
            }
            match round.on_poll(events.next()) {
                EventStep::Handle(h, i) => {
                    assert_eq!(h, ConnectionHandle(i));
                    seen.push(i);
                }
                EventStep::Return(more) => break more,
            }
        };
        assert_eq!(seen, (0..handled).collect::<Vec<_>>());
        assert_eq!(result, more);
    }
}

#[test]
fn pass_reports_what_has_happened() {
    let mut e = endpoint(V4);
    open(&mut e, 6, &[0xaa]);
    let set = &e.io.recv_state.connections;
    let queue = &mut e.io.recv_state.incoming;
    let mut pass = PollSocket::new();
    assert!(matches!(pass.on_recv::<()>(RecvPoll::Received(1)), RecvStep::Process(1)));
    pass.on_message(set, 0, &meta(2, 2), &[0x40, 0xbb]);
    for i in [4, 5] {
        pass.on_handled(set, queue, Some(DatagramEvent::<u32, char>::NewConnection(i)));
    }
    assert_eq!(pass.on_work_limit(true), None);
    assert!(matches!(pass.on_recv::<()>(RecvPoll::ConnectionReset), RecvStep::PollAgain));
    let quiet = PollProgress { received_connection_packet: false, keep_going: true };
    assert_eq!(pass.on_work_limit(false), Some(quiet));
    pass.on_message(set, 0, &meta(2, 2), &[0x40, 0xaa]);
    pass.on_handled(set, queue, Some(DatagramEvent::<u32, char>::Response(transmit(1))));
    match pass.on_recv::<()>(RecvPoll::Pending) {
        RecvStep::Return(Ok(p)) => {
            assert_eq!(p, PollProgress { received_connection_packet: true, keep_going: false })
        }
        _ => panic!("not over"),
    }
    assert_eq!(*queue, [4, 5]);
}

#[test]
fn batch_is_its_first_messages_in_order() {
    let mut e = endpoint(V4);
    open(&mut e, 6, &[0xaa]);
    let set = &e.io.recv_state.connections;
    let metas = [meta(4, 2), meta(0, 0), meta(2, 2), meta(usize::MAX, 0)];
    let bufs: [&[u8]; 4] = [&[0x40, 1, 0x40, 2, 9], &[], &[0x40, 0xaa], &[7]];
    let mut pass = PollSocket::new();
    // The third message is left from an earlier batch, and the fourth makes no sense.
    let routed = pass.on_batch(set, 3, &metas, &bufs, 2);
    assert_eq!(routed.iter().map(Vec::len).collect::<Vec<_>>(), vec![2, 0]);
    for (r, expected) in routed[0].iter().zip([&[0x40, 1][..], &[0x40, 2][..]]) {
        match r {
            Routed::Unrouted(data) => assert_eq!(&data[..], expected),
            Routed::Deliver(_, _) => panic!("routed"),
        }
    }
    assert!(!pass.received_connection_packet);
    let routed = pass.on_batch(set, 3, &metas, &bufs, 3);
    assert!(matches!(routed[2][0], Routed::Deliver(ConnectionHandle(6), _)));
    assert!(pass.received_connection_packet);
    // No more than there are descriptions and buffers for.
    let mut pass = PollSocket::new();
    assert_eq!(pass.on_batch(set, 3, &metas[..3], &bufs, 9).len(), 3);
    assert_eq!(pass.on_batch(set, 3, &metas, &bufs[..1], 9).len(), 1);
    assert!(pass.on_batch(set, 3, &metas, &bufs, 0).is_empty());
}
