use bytes::BytesMut;
use quinn_endpoint::addr::{IpAddr, SocketAddr, SocketAddrV4, SocketAddrV6};
use quinn_endpoint::cid::{fast_path_dst_cid, ConnectionId};
use quinn_endpoint::connections::{
    CloseReason, ConnectionHandle, ConnectionSet, Datagram, EcnCodepoint, NewConnection, Routed,
    Side,
};
use quinn_endpoint::transport::VarInt;
use tokio::sync::mpsc;

/// 127.0.0.1:4433
fn localhost() -> SocketAddr {
    SocketAddr::V4(SocketAddrV4 { ip: 0x7f00_0001, port: 4433 })
}

fn v6(port: u16) -> SocketAddr {
    SocketAddr::V6(SocketAddrV6 { ip: 1, port, flowinfo: 0, scope_id: 0 })
}

fn conn(handle: usize, cid: &[u8], side: Side, remote: SocketAddr) -> NewConnection {
    NewConnection {
        handle: ConnectionHandle(handle),
        handshake_cid: ConnectionId::new(cid),
        side,
        remote,
        local_ip: None,
    }
}

#[test]
fn fast_path_short_header_cid() {
    let cid = [1, 2, 3, 4];
    let data = [0x40, 1, 2, 3, 4, 0xaa];
    assert_eq!(fast_path_dst_cid(&data, cid.len()), Some(ConnectionId::new(&cid)));
}

#[test]
fn fast_route_delivers_datagram_by_cid() {
    let handle = ConnectionHandle(7);
    let (conn_send, mut conn_recv) = mpsc::unbounded_channel::<Datagram>();
    let cid = ConnectionId::new(&[9, 8, 7, 6]);
    let remote = localhost();
    let data = BytesMut::from(&[0x40, 9, 8, 7, 6, 0xaa][..]);

    let mut set = ConnectionSet::new(cid.len());
    let told = set.insert(
        NewConnection {
            handle,
            handshake_cid: cid,
            side: Side::Client,
            remote,
            local_ip: None,
        },
        conn_send,
    );
    assert!(told.is_none());

    match set.try_route_fast(0, remote, None, None, data.clone()) {
        Routed::Deliver(h, datagram) => {
            assert_eq!(h, handle);
            set.sender(h).unwrap().send(datagram).unwrap();
        }
        Routed::Unrouted(_) => panic!("not routed"),
    }
    let got = conn_recv.try_recv().unwrap();
    assert_eq!(got.remote, remote);
    assert_eq!(got.data, data);
}

#[test]
fn retired_cid_is_removed_from_fast_routes() {
    let handle = ConnectionHandle(3);
    let (conn_send, _conn_recv) = mpsc::unbounded_channel::<Datagram>();
    let remote = localhost();
    let mut set = ConnectionSet::new(4);
    set.insert(conn(3, &[1, 3, 3, 7], Side::Client, remote), conn_send);

    set.retire(handle, 0);
    assert_eq!(set.lookup_fast(remote, None, &[0x40, 1, 3, 3, 7, 0]), None);
}

#[test]
fn long_header_cid_has_its_own_length() {
    // flags, version, length, three bytes of ID, payload
    let data = [0xc0, 0, 0, 0, 1, 3, 7, 8, 9, 0xff];
    assert_eq!(fast_path_dst_cid(&data, 8), Some(ConnectionId::new(&[7, 8, 9])));
    assert_eq!(fast_path_dst_cid(&data[..8], 8), None);
    assert_eq!(fast_path_dst_cid(&data[..6], 8), None);
    assert_eq!(fast_path_dst_cid(&data[..5], 8), None);
    assert_eq!(fast_path_dst_cid(&data[..4], 8), None);
    let empty = [0x80, 0, 0, 0, 0, 0];
    assert_eq!(fast_path_dst_cid(&empty, 8), Some(ConnectionId::new(&[])));
}

#[test]
fn short_header_cid_edges() {
    assert_eq!(fast_path_dst_cid(&[], 0), None);
    assert_eq!(fast_path_dst_cid(&[0x40], 0), Some(ConnectionId::new(&[])));
    assert_eq!(fast_path_dst_cid(&[0x40, 1], 2), None);
    assert_eq!(fast_path_dst_cid(&[0x40, 1], usize::MAX), None);
    assert_eq!(fast_path_dst_cid(&[0x7f, 1, 2], 2), Some(ConnectionId::new(&[1, 2])));
}

#[test]
fn connection_id_accessors() {
    let cid = ConnectionId::new(&[5, 6]);
    assert_eq!(cid.len(), 2);
    assert!(!cid.is_empty());
    assert_eq!(cid.as_slice(), &[5, 6]);
    assert!(ConnectionId::new(&[]).is_empty());
}

#[test]
fn unknown_cid_is_handed_back() {
    let mut set = ConnectionSet::new(2);
    set.insert(conn(1, &[1, 1], Side::Server, localhost()), ());
    let data = BytesMut::from(&[0x40, 2, 2, 0][..]);
    match set.try_route_fast(5, localhost(), None, None, data.clone()) {
        Routed::Unrouted(back) => assert_eq!(back, data),
        Routed::Deliver(_, _) => panic!("routed"),
    }
    match set.try_route_fast(5, localhost(), None, None, BytesMut::from(&[0x40][..])) {
        Routed::Unrouted(back) => assert_eq!(&back[..], &[0x40]),
        Routed::Deliver(_, _) => panic!("routed"),
    }
}

#[test]
fn delivered_datagram_carries_everything() {
    let mut set = ConnectionSet::new(1);
    set.insert(conn(4, &[9], Side::Server, localhost()), "channel");
    let from = v6(99);
    let data = BytesMut::from(&[0x41, 9, 3][..]);
    match set.try_route_fast(17, from, Some(IpAddr::V6(3)), Some(EcnCodepoint::Ce), data) {
        Routed::Deliver(h, d) => {
            assert_eq!(h, ConnectionHandle(4));
            assert_eq!(d.now, 17);
            assert_eq!(d.remote, from);
            assert_eq!(d.ecn, Some(EcnCodepoint::Ce));
            assert_eq!(&d.data[..], &[0x41, 9, 3]);
        }
        Routed::Unrouted(_) => panic!("not routed"),
    }
    assert_eq!(set.sender(ConnectionHandle(4)), Some(&"channel"));
    assert_eq!(set.sender(ConnectionHandle(5)), None);
}

#[test]
fn addresses_route_when_ids_are_empty() {
    let mut set = ConnectionSet::new(0);
    set.insert(conn(1, &[], Side::Client, localhost()), ());
    // Reached whatever local address the datagram was sent to.
    assert_eq!(
        set.lookup_fast(localhost(), Some(IpAddr::V4(5)), &[0x40]),
        Some(ConnectionHandle(1))
    );
    assert_eq!(set.lookup_fast(v6(1), None, &[0x40]), None);
    // A connection made by the peer goes first, but only at its own local address.
    let mut incoming = conn(2, &[], Side::Server, localhost());
    incoming.local_ip = Some(IpAddr::V4(5));
    set.insert(incoming, ());
    assert_eq!(
        set.lookup_fast(localhost(), Some(IpAddr::V4(5)), &[0x40]),
        Some(ConnectionHandle(2))
    );
    assert_eq!(
        set.lookup_fast(localhost(), Some(IpAddr::V6(5)), &[0x40]),
        Some(ConnectionHandle(1))
    );
    assert_eq!(set.lookup_fast(localhost(), None, &[0x40]), Some(ConnectionHandle(1)));
    set.remove(ConnectionHandle(2));
    assert_eq!(
        set.lookup_fast(localhost(), Some(IpAddr::V4(5)), &[0x40]),
        Some(ConnectionHandle(1))
    );
    set.remove(ConnectionHandle(1));
    assert_eq!(set.lookup_fast(localhost(), None, &[0x40]), None);
    assert!(set.is_empty());
}

#[test]
fn removing_one_connection_leaves_the_other() {
    let mut set = ConnectionSet::new(2);
    set.insert(conn(1, &[1, 1], Side::Server, localhost()), 'a');
    set.insert(conn(2, &[2, 2], Side::Server, localhost()), 'b');
    set.remove(ConnectionHandle(1));
    assert_eq!(set.lookup_fast(localhost(), None, &[0, 1, 1]), None);
    assert_eq!(set.lookup_fast(localhost(), None, &[0, 2, 2]), Some(ConnectionHandle(2)));
    assert_eq!(set.sender(ConnectionHandle(1)), None);
    // Not there any more: no effect.
    set.remove(ConnectionHandle(1));
    set.retire(ConnectionHandle(1), 0);
    set.retire(ConnectionHandle(2), 1);
    assert_eq!(set.lookup_fast(localhost(), None, &[0, 2, 2]), Some(ConnectionHandle(2)));
}

#[test]
fn clearing_forgets_everything() {
    let mut set = ConnectionSet::new(1);
    set.insert(conn(1, &[1], Side::Server, localhost()), ());
    assert!(!set.is_empty());
    set.clear();
    assert!(set.is_empty());
    assert_eq!(set.lookup_fast(localhost(), None, &[0, 1]), None);
}

#[test]
fn everybody_is_told_once() {
    let mut set = ConnectionSet::new(1);
    for i in 0..5u8 {
        set.insert(conn(i as usize * 10, &[i], Side::Server, localhost()), ());
    }
    let mut handles: Vec<usize> = set.send_rebind().iter().map(|h| h.0).collect();
    handles.sort_unstable();
    assert_eq!(handles, vec![0, 10, 20, 30, 40]);
    let reason = bytes::Bytes::copy_from_slice(b"bye");
    let told = set.send_close(VarInt::from_u32(7), &reason);
    let mut handles: Vec<usize> = told.iter().map(|t| (t.0).0).collect();
    handles.sort_unstable();
    assert_eq!(handles, vec![0, 10, 20, 30, 40]);
    for (_, close) in &told {
        assert_eq!(close.error_code.into_inner(), 7);
        assert_eq!(&close.reason[..], b"bye");
    }
}

#[test]
fn late_connection_is_told_of_the_close() {
    let mut set = ConnectionSet::new(1);
    assert!(!set.is_closed());
    set.set_close(CloseReason {
        error_code: VarInt::from_u32(3),
        reason: bytes::Bytes::copy_from_slice(b"over"),
    });
    assert!(set.is_closed());
    let told = set.insert(conn(1, &[1], Side::Server, localhost()), ()).unwrap();
    assert_eq!(told.error_code.into_inner(), 3);
    assert_eq!(&told.reason[..], b"over");
    set.clear();
    assert!(set.is_closed());
}

#[test]
fn id_in_use_is_taken_over() {
    let mut set = ConnectionSet::new(1);
    set.insert(conn(1, &[5], Side::Server, localhost()), 'a');
    set.insert(conn(2, &[5], Side::Client, v6(1)), 'b');
    assert_eq!(set.lookup_fast(localhost(), None, &[0, 5]), Some(ConnectionHandle(2)));
    assert_eq!(set.sender(ConnectionHandle(1)), Some(&'a'));
    // The first connection still has the ID on record, so it goes with it.
    set.remove(ConnectionHandle(1));
    assert_eq!(set.lookup_fast(localhost(), None, &[0, 5]), None);
    assert_eq!(set.sender(ConnectionHandle(2)), Some(&'b'));
}
