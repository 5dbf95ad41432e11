//! The connections of an endpoint, and the routes by which datagrams reach them.
use crate::addr::{IpAddr, RouteKey, SocketAddr};
use crate::buffer;
use crate::cid::{fast_path_dst_cid, ConnectionId};
use crate::tables::{
    cid_get, cid_insert, cid_remove, fx_get, fx_get_mut, fx_insert, fx_keys, fx_remove, remote_get,
    remote_insert, remote_remove,
};
use crate::transport::VarInt;
use bytes::{Bytes, BytesMut};
use rustc_hash::FxHashMap;
use std::collections::HashMap;
use vstd::prelude::*;

verus! {

broadcast use vstd::std_specs::hash::group_hash_axioms;

/// The number by which the protocol engine knows a connection.
#[derive(Clone, Copy, Debug, PartialEq, Eq, Structural)]
pub struct ConnectionHandle(pub usize);

/// Which end of a connection this endpoint is.
#[derive(Clone, Copy, Debug, PartialEq, Eq, Structural)]
pub enum Side {
    /// The connection was made from here.
    Client,
    /// The connection was made by the peer.
    Server,
}

/// An explicit congestion notification on a datagram.
#[derive(Clone, Copy, Debug, PartialEq, Eq, Structural)]
pub enum EcnCodepoint {
    Ect0,
    Ect1,
    Ce,
}

/// The remote address and, if the system tells, the local IP address of a datagram.
#[derive(Clone, Copy, Debug, PartialEq, Eq, Structural)]
pub struct FourTupleKey {
    pub remote: SocketAddr,
    pub local_ip: Option<IpAddr>,
}

impl FourTupleKey {
    /// The pair as a tuple of numbers.
    pub open spec fn key_spec(self) -> RouteKey {
        (
            self.remote.key_spec(),
            match self.local_ip {
                Some(ip) => Some(ip.key_spec()),
                None => None,
            },
        )
    }

    /// The pair as a tuple of numbers.
    pub fn key(&self) -> (k: RouteKey)
        ensures
            k == self.key_spec(),
    {
        let local = match &self.local_ip {
            Some(ip) => Some(ip.key()),
            None => None,
        };
        (self.remote.key(), local)
    }
}

/// What a peer, or every peer, is told when a connection is closed.
pub struct CloseReason {
    pub error_code: VarInt,
    pub reason: Bytes,
}

impl View for CloseReason {
    type V = (u64, Seq<u8>);

    open spec fn view(&self) -> (u64, Seq<u8>) {
        (self.error_code@, buffer::bytes_contents(self.reason))
    }
}

/// A datagram on its way to a connection.
pub struct Datagram {
    /// When it arrived, in nanoseconds of the runtime's clock.
    pub now: u64,
    pub remote: SocketAddr,
    pub ecn: Option<EcnCodepoint>,
    pub data: BytesMut,
}

/// Where a datagram goes.
pub enum Routed {
    /// To this connection, as this event.
    Deliver(ConnectionHandle, Datagram),
    /// To the protocol engine, since no connection is known to own it.
    Unrouted(BytesMut),
}

/// What the set of connections needs to know of a new one.
pub struct NewConnection {
    pub handle: ConnectionHandle,
    /// The connection ID that the peer addresses during the handshake.
    pub handshake_cid: ConnectionId,
    pub side: Side,
    pub remote: SocketAddr,
    pub local_ip: Option<IpAddr>,
}

/// How to reach one connection, and which routes lead to it.
pub struct ConnectionRoutes<S> {
    sender: S,
    remote: SocketAddr,
    local_ip: Option<IpAddr>,
    side: Side,
    local_cids: FxHashMap<u64, ConnectionId>,
}

/// The mathematical content of [`ConnectionRoutes`].
#[verifier::ext_equal]
pub struct RoutesView<S> {
    /// The channel into the connection.
    pub sender: S,
    pub remote: SocketAddr,
    pub local_ip: Option<IpAddr>,
    pub side: Side,
    /// The connection IDs that lead here, by sequence number.
    pub local_cids: Map<u64, Seq<u8>>,
}

impl<S> View for ConnectionRoutes<S> {
    type V = RoutesView<S>;

    closed spec fn view(&self) -> RoutesView<S> {
        RoutesView {
            sender: self.sender,
            remote: self.remote,
            local_ip: self.local_ip,
            side: self.side,
            local_cids: self.local_cids@.map_values(|c: ConnectionId| c@),
        }
    }
}

/// The connections of an endpoint. `S` is the type of channel that leads into a connection.
pub struct ConnectionSet<S> {
    connections: FxHashMap<usize, ConnectionRoutes<S>>,
    cids: FxHashMap<Vec<u8>, usize>,
    incoming_remotes: HashMap<RouteKey, usize>,
    outgoing_remotes: HashMap<RouteKey, usize>,
    close: Option<CloseReason>,
    local_cid_len: usize,
}

/// The mathematical content of [`ConnectionSet`].
#[verifier::ext_equal]
pub struct ConnectionSetView<S> {
    /// The connections by handle.
    pub connections: Map<usize, RoutesView<S>>,
    /// Which connection a connection ID leads to.
    pub cids: Map<Seq<u8>, usize>,
    /// Which connection made by a peer the datagrams without a connection ID lead to.
    pub incoming_remotes: Map<FourTupleKey, usize>,
    /// Which connection made from here the datagrams without a connection ID lead to.
    pub outgoing_remotes: Map<SocketAddr, usize>,
    /// What every connection is told, if the endpoint has been closed.
    pub close: Option<(u64, Seq<u8>)>,
    /// The length of the connection IDs in short headers.
    pub local_cid_len: nat,
}

/// Whether `handles` names every connection in `open` once, and no other.
pub open spec fn lists_each_once(handles: Seq<ConnectionHandle>, open: Set<usize>) -> bool {
    &&& handles.no_duplicates()
    &&& forall|i: int| 0 <= i < handles.len() ==> open.contains((#[trigger] handles[i]).0)
    &&& forall|h: usize|
        open.contains(h) ==> exists|i: int| 0 <= i < handles.len() && (#[trigger] handles[i]).0 == h
}

/// Whether `told` says to every connection in `open` once, and to no other, that the endpoint has
/// been closed for the given reason.
pub open spec fn tells_each_of_close(
    told: Seq<(ConnectionHandle, CloseReason)>,
    open: Set<usize>,
    code: u64,
    reason: Seq<u8>,
) -> bool {
    &&& lists_each_once(addressees(told), open)
    &&& forall|i: int| 0 <= i < told.len() ==> (#[trigger] told[i]).1@ == (code, reason)
}

/// The connections that a list of messages is addressed to.
pub open spec fn addressees(told: Seq<(ConnectionHandle, CloseReason)>) -> Seq<ConnectionHandle> {
    told.map_values(|t: (ConnectionHandle, CloseReason)| t.0)
}

/// A table of four-tuples, by the four-tuples themselves.
pub open spec fn by_four_tuple(m: Map<RouteKey, usize>) -> Map<FourTupleKey, usize> {
    Map::new(|k: FourTupleKey| m.contains_key(k.key_spec()), |k: FourTupleKey| m[k.key_spec()])
}

/// A table of remote addresses, by the addresses themselves.
pub open spec fn by_remote(m: Map<RouteKey, usize>) -> Map<SocketAddr, usize> {
    Map::new(
        |a: SocketAddr| m.contains_key((a.key_spec(), None)),
        |a: SocketAddr| m[(a.key_spec(), None)],
    )
}

impl<S> View for ConnectionSet<S> {
    type V = ConnectionSetView<S>;

    closed spec fn view(&self) -> ConnectionSetView<S> {
        ConnectionSetView {
            connections: self.connections@.map_values(|r: ConnectionRoutes<S>| r@),
            cids: crate::tables::by_bytes(self.cids@),
            incoming_remotes: by_four_tuple(self.incoming_remotes@),
            outgoing_remotes: by_remote(self.outgoing_remotes@),
            close: match self.close {
                Some(c) => Some(c@),
                None => None,
            },
            local_cid_len: self.local_cid_len as nat,
        }
    }
}

impl<S> ConnectionSetView<S> {
    /// A set without connections, on an endpoint that has not been closed.
    pub open spec fn new(local_cid_len: nat) -> Self {
        ConnectionSetView {
            connections: Map::empty(),
            cids: Map::empty(),
            incoming_remotes: Map::empty(),
            outgoing_remotes: Map::empty(),
            close: None,
            local_cid_len,
        }
    }

    /// The set with one more connection.
    ///
    /// It is reached by its handshake connection ID if that has any bytes, and otherwise by the
    /// addresses: by the remote one alone if it was made from here.
    pub open spec fn inserted(self, conn: NewConnection, sender: S) -> Self {
        let cid = conn.handshake_cid@;
        let tuple = FourTupleKey { remote: conn.remote, local_ip: conn.local_ip };
        ConnectionSetView {
            connections: self.connections.insert(
                conn.handle.0,
                RoutesView {
                    sender,
                    remote: conn.remote,
                    local_ip: conn.local_ip,
                    side: conn.side,
                    local_cids: if cid.len() == 0 {
                        Map::empty()
                    } else {
                        Map::empty().insert(0, cid)
                    },
                },
            ),
            cids: if cid.len() == 0 {
                self.cids
            } else {
                self.cids.insert(cid, conn.handle.0)
            },
            incoming_remotes: if cid.len() == 0 && conn.side is Server {
                self.incoming_remotes.insert(tuple, conn.handle.0)
            } else {
                self.incoming_remotes
            },
            outgoing_remotes: if cid.len() == 0 && conn.side is Client {
                self.outgoing_remotes.insert(conn.remote, conn.handle.0)
            } else {
                self.outgoing_remotes
            },
            ..self
        }
    }

    /// The set without the connection `handle` and the routes recorded for it.
    pub open spec fn removed(self, handle: usize) -> Self {
        if self.connections.contains_key(handle) {
            let routes = self.connections[handle];
            let tuple = FourTupleKey { remote: routes.remote, local_ip: routes.local_ip };
            ConnectionSetView {
                connections: self.connections.remove(handle),
                cids: self.cids.remove_keys(routes.local_cids.values()),
                incoming_remotes: if routes.side is Server {
                    self.incoming_remotes.remove(tuple)
                } else {
                    self.incoming_remotes
                },
                outgoing_remotes: if routes.side is Client {
                    self.outgoing_remotes.remove(routes.remote)
                } else {
                    self.outgoing_remotes
                },
                ..self
            }
        } else {
            self
        }
    }

    /// The set after the connection `handle` has given up the connection ID that it issued under
    /// the sequence number `sequence`.
    pub open spec fn retired(self, handle: usize, sequence: u64) -> Self {
        if self.connections.contains_key(handle)
            && self.connections[handle].local_cids.contains_key(sequence) {
            let routes = self.connections[handle];
            ConnectionSetView {
                connections: self.connections.insert(
                    handle,
                    RoutesView { local_cids: routes.local_cids.remove(sequence), ..routes },
                ),
                cids: self.cids.remove(routes.local_cids[sequence]),
                ..self
            }
        } else {
            self
        }
    }

    /// The set when the endpoint has been closed for the given reason. No connection is lost by
    /// that.
    pub open spec fn closed(self, code: u64, reason: Seq<u8>) -> Self {
        ConnectionSetView { close: Some((code, reason)), ..self }
    }

    /// Whether `told` is what a connection that is added is told first: why the endpoint has been
    /// closed, if it has.
    pub open spec fn tells_of_close(self, told: Option<CloseReason>) -> bool {
        match told {
            Some(c) => self.close == Some(c@),
            None => self.close is None,
        }
    }

    /// The set without any connections or routes.
    pub open spec fn cleared(self) -> Self {
        ConnectionSetView {
            close: self.close,
            ..ConnectionSetView::new(self.local_cid_len)
        }
    }

    /// The connection that a datagram leads to, going by its destination connection ID or, if
    /// that has no bytes, by its addresses.
    pub open spec fn fast_route(
        self,
        remote: SocketAddr,
        local_ip: Option<IpAddr>,
        data: Seq<u8>,
    ) -> Option<usize> {
        let tuple = FourTupleKey { remote, local_ip };
        match crate::cid::dst_cid(data, self.local_cid_len) {
            None => None,
            Some(cid) => if cid.len() == 0 {
                if self.incoming_remotes.contains_key(tuple) {
                    Some(self.incoming_remotes[tuple])
                } else if self.outgoing_remotes.contains_key(remote) {
                    Some(self.outgoing_remotes[remote])
                } else {
                    None
                }
            } else if self.cids.contains_key(cid) {
                Some(self.cids[cid])
            } else {
                None
            },
        }
    }

    /// The open connection that a datagram is delivered to without the protocol engine.
    pub open spec fn delivers_to(
        self,
        remote: SocketAddr,
        local_ip: Option<IpAddr>,
        data: Seq<u8>,
    ) -> Option<usize> {
        match self.fast_route(remote, local_ip, data) {
            Some(h) if self.connections.contains_key(h) => Some(h),
            _ => None,
        }
    }
}

impl<S> ConnectionSet<S> {
    /// A set without connections, on an endpoint whose connection IDs have the given length.
    pub fn new(local_cid_len: usize) -> (r: Self)
        ensures
            r@ == ConnectionSetView::<S>::new(local_cid_len as nat),
    {
        let r = ConnectionSet {
            connections: FxHashMap::default(),
            cids: FxHashMap::default(),
            incoming_remotes: HashMap::new(),
            outgoing_remotes: HashMap::new(),
            close: None,
            local_cid_len,
        };
        proof {
            crate::tables::lemma_by_bytes_empty();
            assert(r@ =~= ConnectionSetView::<S>::new(local_cid_len as nat));
        }
        r
    }

    /// Adds a connection and the route to it.
    ///
    /// If the endpoint has been closed, the connection is to be told what is returned.
    pub fn insert(&mut self, conn: NewConnection, sender: S) -> (r: Option<CloseReason>)
        requires
            conn.handshake_cid@.len() == 0 ==> old(self)@.local_cid_len == 0,
        ensures
            final(self)@ == old(self)@.inserted(conn, sender),
            old(self)@.tells_of_close(r),
    {
        let ghost before = self@;
        let told = self.close_reason();
        let handle: usize = conn.handle.0;
        let mut local_cids: FxHashMap<u64, ConnectionId> = FxHashMap::default();
        let remote = conn.remote;
        let local_ip = conn.local_ip;
        let tuple = FourTupleKey { remote, local_ip };
        let cid_len: usize = conn.handshake_cid.len();
        let ghost cid = conn.handshake_cid@;
        let ghost conn0 = conn;
        if cid_len == 0 {
            match conn.side {
                Side::Server => {
                    let k = tuple.key();
                    proof {
                        lemma_by_four_tuple(self.incoming_remotes@, tuple, handle);
                    }
                    remote_insert(&mut self.incoming_remotes, k, handle);
                },
                Side::Client => {
                    let k = (remote.key(), None);
                    proof {
                        lemma_by_remote(self.outgoing_remotes@, remote, handle);
                    }
                    remote_insert(&mut self.outgoing_remotes, k, handle);
                },
            }
        } else {
            cid_insert(
                &mut self.cids,
                vstd::slice::slice_to_vec(conn.handshake_cid.as_slice()),
                handle,
            );
            fx_insert(&mut local_cids, 0u64, conn.handshake_cid);
        }
        let routes = ConnectionRoutes { sender, remote, local_ip, side: conn.side, local_cids };
        proof {
            assert(routes@.local_cids =~= (if cid.len() == 0 {
                Map::empty()
            } else {
                Map::empty().insert(0u64, cid)
            }));
        }
        fx_insert(&mut self.connections, handle, routes);
        proof {
            assert(self@.connections =~= before.inserted(conn0, sender).connections);
            assert(self@ =~= before.inserted(conn0, sender));
        }
        told
    }

    /// What a new connection is told, if the endpoint has been closed.
    pub fn close_reason(&self) -> (r: Option<CloseReason>)
        ensures
            self@.tells_of_close(r),
    {
        match &self.close {
            Some(c) => Some(
                CloseReason { error_code: c.error_code, reason: buffer::clone_bytes(&c.reason) },
            ),
            None => None,
        }
    }

    /// Finds the connection that a datagram leads to.
    pub fn lookup_fast(&self, remote: SocketAddr, local_ip: Option<IpAddr>, data: &[u8]) -> (r:
        Option<ConnectionHandle>)
        ensures
            match r {
                Some(h) => self@.fast_route(remote, local_ip, data@) == Some(h.0),
                None => self@.fast_route(remote, local_ip, data@) is None,
            },
    {
        let cid = match fast_path_dst_cid(data, self.local_cid_len) {
            Some(cid) => cid,
            None => {
                return None;
            },
        };
        let found: Option<usize> = if cid.is_empty() {
            let tuple = FourTupleKey { remote, local_ip };
            match remote_get(&self.incoming_remotes, &tuple.key()) {
                Some(h) => Some(h),
                None => remote_get(&self.outgoing_remotes, &(remote.key(), None)),
            }
        } else {
            cid_get(&self.cids, cid.as_slice())
        };
        match found {
            Some(h) => Some(ConnectionHandle(h)),
            None => None,
        }
    }

    /// Routes a datagram to the connection that it leads to, without the protocol engine, or
    /// hands it back.
    pub fn try_route_fast(
        &self,
        now: u64,
        remote: SocketAddr,
        local_ip: Option<IpAddr>,
        ecn: Option<EcnCodepoint>,
        data: BytesMut,
    ) -> (r: Routed)
        ensures
            r == (match self@.delivers_to(remote, local_ip, buffer::bytes_mut_contents(data)) {
                Some(h) => Routed::Deliver(
                    ConnectionHandle(h),
                    Datagram { now, remote, ecn, data },
                ),
                None => Routed::Unrouted(data),
            }),
    {
        let handle = match self.lookup_fast(remote, local_ip, buffer::as_slice(&data)) {
            Some(h) => h,
            None => {
                return Routed::Unrouted(data);
            },
        };
        match fx_get(&self.connections, &handle.0) {
            Some(_) => Routed::Deliver(handle, Datagram { now, remote, ecn, data }),
            None => Routed::Unrouted(data),
        }
    }

    /// The channel into a connection.
    pub fn sender(&self, handle: ConnectionHandle) -> (r: Option<&S>)
        ensures
            match r {
                Some(s) => self@.connections.contains_key(handle.0)
                    && *s == self@.connections[handle.0].sender,
                None => !self@.connections.contains_key(handle.0),
            },
    {
        match fx_get(&self.connections, &handle.0) {
            Some(routes) => Some(&routes.sender),
            None => None,
        }
    }

    /// Lists the open connections, each once, in no particular order.
    pub fn handles(&self) -> (r: Vec<ConnectionHandle>)
        ensures
            lists_each_once(r@, self@.connections.dom()),
    {
        let keys = fx_keys(&self.connections);
        let mut r: Vec<ConnectionHandle> = Vec::new();
        let mut i: usize = 0;
        while i < keys.len()
            invariant
                i <= keys@.len(),
                r@.len() == i,
                forall|j: int| 0 <= j < i ==> (#[trigger] r@[j]).0 == keys@[j],
            decreases keys@.len() - i,
        {
            r.push(ConnectionHandle(keys[i]));
            i += 1;
        }
        proof {
            assert forall|h: usize| self@.connections.contains_key(h) implies exists|j: int|
                0 <= j < r@.len() && (#[trigger] r@[j]).0 == h by {
                assert(keys@.to_set().contains(h));
                let j = choose|j: int| 0 <= j < keys@.len() && keys@[j] == h;
                assert(r@[j].0 == h);
            }
            assert forall|j: int| 0 <= j < r@.len() implies self@.connections.contains_key(
                (#[trigger] r@[j]).0,
            ) by {
                assert(keys@.to_set().contains(keys@[j]));
            }
        }
        r
    }

    /// What each connection is to be told when the endpoint is closed.
    pub fn send_close(&self, error_code: VarInt, reason: &Bytes) -> (r: Vec<
        (ConnectionHandle, CloseReason),
    >)
        ensures
            tells_each_of_close(
                r@,
                self@.connections.dom(),
                error_code@,
                buffer::bytes_contents(*reason),
            ),
    {
        let handles = self.handles();
        let mut r: Vec<(ConnectionHandle, CloseReason)> = Vec::new();
        let mut i: usize = 0;
        while i < handles.len()
            invariant
                i <= handles@.len(),
                r@.len() == i,
                forall|j: int| 0 <= j < i ==> (#[trigger] r@[j]).0 == handles@[j],
                forall|j: int|
                    0 <= j < i ==> (#[trigger] r@[j]).1@ == (
                        error_code@,
                        buffer::bytes_contents(*reason),
                    ),
            decreases handles@.len() - i,
        {
            let told = CloseReason { error_code, reason: buffer::clone_bytes(reason) };
            r.push((handles[i], told));
            i += 1;
        }
        assert(addressees(r@) =~= handles@);
        r
    }

    /// The connections that are to be told of a new socket.
    pub fn send_rebind(&self) -> (r: Vec<ConnectionHandle>)
        ensures
            lists_each_once(r@, self@.connections.dom()),
    {
        self.handles()
    }

    /// Records that the endpoint has been closed, and why.
    pub fn set_close(&mut self, close: CloseReason)
        ensures
            final(self)@ == old(self)@.closed(close@.0, close@.1),
    {
        self.close = Some(close);
        assert(self@ =~= old(self)@.closed(close@.0, close@.1));
    }

    /// Whether the endpoint has been closed.
    pub fn is_closed(&self) -> (r: bool)
        ensures
            r == (self@.close is Some),
    {
        self.close.is_some()
    }

    /// Whether no connections are open.
    pub fn is_empty(&self) -> (r: bool)
        ensures
            r == (self@.connections =~= Map::empty()),
    {
        let r = self.connections.is_empty();
        proof {
            if self@.connections =~= Map::empty() {
                assert(self.connections@ =~= Map::empty()) by {
                    assert forall|h: usize| !self.connections@.contains_key(h) by {
                        assert(!self@.connections.contains_key(h));
                    }
                }
            } else if r {
                assert(self@.connections =~= Map::empty());
            }
        }
        r
    }

    /// Forgets all connections and all routes. Dropping the channels tells the connections.
    pub fn clear(&mut self)
        ensures
            final(self)@ == old(self)@.cleared(),
    {
        self.connections.clear();
        self.cids.clear();
        self.incoming_remotes.clear();
        self.outgoing_remotes.clear();
        proof {
            crate::tables::lemma_by_bytes_empty();
            assert(self@ =~= old(self)@.cleared());
        }
    }

    /// Takes a connection ID that its connection has given up out of use.
    pub fn retire(&mut self, handle: ConnectionHandle, sequence: u64)
        ensures
            final(self)@ == old(self)@.retired(handle.0, sequence),
    {
        let ghost before = self@;
        let mut gone: Option<ConnectionId> = None;
        match fx_get_mut(&mut self.connections, &handle.0) {
            Some(routes) => {
                gone = fx_remove(&mut routes.local_cids, &sequence);
            },
            None => {},
        }
        match gone {
            Some(cid) => {
                cid_remove(&mut self.cids, cid.as_slice());
            },
            None => {},
        }
        proof {
            assert(self@.connections =~~= before.retired(handle.0, sequence).connections);
            assert(self@ =~= before.retired(handle.0, sequence));
        }
    }

    /// Forgets a connection and the routes to it.
    pub fn remove(&mut self, handle: ConnectionHandle)
        ensures
            final(self)@ == old(self)@.removed(handle.0),
    {
        let ghost before = self@;
        let routes = match fx_remove(&mut self.connections, &handle.0) {
            Some(routes) => routes,
            None => {
                assert(self@.connections =~= before.connections);
                return ;
            },
        };
        let ghost cids0 = crate::tables::by_bytes(self.cids@);
        let ghost owned = routes.local_cids@;
        let ghost mid = *self;
        assert(routes@ == before.connections[handle.0]);
        let seqs = fx_keys(&routes.local_cids);
        let mut i: usize = 0;
        while i < seqs.len()
            invariant
                i <= seqs@.len(),
                owned == routes.local_cids@,
                forall|j: int| 0 <= j < seqs@.len() ==> owned.contains_key(#[trigger] seqs@[j]),
                crate::tables::by_bytes(self.cids@) == cids0.remove_keys(
                    Set::new(
                        |c: Seq<u8>|
                            exists|j: int| 0 <= j < i && owned[#[trigger] seqs@[j]]@ == c,
                    ),
                ),
                self.connections == mid.connections,
                self.incoming_remotes == mid.incoming_remotes,
                self.outgoing_remotes == mid.outgoing_remotes,
                self.close == mid.close,
                self.local_cid_len == mid.local_cid_len,
            decreases seqs@.len() - i,
        {
            match fx_get(&routes.local_cids, &seqs[i]) {
                Some(cid) => {
                    cid_remove(&mut self.cids, cid.as_slice());
                },
                None => {},
            }
            i += 1;
        }
        match routes.side {
            Side::Server => {
                let tuple = FourTupleKey { remote: routes.remote, local_ip: routes.local_ip };
                proof {
                    lemma_by_four_tuple(self.incoming_remotes@, tuple, 0);
                }
                remote_remove(&mut self.incoming_remotes, &tuple.key());
            },
            Side::Client => {
                proof {
                    lemma_by_remote(self.outgoing_remotes@, routes.remote, 0);
                }
                remote_remove(&mut self.outgoing_remotes, &(routes.remote.key(), None));
            },
        }
        proof {
            let listed = Set::new(
                |c: Seq<u8>|
                    exists|j: int| 0 <= j < seqs@.len() && owned[#[trigger] seqs@[j]]@ == c,
            );
            assert forall|c: Seq<u8>| routes@.local_cids.values().contains(c) implies listed.contains(
                c,
            ) by {
                let k = choose|k: u64| routes@.local_cids.contains_key(k) && routes@.local_cids[k] == c;
                assert(seqs@.to_set().contains(k));
            }
            assert forall|c: Seq<u8>| listed.contains(c) implies routes@.local_cids.values().contains(
                c,
            ) by {
                let j = choose|j: int| 0 <= j < seqs@.len() && owned[#[trigger] seqs@[j]]@ == c;
                assert(routes@.local_cids.contains_key(seqs@[j]));
            }
            assert(listed =~= routes@.local_cids.values());
            assert(self@.connections =~= before.removed(handle.0).connections);
            assert(self@ =~= before.removed(handle.0));
        }
    }
}

proof fn lemma_by_four_tuple(m: Map<RouteKey, usize>, k: FourTupleKey, h: usize)
    ensures
        by_four_tuple(m.insert(k.key_spec(), h)) == by_four_tuple(m).insert(k, h),
        by_four_tuple(m.remove(k.key_spec())) == by_four_tuple(m).remove(k),
{
    assert forall|x: FourTupleKey| x.key_spec() == k.key_spec() implies x == k by {
        assert(x.remote == k.remote);
        assert(x.local_ip == k.local_ip);
    }
    assert(by_four_tuple(m.insert(k.key_spec(), h)) =~= by_four_tuple(m).insert(k, h));
    assert(by_four_tuple(m.remove(k.key_spec())) =~= by_four_tuple(m).remove(k));
}

proof fn lemma_by_remote(m: Map<RouteKey, usize>, a: SocketAddr, h: usize)
    ensures
        by_remote(m.insert((a.key_spec(), None), h)) == by_remote(m).insert(a, h),
        by_remote(m.remove((a.key_spec(), None))) == by_remote(m).remove(a),
{
    assert(by_remote(m.insert((a.key_spec(), None), h)) =~= by_remote(m).insert(a, h));
    assert(by_remote(m.remove((a.key_spec(), None))) =~= by_remote(m).remove(a));
}

/// Two pairs of a remote and a local address have the same key only if they are the same pair.
pub proof fn law_four_tuple_keys_are_unique(x: FourTupleKey, y: FourTupleKey)
    ensures
        x.key_spec() == y.key_spec() <==> x == y,
{
    if x.key_spec() == y.key_spec() {
        assert(x.remote == y.remote);
        assert(x.local_ip == y.local_ip);
    }
}

/// A list that names every open connection once has one place for each of them, and no other
/// places.
pub proof fn law_listed_connections_are_the_open_ones(
    handles: Seq<ConnectionHandle>,
    open: Set<usize>,
    h: usize,
    i: int,
    j: int,
)
    requires
        lists_each_once(handles, open),
        0 <= i < handles.len(),
        0 <= j < handles.len(),
    ensures
        open.contains(handles[i].0),
        handles[i].0 == handles[j].0 ==> i == j,
        open.contains(h) ==> handles.contains(ConnectionHandle(h)),
{
    if open.contains(h) {
        let k = choose|k: int| 0 <= k < handles.len() && (#[trigger] handles[k]).0 == h;
        assert(handles[k] == ConnectionHandle(h));
    }
    if handles[i].0 == handles[j].0 {
        assert(handles[i] == handles[j]);
    }
}

} // verus!
