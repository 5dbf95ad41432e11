//! What holds of an endpoint and of the routes to its connections, whatever happens to them.
use crate::addr::{IpAddr, SocketAddr, SocketAddrV4, SocketAddrV6};
use crate::connections::{
    CloseReason, ConnectionHandle, ConnectionSetView, FourTupleKey, NewConnection, Side,
};
use crate::endpoint::{AcceptPoll, ConnectError, Endpoint, EndpointEvent};
use vstd::prelude::*;

verus! {

impl<S> ConnectionSetView<S> {
    /// Whether every route leads to an open connection that has recorded it: a connection ID to
    /// one that has it among its own, addresses to one that uses them.
    pub open spec fn sound(self) -> bool {
        &&& forall|c: Seq<u8>| #[trigger] self.cids.contains_key(c) ==> self.owns_cid(self.cids[c], c)
        &&& forall|k: FourTupleKey| #[trigger]
            self.incoming_remotes.contains_key(k) ==> {
                let h = self.incoming_remotes[k];
                &&& self.connections.contains_key(h)
                &&& self.connections[h].side is Server
                &&& self.connections[h].remote == k.remote
                &&& self.connections[h].local_ip == k.local_ip
            }
        &&& forall|a: SocketAddr| #[trigger]
            self.outgoing_remotes.contains_key(a) ==> {
                let h = self.outgoing_remotes[a];
                &&& self.connections.contains_key(h)
                &&& self.connections[h].side is Client
                &&& self.connections[h].remote == a
            }
    }

    /// Whether the tables agree with each other: every route leads to an open connection that
    /// has recorded it, every recorded connection ID is a route, and no connection ID is
    /// recorded twice.
    pub open spec fn consistent(self) -> bool {
        &&& self.sound()
        &&& forall|h: usize, s: u64|
            self.connections.contains_key(h)
                && #[trigger] self.connections[h].local_cids.contains_key(s) ==> {
                let c = self.connections[h].local_cids[s];
                c.len() > 0 && self.cids.contains_key(c) && self.cids[c] == h
            }
        &&& forall|h: usize, s: u64, t: u64|
            self.connections.contains_key(h)
                && #[trigger] self.connections[h].local_cids.contains_key(s)
                && #[trigger] self.connections[h].local_cids.contains_key(t)
                && self.connections[h].local_cids[s] == self.connections[h].local_cids[t] ==> s == t
    }

    /// Whether the connection `h` is open and has recorded the connection ID `c`.
    pub open spec fn owns_cid(self, h: usize, c: Seq<u8>) -> bool {
        &&& self.connections.contains_key(h)
        &&& exists|s: u64|
            #[trigger] self.connections[h].local_cids.contains_key(s)
                && self.connections[h].local_cids[s] == c
    }
}

/// A new set is consistent.
pub proof fn law_new_is_consistent<S>(local_cid_len: nat)
    ensures
        ConnectionSetView::<S>::new(local_cid_len).consistent(),
{
}

/// Adding a connection under a handle not in use keeps every route leading to an open connection
/// that has recorded it, even if the connection ID or the addresses were those of another, from
/// which the new connection takes them over. No connection is lost, and what is recorded of the
/// others stays the same.
pub proof fn law_insert_keeps_sound<S>(v: ConnectionSetView<S>, conn: NewConnection, sender: S)
    requires
        v.sound(),
        !v.connections.contains_key(conn.handle.0),
    ensures
        v.inserted(conn, sender).sound(),
        v.inserted(conn, sender).connections.dom() == v.connections.dom().insert(conn.handle.0),
        forall|h: usize| #[trigger]
            v.connections.contains_key(h) ==> v.inserted(conn, sender).connections[h]
                == v.connections[h],
{
    let w = v.inserted(conn, sender);
    let h0 = conn.handle.0;
    assert forall|c: Seq<u8>| #[trigger] w.cids.contains_key(c) implies w.owns_cid(w.cids[c], c) by {
        if c == conn.handshake_cid@ && c.len() > 0 {
            assert(w.connections[h0].local_cids.contains_key(0));
        } else {
            assert(v.cids.contains_key(c));
            lemma_keeps_cid(v, w, v.cids[c], c);
        }
    }
    assert forall|k: FourTupleKey| #[trigger] w.incoming_remotes.contains_key(k) implies ({
        let h = w.incoming_remotes[k];
        &&& w.connections.contains_key(h)
        &&& w.connections[h].side is Server
        &&& w.connections[h].remote == k.remote
        &&& w.connections[h].local_ip == k.local_ip
    }) by {
        if w.incoming_remotes[k] != h0 {
            assert(v.incoming_remotes.contains_key(k));
        }
    }
    assert forall|a: SocketAddr| #[trigger] w.outgoing_remotes.contains_key(a) implies ({
        let h = w.outgoing_remotes[a];
        &&& w.connections.contains_key(h)
        &&& w.connections[h].side is Client
        &&& w.connections[h].remote == a
    }) by {
        if w.outgoing_remotes[a] != h0 {
            assert(v.outgoing_remotes.contains_key(a));
        }
    }
}

/// A connection whose record is the same in both sets owns the same connection IDs.
proof fn lemma_keeps_cid<S>(v: ConnectionSetView<S>, w: ConnectionSetView<S>, h: usize, c: Seq<u8>)
    requires
        v.owns_cid(h, c),
        w.connections.contains_key(h),
        w.connections[h] == v.connections[h],
    ensures
        w.owns_cid(h, c),
{
    let s = choose|s: u64|
        #[trigger] v.connections[h].local_cids.contains_key(s)
            && v.connections[h].local_cids[s] == c;
    assert(w.connections[h].local_cids.contains_key(s));
}

/// Taking a connection ID out of use keeps every route leading to an open connection that has
/// recorded it.
pub proof fn law_retire_keeps_sound<S>(v: ConnectionSetView<S>, handle: usize, sequence: u64)
    requires
        v.sound(),
    ensures
        v.retired(handle, sequence).sound(),
        v.retired(handle, sequence).connections.dom() == v.connections.dom(),
{
    let w = v.retired(handle, sequence);
    if v.connections.contains_key(handle) && v.connections[handle].local_cids.contains_key(
        sequence,
    ) {
        assert forall|c: Seq<u8>| #[trigger] w.cids.contains_key(c) implies w.owns_cid(
            w.cids[c],
            c,
        ) by {
            assert(v.cids.contains_key(c));
            let h = v.cids[c];
            let s = choose|s: u64|
                #[trigger] v.connections[h].local_cids.contains_key(s)
                    && v.connections[h].local_cids[s] == c;
            assert(w.connections[h].local_cids.contains_key(s));
        }
        assert forall|k: FourTupleKey| #[trigger] w.incoming_remotes.contains_key(k) implies ({
            let h = w.incoming_remotes[k];
            &&& w.connections.contains_key(h)
            &&& w.connections[h].side is Server
            &&& w.connections[h].remote == k.remote
            &&& w.connections[h].local_ip == k.local_ip
        }) by {
            assert(v.incoming_remotes.contains_key(k));
        }
        assert forall|a: SocketAddr| #[trigger] w.outgoing_remotes.contains_key(a) implies ({
            let h = w.outgoing_remotes[a];
            &&& w.connections.contains_key(h)
            &&& w.connections[h].side is Client
            &&& w.connections[h].remote == a
        }) by {
            assert(v.outgoing_remotes.contains_key(a));
        }
        assert(w.connections.dom() =~= v.connections.dom());
    }
}

/// Forgetting a connection keeps every route leading to an open connection that has recorded it.
/// What is recorded of the others stays the same.
pub proof fn law_remove_keeps_sound<S>(v: ConnectionSetView<S>, handle: usize)
    requires
        v.sound(),
    ensures
        v.removed(handle).sound(),
        v.removed(handle).connections == v.connections.remove(handle),
{
    let w = v.removed(handle);
    if v.connections.contains_key(handle) {
        let routes = v.connections[handle];
        assert forall|c: Seq<u8>| #[trigger] w.cids.contains_key(c) implies w.owns_cid(
            w.cids[c],
            c,
        ) by {
            assert(v.cids.contains_key(c));
            let h = v.cids[c];
            assert(v.owns_cid(h, c));
            if h == handle {
                assert(routes.local_cids.values().contains(c));
            }
            lemma_keeps_cid(v, w, h, c);
        }
        assert forall|k: FourTupleKey| #[trigger] w.incoming_remotes.contains_key(k) implies ({
            let h = w.incoming_remotes[k];
            &&& w.connections.contains_key(h)
            &&& w.connections[h].side is Server
            &&& w.connections[h].remote == k.remote
            &&& w.connections[h].local_ip == k.local_ip
        }) by {
            assert(v.incoming_remotes.contains_key(k));
        }
        assert forall|a: SocketAddr| #[trigger] w.outgoing_remotes.contains_key(a) implies ({
            let h = w.outgoing_remotes[a];
            &&& w.connections.contains_key(h)
            &&& w.connections[h].side is Client
            &&& w.connections[h].remote == a
        }) by {
            assert(v.outgoing_remotes.contains_key(a));
        }
    } else {
        assert(v.connections.remove(handle) =~= v.connections);
    }
}

/// Closing the endpoint keeps the routes as they are, and so sound or consistent if they are.
pub proof fn law_closing_keeps_routes<S>(v: ConnectionSetView<S>, code: u64, reason: Seq<u8>)
    ensures
        v.sound() ==> v.closed(code, reason).sound(),
        v.consistent() ==> v.closed(code, reason).consistent(),
{
    let w = v.closed(code, reason);
    if v.sound() {
        assert forall|c: Seq<u8>| #[trigger] w.cids.contains_key(c) implies w.owns_cid(
            w.cids[c],
            c,
        ) by {
            assert(v.cids.contains_key(c));
            lemma_keeps_cid(v, w, v.cids[c], c);
        }
    }
}

/// Adding a connection under a handle and a connection ID not in use keeps the set consistent.
pub proof fn law_insert_keeps_consistent<S>(v: ConnectionSetView<S>, conn: NewConnection, sender: S)
    requires
        v.consistent(),
        !v.connections.contains_key(conn.handle.0),
        !v.cids.contains_key(conn.handshake_cid@),
    ensures
        v.inserted(conn, sender).consistent(),
{
    let w = v.inserted(conn, sender);
    let h0 = conn.handle.0;
    law_insert_keeps_sound(v, conn, sender);
    assert forall|h: usize, s: u64|
        w.connections.contains_key(h)
            && #[trigger] w.connections[h].local_cids.contains_key(s) implies ({
        let c = w.connections[h].local_cids[s];
        c.len() > 0 && w.cids.contains_key(c) && w.cids[c] == h
    }) by {
        if h != h0 {
            assert(v.connections[h].local_cids.contains_key(s));
        }
    }
    assert forall|h: usize, s: u64, t: u64|
        w.connections.contains_key(h) && #[trigger] w.connections[h].local_cids.contains_key(s)
            && #[trigger] w.connections[h].local_cids.contains_key(t)
            && w.connections[h].local_cids[s] == w.connections[h].local_cids[t] implies s == t by {
        if h != h0 {
            assert(v.connections[h].local_cids.contains_key(s));
            assert(v.connections[h].local_cids.contains_key(t));
        }
    }
}

/// Taking a connection ID out of use keeps the set consistent.
pub proof fn law_retire_keeps_consistent<S>(v: ConnectionSetView<S>, handle: usize, sequence: u64)
    requires
        v.consistent(),
    ensures
        v.retired(handle, sequence).consistent(),
{
    let w = v.retired(handle, sequence);
    law_retire_keeps_sound(v, handle, sequence);
    if v.connections.contains_key(handle) && v.connections[handle].local_cids.contains_key(
        sequence,
    ) {
        assert forall|h: usize, s: u64|
            w.connections.contains_key(h)
                && #[trigger] w.connections[h].local_cids.contains_key(s) implies ({
            let c = w.connections[h].local_cids[s];
            c.len() > 0 && w.cids.contains_key(c) && w.cids[c] == h
        }) by {
            assert(v.connections[h].local_cids.contains_key(s));
            assert(v.connections[handle].local_cids.contains_key(sequence));
        }
        assert forall|h: usize, s: u64, t: u64|
            w.connections.contains_key(h) && #[trigger] w.connections[h].local_cids.contains_key(s)
                && #[trigger] w.connections[h].local_cids.contains_key(t)
                && w.connections[h].local_cids[s] == w.connections[h].local_cids[t] implies s
            == t by {
            assert(v.connections[h].local_cids.contains_key(s));
            assert(v.connections[h].local_cids.contains_key(t));
        }
    }
}

/// Forgetting a connection keeps the set consistent.
pub proof fn law_remove_keeps_consistent<S>(v: ConnectionSetView<S>, handle: usize)
    requires
        v.consistent(),
    ensures
        v.removed(handle).consistent(),
{
    let w = v.removed(handle);
    law_remove_keeps_sound(v, handle);
    if v.connections.contains_key(handle) {
        let routes = v.connections[handle];
        assert forall|h: usize, s: u64|
            w.connections.contains_key(h)
                && #[trigger] w.connections[h].local_cids.contains_key(s) implies ({
            let c = w.connections[h].local_cids[s];
            c.len() > 0 && w.cids.contains_key(c) && w.cids[c] == h
        }) by {
            assert(v.connections[h].local_cids.contains_key(s));
            let c = v.connections[h].local_cids[s];
            if routes.local_cids.values().contains(c) {
                let t = choose|t: u64|
                    #[trigger] routes.local_cids.contains_key(t) && routes.local_cids[t] == c;
                assert(v.connections[handle].local_cids.contains_key(t));
            }
        }
        assert forall|h: usize, s: u64, t: u64|
            w.connections.contains_key(h) && #[trigger] w.connections[h].local_cids.contains_key(s)
                && #[trigger] w.connections[h].local_cids.contains_key(t)
                && w.connections[h].local_cids[s] == w.connections[h].local_cids[t] implies s
            == t by {
            assert(v.connections[h].local_cids.contains_key(s));
            assert(v.connections[h].local_cids.contains_key(t));
        }
    }
}

/// Forgetting all connections leaves a consistent set and no datagram routed.
pub proof fn law_clear_keeps_consistent<S>(
    v: ConnectionSetView<S>,
    remote: SocketAddr,
    local_ip: Option<IpAddr>,
    data: Seq<u8>,
)
    ensures
        v.cleared().consistent(),
        v.cleared().fast_route(remote, local_ip, data) is None,
{
}

/// Forgetting a connection undoes adding it, if its handle and connection ID were not in use and
/// no other connection was reached by its addresses.
pub proof fn law_remove_undoes_insert<S>(v: ConnectionSetView<S>, conn: NewConnection, sender: S)
    requires
        !v.connections.contains_key(conn.handle.0),
        !v.cids.contains_key(conn.handshake_cid@),
        conn.side is Server ==> !v.incoming_remotes.contains_key(
            FourTupleKey { remote: conn.remote, local_ip: conn.local_ip },
        ),
        conn.side is Client ==> !v.outgoing_remotes.contains_key(conn.remote),
    ensures
        v.inserted(conn, sender).removed(conn.handle.0) == v,
{
    let w = v.inserted(conn, sender);
    let cid = conn.handshake_cid@;
    let owned = w.connections[conn.handle.0].local_cids;
    if cid.len() > 0 {
        assert(owned.contains_key(0) && owned[0] == cid);
        assert(owned.values() =~= Set::empty().insert(cid));
    } else {
        assert(owned.values() =~= Set::<Seq<u8>>::empty());
    }
    assert(w.removed(conn.handle.0) =~= v);
}

/// If every route leads to an open connection that has recorded it, a datagram that is led to a
/// connection is delivered to it, and every connection that is found is open: no route dangles.
pub proof fn law_routes_lead_to_open_connections<S>(
    v: ConnectionSetView<S>,
    remote: SocketAddr,
    local_ip: Option<IpAddr>,
    data: Seq<u8>,
)
    requires
        v.sound(),
    ensures
        v.delivers_to(remote, local_ip, data) == v.fast_route(remote, local_ip, data),
        v.fast_route(remote, local_ip, data) matches Some(h) ==> v.connections.contains_key(h),
{
    match crate::cid::dst_cid(data, v.local_cid_len) {
        Some(cid) => {
            if cid.len() > 0 && v.cids.contains_key(cid) {
                assert(v.owns_cid(v.cids[cid], cid));
            }
        },
        None => {},
    }
}

/// A datagram addressed to the handshake connection ID of a connection just added is delivered
/// to that connection, from wherever it comes.
pub proof fn law_inserted_connection_is_reached_by_its_cid<S>(
    v: ConnectionSetView<S>,
    conn: NewConnection,
    sender: S,
    remote: SocketAddr,
    local_ip: Option<IpAddr>,
    data: Seq<u8>,
)
    requires
        conn.handshake_cid@.len() > 0,
        crate::cid::dst_cid(data, v.local_cid_len) == Some(conn.handshake_cid@),
    ensures
        v.inserted(conn, sender).delivers_to(remote, local_ip, data) == Some(conn.handle.0),
{
}

/// A datagram without a connection ID that comes from the peer of a connection just added is
/// delivered to that connection: if it was made by the peer, at the local address that it uses;
/// if it was made from here, at every local address at which no connection made by the peer goes
/// before it.
pub proof fn law_inserted_connection_is_reached_by_its_addresses<S>(
    v: ConnectionSetView<S>,
    conn: NewConnection,
    sender: S,
    local_ip: Option<IpAddr>,
    data: Seq<u8>,
)
    requires
        conn.handshake_cid@.len() == 0,
        crate::cid::dst_cid(data, v.local_cid_len) == Some(Seq::<u8>::empty()),
        conn.side is Server ==> local_ip == conn.local_ip,
        conn.side is Client ==> !v.incoming_remotes.contains_key(
            FourTupleKey { remote: conn.remote, local_ip },
        ),
    ensures
        v.inserted(conn, sender).delivers_to(conn.remote, local_ip, data) == Some(conn.handle.0),
{
}

/// A connection that has been forgotten gets no more datagrams.
pub proof fn law_removed_connection_is_not_reached<S>(
    v: ConnectionSetView<S>,
    handle: usize,
    remote: SocketAddr,
    local_ip: Option<IpAddr>,
    data: Seq<u8>,
)
    requires
        v.sound(),
    ensures
        v.removed(handle).fast_route(remote, local_ip, data) != Some(handle),
{
    let w = v.removed(handle);
    law_remove_keeps_sound(v, handle);
    law_routes_lead_to_open_connections(w, remote, local_ip, data);
}

/// A datagram addressed to a connection ID that has been taken out of use leads nowhere.
pub proof fn law_retired_cid_leads_nowhere<S>(
    v: ConnectionSetView<S>,
    handle: usize,
    sequence: u64,
    remote: SocketAddr,
    local_ip: Option<IpAddr>,
    data: Seq<u8>,
)
    requires
        v.connections.contains_key(handle),
        v.connections[handle].local_cids.contains_key(sequence),
        v.connections[handle].local_cids[sequence].len() > 0,
        crate::cid::dst_cid(data, v.local_cid_len) == Some(
            v.connections[handle].local_cids[sequence],
        ),
    ensures
        v.retired(handle, sequence).fast_route(remote, local_ip, data) is None,
{
}

/// Forgetting a connection, or taking one of its connection IDs out of use, does not change
/// where datagrams addressed to the connection ID of another connection go.
pub proof fn law_other_connections_keep_their_cids<S>(
    v: ConnectionSetView<S>,
    handle: usize,
    sequence: u64,
    other: usize,
    remote: SocketAddr,
    local_ip: Option<IpAddr>,
    data: Seq<u8>,
)
    requires
        v.consistent(),
        other != handle,
        crate::cid::dst_cid(data, v.local_cid_len) matches Some(cid) && cid.len() > 0,
        v.fast_route(remote, local_ip, data) == Some(other),
    ensures
        v.removed(handle).delivers_to(remote, local_ip, data) == Some(other),
        v.retired(handle, sequence).delivers_to(remote, local_ip, data) == Some(other),
{
    let cid = crate::cid::dst_cid(data, v.local_cid_len)->0;
    assert(v.owns_cid(other, cid));
    if v.connections.contains_key(handle) {
        let owned = v.connections[handle].local_cids;
        assert(!owned.values().contains(cid)) by {
            if owned.values().contains(cid) {
                let s = choose|s: u64| #[trigger] owned.contains_key(s) && owned[s] == cid;
                assert(v.connections[handle].local_cids.contains_key(s));
            }
        }
        if owned.contains_key(sequence) {
            assert(owned.values().contains(owned[sequence]));
        }
    }
}

/// Forgetting a connection does not change where datagrams without a connection ID go that lead
/// to another connection, unless the one forgotten was last recorded under the very addresses by
/// which they do. Taking a connection ID out of use never does.
pub proof fn law_other_connections_keep_their_addresses<S>(
    v: ConnectionSetView<S>,
    handle: usize,
    sequence: u64,
    other: usize,
    remote: SocketAddr,
    local_ip: Option<IpAddr>,
    data: Seq<u8>,
)
    requires
        v.consistent(),
        other != handle,
        crate::cid::dst_cid(data, v.local_cid_len) == Some(Seq::<u8>::empty()),
        v.fast_route(remote, local_ip, data) == Some(other),
    ensures
        ({
            let gone = v.connections[handle];
            let shared = if v.incoming_remotes.contains_key(FourTupleKey { remote, local_ip }) {
                gone.side is Server && gone.remote == remote && gone.local_ip == local_ip
            } else {
                gone.side is Client && gone.remote == remote
            };
            !(v.connections.contains_key(handle) && shared) ==> v.removed(handle).delivers_to(
                remote,
                local_ip,
                data,
            ) == Some(other)
        }),
        v.retired(handle, sequence).delivers_to(remote, local_ip, data) == Some(other),
{
}

/// On datagrams without a connection ID, a connection made by the peer goes before one made from
/// here.
pub proof fn law_incoming_goes_before_outgoing<S>(
    v: ConnectionSetView<S>,
    remote: SocketAddr,
    local_ip: Option<IpAddr>,
    data: Seq<u8>,
)
    requires
        crate::cid::dst_cid(data, v.local_cid_len) == Some(Seq::<u8>::empty()),
        v.incoming_remotes.contains_key(FourTupleKey { remote, local_ip }),
    ensures
        v.fast_route(remote, local_ip, data) == Some(
            v.incoming_remotes[FourTupleKey { remote, local_ip }],
        ),
{
}

/// Handling an event from a connection keeps every route leading to an open connection that has
/// recorded it, and keeps the set consistent if it is. If the event says that the connection is
/// over, no datagram reaches it any more.
pub proof fn law_events_keep_routes<S, P>(
    v: ConnectionSetView<S>,
    handle: usize,
    event: EndpointEvent<P>,
    remote: SocketAddr,
    local_ip: Option<IpAddr>,
    data: Seq<u8>,
)
    requires
        v.sound(),
    ensures
        crate::endpoint::after_event(v, handle, event).sound(),
        v.consistent() ==> crate::endpoint::after_event(v, handle, event).consistent(),
        event.drained ==> crate::endpoint::after_event(v, handle, event).fast_route(
            remote,
            local_ip,
            data,
        ) != Some(handle),
{
    let retired = match event.retired_local_cid_seq {
        Some(seq) => v.retired(handle, seq),
        None => v,
    };
    match event.retired_local_cid_seq {
        Some(seq) => {
            law_retire_keeps_sound(v, handle, seq);
            if v.consistent() {
                law_retire_keeps_consistent(v, handle, seq);
            }
        },
        None => {},
    }
    law_remove_keeps_sound(retired, handle);
    law_removed_connection_is_not_reached(retired, handle, remote, local_ip, data);
    if v.consistent() {
        law_remove_keeps_consistent(retired, handle);
    }
}

/// Something that changes the set of connections.
pub enum Change<S> {
    /// A connection is added.
    Opened(NewConnection, S),
    /// A connection has something to say.
    Said(usize, EndpointEvent<()>),
    /// The endpoint is closed, for this reason.
    Closed(u64, Seq<u8>),
    /// The driving task is gone.
    Abandoned,
}

impl<S> ConnectionSetView<S> {
    /// Whether a change can happen to the set: a new connection has a handle that is not in use.
    pub open spec fn allows(self, change: Change<S>) -> bool {
        change matches Change::Opened(conn, _) ==> !self.connections.contains_key(conn.handle.0)
    }

    /// Whether a change takes no connection ID over: a new connection has one that is not in use.
    pub open spec fn takes_nothing_over(self, change: Change<S>) -> bool {
        change matches Change::Opened(conn, _) ==> !self.cids.contains_key(conn.handshake_cid@)
    }

    /// The set after a change.
    pub open spec fn changed(self, change: Change<S>) -> Self {
        match change {
            Change::Opened(conn, sender) => self.inserted(conn, sender),
            Change::Said(handle, event) => crate::endpoint::after_event(self, handle, event),
            Change::Closed(code, reason) => self.closed(code, reason),
            Change::Abandoned => self.cleared(),
        }
    }

    /// The set after a history of changes.
    pub open spec fn after_all(self, history: Seq<Change<S>>) -> Self
        decreases history.len(),
    {
        if history.len() == 0 {
            self
        } else {
            self.after_all(history.drop_last()).changed(history.last())
        }
    }

    /// Whether each change of a history can happen where it does.
    pub open spec fn allows_all(self, history: Seq<Change<S>>) -> bool
        decreases history.len(),
    {
        history.len() > 0 ==> {
            &&& self.allows_all(history.drop_last())
            &&& self.after_all(history.drop_last()).allows(history.last())
        }
    }

    /// Whether no change of a history takes a connection ID over.
    pub open spec fn nothing_taken_over(self, history: Seq<Change<S>>) -> bool
        decreases history.len(),
    {
        history.len() > 0 ==> {
            &&& self.nothing_taken_over(history.drop_last())
            &&& self.after_all(history.drop_last()).takes_nothing_over(history.last())
        }
    }
}

/// Whatever happens to the connections of an endpoint in the course of time, every route leads to
/// an open connection that has recorded it, so every datagram that is led to a connection is
/// delivered to it. The tables agree with each other if no connection ID was ever taken over. The
/// endpoint counts as closed exactly if it has been closed at some time.
pub proof fn law_every_history_keeps_routes<S>(
    local_cid_len: nat,
    history: Seq<Change<S>>,
    remote: SocketAddr,
    local_ip: Option<IpAddr>,
    data: Seq<u8>,
)
    requires
        ConnectionSetView::<S>::new(local_cid_len).allows_all(history),
    ensures
        ({
            let start = ConnectionSetView::<S>::new(local_cid_len);
            let v = start.after_all(history);
            &&& v.sound()
            &&& v.delivers_to(remote, local_ip, data) == v.fast_route(remote, local_ip, data)
            &&& start.nothing_taken_over(history) ==> v.consistent()
            &&& v.close is Some <==> exists|i: int|
                0 <= i < history.len() && #[trigger] history[i] is Closed
            &&& v.local_cid_len == local_cid_len
        }),
    decreases history.len(),
{
    let start = ConnectionSetView::<S>::new(local_cid_len);
    let v = start.after_all(history);
    if history.len() > 0 {
        let before = history.drop_last();
        let u = start.after_all(before);
        law_every_history_keeps_routes(local_cid_len, before, remote, local_ip, data);
        match history.last() {
            Change::Opened(conn, sender) => {
                law_insert_keeps_sound(u, conn, sender);
                if start.nothing_taken_over(history) {
                    law_insert_keeps_consistent(u, conn, sender);
                }
            },
            Change::Said(handle, event) => {
                law_events_keep_routes(u, handle, event, remote, local_ip, data);
            },
            Change::Closed(code, reason) => law_closing_keeps_routes(u, code, reason),
            Change::Abandoned => {},
        }
        assert(forall|i: int| 0 <= i < before.len() ==> history[i] == #[trigger] before[i]);
        assert(history.last() == history[history.len() - 1]);
        if exists|i: int| 0 <= i < before.len() && #[trigger] before[i] is Closed {
            let i = choose|i: int| 0 <= i < before.len() && #[trigger] before[i] is Closed;
            assert(history[i] is Closed);
        }
        if exists|i: int| 0 <= i < history.len() && #[trigger] history[i] is Closed {
            let i = choose|i: int| 0 <= i < history.len() && #[trigger] history[i] is Closed;
            if i < before.len() {
                assert(before[i] is Closed);
            }
        }
    }
    law_routes_lead_to_open_connections(v, remote, local_ip, data);
}

/// Without another close, an endpoint stays closed for the reason that it was closed for,
/// whatever happens to its connections.
pub proof fn law_reason_of_close_stays<S>(
    v: ConnectionSetView<S>,
    code: u64,
    reason: Seq<u8>,
    history: Seq<Change<S>>,
)
    requires
        forall|i: int| 0 <= i < history.len() ==> !(#[trigger] history[i] is Closed),
    ensures
        v.closed(code, reason).after_all(history).close == Some((code, reason)),
    decreases history.len(),
{
    if history.len() > 0 {
        let before = history.drop_last();
        assert forall|i: int| 0 <= i < before.len() implies !(#[trigger] before[i] is Closed) by {
            assert(before[i] == history[i]);
        }
        law_reason_of_close_stays(v, code, reason, before);
        assert(history.last() == history[history.len() - 1]);
    }
}

/// What closing an endpoint does. `told` is what is said to whom on the close; `first` is what a
/// connection is told first that is added later, after whatever has happened but another close.
///
/// Every connection that is open is told once, and nobody else is; both it and the later
/// connection are told the code and the bytes given. No connection and no route is lost by the
/// close itself. Another close replaces the code and the bytes.
pub proof fn law_close_reaches_everybody<S>(
    v: ConnectionSetView<S>,
    code: u64,
    reason: Seq<u8>,
    told: Seq<(ConnectionHandle, CloseReason)>,
    history: Seq<Change<S>>,
    first: Option<CloseReason>,
    code2: u64,
    reason2: Seq<u8>,
)
    requires
        crate::connections::tells_each_of_close(told, v.connections.dom(), code, reason),
        forall|i: int| 0 <= i < history.len() ==> !(#[trigger] history[i] is Closed),
        v.closed(code, reason).after_all(history).tells_of_close(first),
    ensures
        forall|h: usize| #[trigger]
            v.connections.contains_key(h) ==> exists|i: int|
                0 <= i < told.len() && (#[trigger] told[i]).0.0 == h,
        forall|i: int|
            0 <= i < told.len() ==> v.connections.contains_key((#[trigger] told[i]).0.0)
                && told[i].1@ == (code, reason),
        forall|i: int, j: int|
            0 <= i < told.len() && 0 <= j < told.len() && (#[trigger] told[i]).0 == (
            #[trigger] told[j]).0 ==> i == j,
        first matches Some(c) && c@ == (code, reason),
        v.closed(code, reason).connections == v.connections,
        v.closed(code, reason).cids == v.cids,
        v.closed(code, reason).incoming_remotes == v.incoming_remotes,
        v.closed(code, reason).outgoing_remotes == v.outgoing_remotes,
        v.closed(code, reason).closed(code2, reason2) == v.closed(code2, reason2),
{
    law_reason_of_close_stays(v, code, reason, history);
    let handles = crate::connections::addressees(told);
    assert forall|h: usize| #[trigger] v.connections.contains_key(h) implies exists|i: int|
        0 <= i < told.len() && (#[trigger] told[i]).0.0 == h by {
        let i = choose|i: int| 0 <= i < handles.len() && (#[trigger] handles[i]).0 == h;
        assert(told[i].0.0 == h);
    }
    assert forall|i: int| 0 <= i < told.len() implies v.connections.contains_key(
        (#[trigger] told[i]).0.0,
    ) && told[i].1@ == (code, reason) by {
        assert(handles[i] == told[i].0);
    }
    assert forall|i: int, j: int|
        0 <= i < told.len() && 0 <= j < told.len() && (#[trigger] told[i]).0 == (
        #[trigger] told[j]).0 implies i == j by {
        assert(handles[i] == handles[j]);
    }
}

/// Once an endpoint has been closed, nobody waits for attempts to connect any more: those already
/// made are handed out, oldest first, and then comes the end.
pub proof fn law_closed_endpoint_keeps_nobody_waiting<I>(driver_lost: bool, queue: Seq<I>)
    ensures
        !(crate::endpoint::accept_poll(driver_lost, true, queue) is Wait),
        crate::endpoint::accept_poll(driver_lost, true, queue) is Ended <==> driver_lost
            || queue.len() == 0,
        !driver_lost && queue.len() > 0 ==> crate::endpoint::accept_poll(driver_lost, true, queue)
            == AcceptPoll::Ready(queue[0]),
{
}

/// An endpoint that has been closed, or whose driving task is gone, connects to nobody.
pub proof fn law_stopping_endpoint_does_not_connect<C, W, K, S, I>(
    e: Endpoint<C, W, K, S, I>,
    addr: SocketAddr,
)
    requires
        e.proto.driver_lost || e.io.recv_state.connections@.close is Some,
    ensures
        crate::endpoint::connect_target(
            e.proto.driver_lost,
            e.io.recv_state.connections@.close is Some,
            e.proto.ipv6,
            addr,
        ) == Err::<SocketAddr, ConnectError>(ConnectError::EndpointStopping),
{
}

/// An endpoint connects only to addresses of the family of its socket. An IPv6 endpoint that is
/// not stopping can connect to any address, an IPv4 endpoint to any IPv4 address, and then to
/// just that.
pub proof fn law_connects_within_the_family_of_the_socket(ipv6: bool, addr: SocketAddr)
    ensures
        crate::endpoint::connect_target(false, false, ipv6, addr) matches Ok(target) ==> (
        target is V6 <==> ipv6),
        crate::endpoint::connect_target(false, false, ipv6, addr) is Ok <==> (ipv6 || addr is V4),
        !ipv6 && addr is V4 ==> crate::endpoint::connect_target(false, false, ipv6, addr) == Ok::<
            SocketAddr,
            ConnectError,
        >(addr),
{
}

/// The driving task ends only if nobody else holds the endpoint and it is idle, and then at
/// once. When the last other handle is dropped the task is woken, so it gets to end.
pub proof fn law_driver_ends_when_on_its_own(ref_count: usize, idle: bool, keep_going: bool)
    ensures
        crate::endpoint::driver_step(ref_count, idle, keep_going) is Finished <==> ref_count == 0
            && idle,
        crate::endpoint::wakes_driver(1),
        ref_count > 0 ==> !crate::endpoint::wakes_driver((ref_count + 1) as nat),
{
}

/// A new set has no connections and no routes, and its endpoint has not been closed.
pub proof fn law_new_set_is_blank<S>(
    local_cid_len: nat,
    h: usize,
    remote: SocketAddr,
    local_ip: Option<IpAddr>,
    data: Seq<u8>,
)
    ensures
        ({
            let v = ConnectionSetView::<S>::new(local_cid_len);
            &&& !v.connections.contains_key(h)
            &&& v.fast_route(remote, local_ip, data) is None
            &&& v.close is None
            &&& v.local_cid_len == local_cid_len
        }),
{
}

/// What is on record of a connection just added is what was given, and it owns the connection ID
/// that was given, if that has any bytes. Nothing else about the connections changes.
pub proof fn law_insert_records_what_is_given<S>(
    v: ConnectionSetView<S>,
    conn: NewConnection,
    sender: S,
    h: usize,
    sequence: u64,
)
    ensures
        ({
            let w = v.inserted(conn, sender);
            let new = w.connections[conn.handle.0];
            let cid = conn.handshake_cid@;
            &&& w.connections.contains_key(h) <==> h == conn.handle.0 || v.connections.contains_key(
                h,
            )
            &&& h != conn.handle.0 && v.connections.contains_key(h) ==> w.connections[h]
                == v.connections[h]
            &&& new.sender == sender
            &&& new.remote == conn.remote
            &&& new.local_ip == conn.local_ip
            &&& new.side == conn.side
            &&& new.local_cids.contains_key(sequence) <==> sequence == 0 && cid.len() > 0
            &&& cid.len() > 0 ==> new.local_cids[0] == cid
            &&& w.close == v.close
            &&& w.local_cid_len == v.local_cid_len
        }),
{
}

/// Adding a connection changes where exactly those datagrams lead that are its own: those addressed
/// to its connection ID or, if that has no bytes, those that carry none and come from its peer. If
/// the peer made the connection, they must come to its local address; if it was made from here, a
/// connection made by the peer still goes before it.
pub proof fn law_insert_redirects_only_its_own_datagrams<S>(
    v: ConnectionSetView<S>,
    conn: NewConnection,
    sender: S,
    remote: SocketAddr,
    local_ip: Option<IpAddr>,
    data: Seq<u8>,
)
    ensures
        ({
            let own = match crate::cid::dst_cid(data, v.local_cid_len) {
                None => false,
                Some(cid) => cid == conn.handshake_cid@ && (cid.len() == 0 ==> remote == conn.remote
                    && (match conn.side {
                    Side::Server => local_ip == conn.local_ip,
                    Side::Client => !v.incoming_remotes.contains_key(
                        FourTupleKey { remote, local_ip },
                    ),
                })),
            };
            v.inserted(conn, sender).fast_route(remote, local_ip, data) == (if own {
                Some(conn.handle.0)
            } else {
                v.fast_route(remote, local_ip, data)
            })
        }),
{
    let w = v.inserted(conn, sender);
    match crate::cid::dst_cid(data, v.local_cid_len) {
        None => {},
        Some(cid) => {
            if cid.len() == 0 {
                assert(cid =~= Seq::<u8>::empty());
                if conn.handshake_cid@.len() == 0 {
                    assert(conn.handshake_cid@ =~= cid);
                }
            }
        },
    }
}

/// A packet with a short header, for a connection whose ID has the agreed length, reaches that
/// connection when it has been added; so does one with a long header, whatever the length of the
/// ID. Neither the rest of the packet nor where it comes from matters.
pub proof fn law_packet_reaches_the_connection_it_is_for<S>(
    v: ConnectionSetView<S>,
    conn: NewConnection,
    sender: S,
    remote: SocketAddr,
    local_ip: Option<IpAddr>,
    first: u8,
    version: Seq<u8>,
    payload: Seq<u8>,
)
    requires
        0 < conn.handshake_cid@.len() <= 255,
        version.len() == 4,
    ensures
        first < 0x80 && conn.handshake_cid@.len() == v.local_cid_len ==> v.inserted(
            conn,
            sender,
        ).delivers_to(remote, local_ip, seq![first] + conn.handshake_cid@ + payload) == Some(
            conn.handle.0,
        ),
        first >= 0x80 ==> v.inserted(conn, sender).delivers_to(
            remote,
            local_ip,
            seq![first] + version + seq![conn.handshake_cid@.len() as u8] + conn.handshake_cid@
                + payload,
        ) == Some(conn.handle.0),
{
    let cid = conn.handshake_cid@;
    if first < 0x80 {
        crate::cid::law_short_header_addresses_its_cid(first, cid, payload);
    } else {
        crate::cid::law_long_header_addresses_its_cid(
            first,
            version,
            cid,
            payload,
            v.local_cid_len,
        );
    }
}

/// Where a datagram leads. One that is not addressed leads nowhere. One with a connection ID leads
/// to the connection that has the ID, and by that alone. One without leads to the connection that
/// its peer made from its address to the local one, or else to the one made to its address from
/// here.
pub proof fn law_datagrams_are_led_by_id_or_address<S>(
    v: ConnectionSetView<S>,
    remote: SocketAddr,
    local_ip: Option<IpAddr>,
    data: Seq<u8>,
    h: usize,
)
    ensures
        ({
            let tuple = FourTupleKey { remote, local_ip };
            let led = v.fast_route(remote, local_ip, data) == Some(h);
            match crate::cid::dst_cid(data, v.local_cid_len) {
                None => !led,
                Some(cid) => {
                    &&& cid.len() > 0 ==> (led <==> v.cids.contains_pair(cid, h))
                    &&& cid.len() == 0 && v.incoming_remotes.contains_key(tuple) ==> (led
                        <==> v.incoming_remotes[tuple] == h)
                    &&& cid.len() == 0 && !v.incoming_remotes.contains_key(tuple) ==> (led
                        <==> v.outgoing_remotes.contains_pair(remote, h))
                },
            }
        }),
        v.delivers_to(remote, local_ip, data) == Some(h) <==> v.fast_route(remote, local_ip, data)
            == Some(h) && v.connections.contains_key(h),
{
}

/// Forgetting a connection takes it off the record, and takes out of use just the connection IDs
/// that it owned and the addresses by which connections of its side are reached. Everything else
/// stays.
pub proof fn law_remove_takes_only_its_own<S>(
    v: ConnectionSetView<S>,
    handle: usize,
    h: usize,
    cid: Seq<u8>,
    tuple: FourTupleKey,
    addr: SocketAddr,
)
    ensures
        ({
            let w = v.removed(handle);
            let gone = v.connections[handle];
            let known = v.connections.contains_key(handle);
            let same_side_in = known && gone.side is Server && gone.remote == tuple.remote
                && gone.local_ip == tuple.local_ip;
            let same_side_out = known && gone.side is Client && gone.remote == addr;
            &&& w.connections.contains_key(h) <==> h != handle && v.connections.contains_key(h)
            &&& w.connections.contains_key(h) ==> w.connections[h] == v.connections[h]
            &&& w.cids.contains_key(cid) <==> v.cids.contains_key(cid) && !v.owns_cid(handle, cid)
            &&& w.cids.contains_key(cid) ==> w.cids[cid] == v.cids[cid]
            &&& w.incoming_remotes.contains_key(tuple) <==> v.incoming_remotes.contains_key(tuple)
                && !same_side_in
            &&& w.incoming_remotes.contains_key(tuple) ==> w.incoming_remotes[tuple]
                == v.incoming_remotes[tuple]
            &&& w.outgoing_remotes.contains_key(addr) <==> v.outgoing_remotes.contains_key(addr)
                && !same_side_out
            &&& w.outgoing_remotes.contains_key(addr) ==> w.outgoing_remotes[addr]
                == v.outgoing_remotes[addr]
            &&& w.close == v.close
            &&& w.local_cid_len == v.local_cid_len
        }),
{
    if v.connections.contains_key(handle) {
        let owned = v.connections[handle].local_cids;
        if owned.values().contains(cid) {
            let s = choose|s: u64| #[trigger] owned.contains_key(s) && owned[s] == cid;
            assert(v.connections[handle].local_cids.contains_key(s));
            assert(v.owns_cid(handle, cid));
        }
        if v.owns_cid(handle, cid) {
            let s = choose|s: u64|
                #[trigger] v.connections[handle].local_cids.contains_key(s)
                    && v.connections[handle].local_cids[s] == cid;
            assert(owned.values().contains(cid));
        }
    }
}

/// Taking a connection ID out of use takes just that one: its connection stays on record with its
/// channel, its addresses and its other IDs, and every other connection, ID and address stays as it
/// is. If the connection has no ID of that number, nothing happens.
pub proof fn law_retire_takes_only_that_id<S>(
    v: ConnectionSetView<S>,
    handle: usize,
    sequence: u64,
    h: usize,
    other: u64,
    cid: Seq<u8>,
)
    ensures
        ({
            let w = v.retired(handle, sequence);
            let known = v.connections.contains_key(handle)
                && v.connections[handle].local_cids.contains_key(sequence);
            let gone = v.connections[handle].local_cids[sequence];
            &&& !known ==> w == v
            &&& w.connections.contains_key(h) <==> v.connections.contains_key(h)
            &&& h != handle && v.connections.contains_key(h) ==> w.connections[h]
                == v.connections[h]
            &&& known ==> {
                let (new, before) = (w.connections[handle], v.connections[handle]);
                &&& new.sender == before.sender
                &&& new.remote == before.remote
                &&& new.local_ip == before.local_ip
                &&& new.side == before.side
                &&& new.local_cids.contains_key(other) <==> other != sequence
                    && before.local_cids.contains_key(other)
                &&& new.local_cids.contains_key(other) ==> new.local_cids[other]
                    == before.local_cids[other]
                &&& w.cids.contains_key(cid) <==> cid != gone && v.cids.contains_key(cid)
            }
            &&& w.cids.contains_key(cid) ==> w.cids[cid] == v.cids[cid]
            &&& w.incoming_remotes == v.incoming_remotes
            &&& w.outgoing_remotes == v.outgoing_remotes
            &&& w.close == v.close
            &&& w.local_cid_len == v.local_cid_len
        }),
{
}

/// Forgetting all connections leaves none on record and none reached, but whether and why the
/// endpoint has been closed, and the length of its IDs, stay.
pub proof fn law_clear_forgets_only_connections<S>(
    v: ConnectionSetView<S>,
    h: usize,
    cid: Seq<u8>,
    tuple: FourTupleKey,
    addr: SocketAddr,
)
    ensures
        !v.cleared().connections.contains_key(h),
        !v.cleared().cids.contains_key(cid),
        !v.cleared().incoming_remotes.contains_key(tuple),
        !v.cleared().outgoing_remotes.contains_key(addr),
        v.cleared().close == v.close,
        v.cleared().local_cid_len == v.local_cid_len,
{
}

/// Closing an endpoint records the code and the bytes, and changes nothing else. A connection that
/// is added is told of a close exactly if there was one, and then the code and the bytes on record.
pub proof fn law_close_is_recorded<S>(
    v: ConnectionSetView<S>,
    code: u64,
    reason: Seq<u8>,
    told: Option<CloseReason>,
)
    ensures
        v.closed(code, reason).close == Some((code, reason)),
        v.closed(code, reason).local_cid_len == v.local_cid_len,
        v.closed(code, reason).connections == v.connections,
        v.closed(code, reason).cids == v.cids,
        v.closed(code, reason).incoming_remotes == v.incoming_remotes,
        v.closed(code, reason).outgoing_remotes == v.outgoing_remotes,
        v.tells_of_close(told) ==> (told is Some <==> v.close is Some),
        v.tells_of_close(told) && told is Some ==> v.close == Some((told->0)@),
{
}

/// What an event of a connection does to the set: if it says that the connection is over, the same
/// as forgetting the connection, whatever else it says; if it names an ID that the peer has retired,
/// the same as taking that out of use; and otherwise nothing.
pub proof fn law_event_does_what_it_says<S, P>(
    v: ConnectionSetView<S>,
    handle: usize,
    event: EndpointEvent<P>,
    sequence: u64,
)
    ensures
        event.drained ==> crate::endpoint::after_event(v, handle, event) == v.removed(handle),
        !event.drained && event.retired_local_cid_seq == Some(sequence)
            ==> crate::endpoint::after_event(v, handle, event) == v.retired(handle, sequence),
        !event.drained && event.retired_local_cid_seq is None ==> crate::endpoint::after_event(
            v,
            handle,
            event,
        ) == v,
{
    if event.drained && event.retired_local_cid_seq is Some {
        let seq = event.retired_local_cid_seq->0;
        let u = v.retired(handle, seq);
        if v.connections.contains_key(handle) && v.connections[handle].local_cids.contains_key(
            seq,
        ) {
            let all = v.connections[handle].local_cids;
            let rest = u.connections[handle].local_cids;
            assert(all.values() =~= rest.values().insert(all[seq])) by {
                assert forall|c: Seq<u8>| all.values().contains(c) implies rest.values().insert(
                    all[seq],
                ).contains(c) by {
                    let s = choose|s: u64| #[trigger] all.contains_key(s) && all[s] == c;
                    if s != seq {
                        assert(rest.contains_key(s) && rest[s] == c);
                    }
                }
                assert forall|c: Seq<u8>|
                    rest.values().insert(all[seq]).contains(c) implies all.values().contains(c) by {
                    if rest.values().contains(c) {
                        let s = choose|s: u64| #[trigger] rest.contains_key(s) && rest[s] == c;
                        assert(all.contains_key(s) && all[s] == c);
                    } else {
                        assert(all.contains_key(seq) && all[seq] == c);
                    }
                }
            }
            assert(u.removed(handle) =~= v.removed(handle));
        }
    }
}

/// What an endpoint that is not stopping connects to. Over an IPv6 socket, to just the IPv6 address
/// that is given, and for an IPv4 address to that one behind `::ffff`, on the same port. Over an
/// IPv4 socket, to just the IPv4 address that is given; an IPv6 address is refused, and named.
pub proof fn law_connects_to_the_address_given(six: SocketAddrV6, four: SocketAddrV4)
    ensures
        crate::endpoint::connect_target(false, false, true, SocketAddr::V6(six)) == Ok::<
            SocketAddr,
            ConnectError,
        >(SocketAddr::V6(six)),
        crate::endpoint::connect_target(false, false, true, SocketAddr::V4(four)) matches Ok(
            SocketAddr::V6(a),
        ) && a.ip == 0xffff_0000_0000 + four.ip && a.port == four.port && a.flowinfo == 0
            && a.scope_id == 0,
        crate::endpoint::connect_target(false, false, false, SocketAddr::V4(four)) == Ok::<
            SocketAddr,
            ConnectError,
        >(SocketAddr::V4(four)),
        crate::endpoint::connect_target(false, false, false, SocketAddr::V6(six)) == Err::<
            SocketAddr,
            ConnectError,
        >(ConnectError::InvalidRemoteAddress(SocketAddr::V6(six))),
{
}

/// An endpoint is stopping exactly if its driving task is gone or it has been closed: only then, and
/// then always, is that the answer to somebody who wants to connect, whatever the address and the
/// socket.
pub proof fn law_only_a_stopping_endpoint_says_so(
    driver_lost: bool,
    closed: bool,
    ipv6: bool,
    addr: SocketAddr,
)
    ensures
        crate::endpoint::connect_target(driver_lost, closed, ipv6, addr) == Err::<
            SocketAddr,
            ConnectError,
        >(ConnectError::EndpointStopping) <==> driver_lost || closed,
{
}

/// Attempts to connect are handed out oldest first as long as there are any and the driving task is
/// there, whether the endpoint has been closed or not. Somebody waits exactly if there are none but
/// there can be more, and it is over exactly if none are left to come or nobody brings them.
pub proof fn law_attempts_are_handed_out_oldest_first<I>(
    driver_lost: bool,
    closed: bool,
    queue: Seq<I>,
)
    ensures
        queue.len() > 0 ==> crate::endpoint::accept_poll(false, closed, queue)
            == AcceptPoll::Ready(queue[0]),
        crate::endpoint::accept_poll(driver_lost, closed, queue) is Wait <==> !driver_lost
            && !closed && queue.len() == 0,
        crate::endpoint::accept_poll(driver_lost, closed, queue) is Ended <==> driver_lost || (
        closed && queue.len() == 0),
{
}

/// After a round of the driving task that is not its last, another follows at once exactly if there
/// is more to do, and the task sleeps exactly if there is not. A round is the last exactly if nobody
/// else holds the endpoint and it is idle.
pub proof fn law_driver_goes_on_while_there_is_more(ref_count: usize, idle: bool, keep_going: bool)
    ensures
        crate::endpoint::driver_step(ref_count, idle, keep_going) is Finished <==> ref_count == 0
            && idle,
        crate::endpoint::driver_step(ref_count, idle, keep_going) is Reschedule <==> keep_going
            && !(ref_count == 0 && idle),
        crate::endpoint::driver_step(ref_count, idle, keep_going) is Sleep <==> !keep_going && !(
        ref_count == 0 && idle),
{
}

/// Dropping a handle wakes the driving task exactly if no other handle is left beside the task's
/// own: if the handle was the last one, or none was counted.
pub proof fn law_driver_is_woken_by_the_last_handle(previous: nat)
    ensures
        crate::endpoint::wakes_driver(previous) <==> previous == 0 || previous == 1,
{
}

/// Where only the connections differ between two states of an endpoint, the sockets, the queue of
/// attempts to connect and the receive buffer are the same.
pub proof fn law_only_connections_differ<C, W, K, S, I>(
    a: Endpoint<C, W, K, S, I>,
    b: Endpoint<C, W, K, S, I>,
)
    requires
        crate::endpoint::only_connections_differ(a, b),
    ensures
        a.io.socket == b.io.socket,
        a.io.prev_socket == b.io.prev_socket,
        a.io.recv_state.incoming == b.io.recv_state.incoming,
        a.io.recv_state.recv_buf == b.io.recv_state.recv_buf,
{
}

} // verus!
