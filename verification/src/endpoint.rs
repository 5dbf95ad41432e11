//! The state of an endpoint, and what it does when something happens to it.
use crate::addr::{ensure_ipv6, SocketAddr};
use crate::buffer;
use crate::connections::{CloseReason, ConnectionHandle, ConnectionSet, NewConnection};
use crate::recv::{respond, PollProgress, RecvState, Response, Transmit};
use crate::transport::VarInt;
use bytes::Bytes;
use vstd::prelude::*;

verus! {

/// Statistics on [`Endpoint`] activity.
#[non_exhaustive]
#[derive(Clone, Copy, Debug, PartialEq, Eq, Structural)]
pub struct EndpointStats {
    /// Cumulative number of QUIC handshakes accepted by this endpoint.
    pub accepted_handshakes: u64,
    /// Cumulative number of QUIC handshakes sent from this endpoint.
    pub outgoing_handshakes: u64,
    /// Cumulative number of QUIC handshakes refused on this endpoint.
    pub refused_handshakes: u64,
    /// Cumulative number of QUIC handshakes ignored on this endpoint.
    pub ignored_handshakes: u64,
}

impl Default for EndpointStats {
    fn default() -> (r: Self)
        ensures
            r.accepted_handshakes == 0,
            r.outgoing_handshakes == 0,
            r.refused_handshakes == 0,
            r.ignored_handshakes == 0,
    {
        EndpointStats {
            accepted_handshakes: 0,
            outgoing_handshakes: 0,
            refused_handshakes: 0,
            ignored_handshakes: 0,
        }
    }
}

/// Why no attempt is made to connect.
#[derive(Clone, Copy, Debug, PartialEq, Eq, Structural)]
pub enum ConnectError {
    /// The endpoint has been closed, or the task that drives it is gone.
    EndpointStopping,
    /// No configuration was given, and there is no default one.
    NoDefaultClientConfig,
    /// The peer's address is of a family that the endpoint's socket does not speak.
    InvalidRemoteAddress(SocketAddr),
}

/// The part of an endpoint's state that the protocol engine's lock guards.
///
/// `C` is the type of client configurations, `W` that of the means to wake the driving task.
pub struct ProtoState<C, W> {
    /// How to wake the driving task, if it is asleep.
    pub driver: Option<W>,
    /// Whether the socket is an IPv6 one.
    pub ipv6: bool,
    /// Whether the driving task is gone.
    pub driver_lost: bool,
    pub stats: EndpointStats,
    pub default_client_config: Option<C>,
}

/// The part of an endpoint's state that the socket's lock guards.
///
/// `K` is the type of sockets.
pub struct IoState<K, S, I> {
    pub socket: K,
    /// During an active migration, the abandoned socket, which receives traffic until the first
    /// packet arrives on the new one.
    pub prev_socket: Option<K>,
    pub recv_state: RecvState<S, I>,
}

/// A QUIC endpoint: a UDP socket that hosts connections, as client and as server.
pub struct Endpoint<C, W, K, S, I> {
    pub proto: ProtoState<C, W>,
    pub io: IoState<K, S, I>,
}

/// What the endpoint has done about a new connection: how it is known, and what it is to be told
/// first, if the endpoint has been closed.
pub struct Admitted {
    pub handle: ConnectionHandle,
    pub close: Option<CloseReason>,
}

/// What is to be done after a change of sockets.
pub struct Rebound<W> {
    /// The connections to give a sender on the new socket.
    pub tell: Vec<ConnectionHandle>,
    /// Wakes the driving task, so that it can wait for the new socket.
    pub wake: Option<W>,
}

/// The protocol engine's account of why an attempt to connect could not be accepted.
pub struct AcceptError<E> {
    pub cause: E,
    /// What to answer the peer, if anything.
    pub response: Option<Transmit>,
}

/// An attempt to connect that could not be accepted.
pub struct NotAccepted<'a, E> {
    pub cause: E,
    /// What to send to the peer, if anything.
    pub response: Option<Response<'a>>,
}

/// What there is for somebody who waits for attempts to connect.
pub enum AcceptPoll<I> {
    /// This one.
    Ready(I),
    /// Nothing, ever again.
    Ended,
    /// Nothing yet.
    Wait,
}

/// What a connection has to say to its endpoint.
pub struct EndpointEvent<P> {
    /// Whether the connection is over and done with.
    pub drained: bool,
    /// The sequence number of the local connection ID that the peer has retired, if it has.
    pub retired_local_cid_seq: Option<u64>,
    /// The protocol engine's answer, if it has one.
    pub reply: Option<P>,
}

/// What is to be done about an event from a connection.
pub struct EventOutcome<P> {
    /// Wake those who wait for the endpoint to be idle.
    pub notify_idle: bool,
    /// Tell the connection.
    pub deliver: Option<(ConnectionHandle, P)>,
}

/// How a round of the driving task ends.
#[derive(Clone, Copy, Debug, PartialEq, Eq, Structural)]
pub enum DriverStep {
    /// The endpoint is not needed any more.
    Finished,
    /// There is more to do, but others get a turn first.
    Reschedule,
    /// There is nothing to do until something happens.
    Sleep,
}

/// The address to connect to in order to reach `addr`, or why none is connected to.
pub open spec fn connect_target(
    driver_lost: bool,
    closed: bool,
    ipv6: bool,
    addr: SocketAddr,
) -> Result<SocketAddr, ConnectError> {
    if driver_lost || closed {
        Err(ConnectError::EndpointStopping)
    } else if addr is V6 && !ipv6 {
        Err(ConnectError::InvalidRemoteAddress(addr))
    } else if ipv6 {
        Ok(SocketAddr::V6(crate::addr::ipv6_form(addr)))
    } else {
        Ok(addr)
    }
}

/// What there is for somebody who waits for attempts to connect, of which `queue` have been made:
/// the oldest of them; or else the end, if the endpoint has been closed. Without a driving task
/// there is only the end.
pub open spec fn accept_poll<I>(driver_lost: bool, closed: bool, queue: Seq<I>) -> AcceptPoll<I> {
    if !driver_lost && queue.len() > 0 {
        AcceptPoll::Ready(queue[0])
    } else if driver_lost || closed {
        AcceptPoll::Ended
    } else {
        AcceptPoll::Wait
    }
}

impl<C, W, K, S, I> Endpoint<C, W, K, S, I> {
    /// A new endpoint on a socket that is bound to `local_addr`.
    pub fn new_with_abstract_socket(
        socket: K,
        local_addr: SocketAddr,
        local_cid_len: usize,
        max_udp_payload_size: u64,
        max_receive_segments: usize,
        batch_size: usize,
    ) -> (r: Self)
        requires
            crate::recv::recv_buf_len(max_udp_payload_size, max_receive_segments, 1) <= usize::MAX,
            crate::recv::recv_buf_len(max_udp_payload_size, max_receive_segments, batch_size)
                <= usize::MAX,
        ensures
            r.proto.driver is None,
            r.proto.ipv6 == (local_addr is V6),
            !r.proto.driver_lost,
            r.proto.stats == (EndpointStats {
                accepted_handshakes: 0,
                outgoing_handshakes: 0,
                refused_handshakes: 0,
                ignored_handshakes: 0,
            }),
            r.proto.default_client_config is None,
            r.io.socket == socket,
            r.io.prev_socket is None,
            r.io.recv_state.incoming@ == Seq::<I>::empty(),
            r.io.recv_state.connections@ == crate::connections::ConnectionSetView::<S>::new(
                local_cid_len as nat,
            ),
            r.io.recv_state.recv_buf@ == Seq::new(
                crate::recv::recv_buf_len(
                    max_udp_payload_size,
                    max_receive_segments,
                    batch_size,
                ) as nat,
                |i: int| 0u8,
            ),
    {
        Endpoint {
            proto: ProtoState {
                driver: None,
                ipv6: local_addr.is_ipv6(),
                driver_lost: false,
                stats: EndpointStats::default(),
                default_client_config: None,
            },
            io: IoState {
                socket,
                prev_socket: None,
                recv_state: RecvState::new(
                    local_cid_len,
                    max_udp_payload_size,
                    max_receive_segments,
                    batch_size,
                ),
            },
        }
    }

    /// Returns relevant stats from this endpoint.
    pub fn stats(&self) -> (r: EndpointStats)
        ensures
            r == self.proto.stats,
    {
        self.proto.stats
    }

    /// Sets the client configuration used by [`connect`](Self::connect).
    pub fn set_default_client_config(&mut self, config: C)
        ensures
            final(self).proto == (ProtoState {
                default_client_config: Some(config),
                ..old(self).proto
            }),
            final(self).io == old(self).io,
    {
        self.proto.default_client_config = Some(config);
    }

    /// Prepares to connect to `addr` with the default configuration, and returns that and the
    /// address to give to the protocol engine.
    pub fn connect(&self, addr: SocketAddr) -> (r: Result<(&C, SocketAddr), ConnectError>)
        ensures
            match self.proto.default_client_config {
                None => r == Err::<(&C, SocketAddr), ConnectError>(
                    ConnectError::NoDefaultClientConfig,
                ),
                Some(config) => r == (match connect_target(
                    self.proto.driver_lost,
                    self.io.recv_state.connections@.close is Some,
                    self.proto.ipv6,
                    addr,
                ) {
                    Ok(target) => Ok((&config, target)),
                    Err(e) => Err(e),
                }),
            },
    {
        match &self.proto.default_client_config {
            None => Err(ConnectError::NoDefaultClientConfig),
            Some(config) => match self.connect_with(addr) {
                Ok(target) => Ok((config, target)),
                Err(e) => Err(e),
            },
        }
    }

    /// Prepares to connect to `addr` with a configuration of the caller's, and returns the
    /// address to give to the protocol engine.
    pub fn connect_with(&self, addr: SocketAddr) -> (r: Result<SocketAddr, ConnectError>)
        ensures
            r == connect_target(
                self.proto.driver_lost,
                self.io.recv_state.connections@.close is Some,
                self.proto.ipv6,
                addr,
            ),
    {
        if self.proto.driver_lost || self.io.recv_state.connections.is_closed() {
            return Err(ConnectError::EndpointStopping);
        }
        if addr.is_ipv6() && !self.proto.ipv6 {
            return Err(ConnectError::InvalidRemoteAddress(addr));
        }
        if self.proto.ipv6 {
            Ok(SocketAddr::V6(ensure_ipv6(addr)))
        } else {
            Ok(addr)
        }
    }

    /// Takes in what the protocol engine has made of an attempt to connect. Only one that it has
    /// begun is counted and kept.
    pub fn connecting<E>(&mut self, result: Result<NewConnection, E>, sender: S) -> (r: Result<
        Admitted,
        E,
    >)
        requires
            result matches Ok(conn) ==> {
                &&& old(self).proto.stats.outgoing_handshakes < u64::MAX
                &&& conn.handshake_cid@.len() == 0 ==> old(
                    self,
                ).io.recv_state.connections@.local_cid_len == 0
            },
        ensures
            match result {
                Ok(conn) => {
                    &&& r matches Ok(a) && a.handle == conn.handle && old(
                        self,
                    ).io.recv_state.connections@.tells_of_close(a.close)
                    &&& final(self).proto == (ProtoState {
                        stats: EndpointStats {
                            outgoing_handshakes: (old(self).proto.stats.outgoing_handshakes
                                + 1) as u64,
                            ..old(self).proto.stats
                        },
                        ..old(self).proto
                    })
                    &&& final(self).io.recv_state.connections@ == old(
                        self,
                    ).io.recv_state.connections@.inserted(conn, sender)
                    &&& only_connections_differ(*final(self), *old(self))
                },
                Err(e) => r == Err::<Admitted, E>(e) && *final(self) == *old(self),
            },
    {
        match result {
            Ok(conn) => {
                self.proto.stats.outgoing_handshakes += 1;
                let handle = conn.handle;
                let close = self.io.recv_state.connections.insert(conn, sender);
                Ok(Admitted { handle, close })
            },
            Err(e) => Err(e),
        }
    }

    /// Switches to a new UDP socket, bound to `local_addr`.
    ///
    /// If the address of the new socket cannot be had, the old one is retained.
    pub fn rebind_abstract<E>(&mut self, socket: K, local_addr: Result<SocketAddr, E>) -> (r:
        Result<Rebound<W>, E>)
        ensures
            match local_addr {
                Ok(addr) => {
                    &&& r matches Ok(rebound) && rebound.wake == old(self).proto.driver
                        && crate::connections::lists_each_once(
                        rebound.tell@,
                        old(self).io.recv_state.connections@.connections.dom(),
                    )
                    &&& final(self).io == (IoState {
                        socket,
                        prev_socket: Some(old(self).io.socket),
                        recv_state: old(self).io.recv_state,
                    })
                    &&& final(self).proto == (ProtoState {
                        ipv6: addr is V6,
                        driver: None,
                        ..old(self).proto
                    })
                },
                Err(e) => r == Err::<Rebound<W>, E>(e) && *final(self) == *old(self),
            },
    {
        let addr = match local_addr {
            Ok(addr) => addr,
            Err(e) => {
                return Err(e);
            },
        };
        let mut abandoned = socket;
        core::mem::swap(&mut self.io.socket, &mut abandoned);
        self.io.prev_socket = Some(abandoned);
        let tell = self.io.recv_state.connections.send_rebind();
        self.proto.ipv6 = addr.is_ipv6();
        let wake = self.proto.driver.take();
        Ok(Rebound { tell, wake })
    }

    /// Closes all of this endpoint's connections and ceases accepting new ones. Returns what to
    /// tell which connection.
    pub fn close(&mut self, error_code: VarInt, reason: &[u8]) -> (r: Vec<
        (ConnectionHandle, CloseReason),
    >)
        ensures
            crate::connections::tells_each_of_close(
                r@,
                old(self).io.recv_state.connections@.connections.dom(),
                error_code@,
                reason@,
            ),
            final(self).io.recv_state.connections@ == old(self).io.recv_state.connections@.closed(
                error_code@,
                reason@,
            ),
            final(self).proto == old(self).proto,
            only_connections_differ(*final(self), *old(self)),
    {
        let reason = Bytes::copy_from_slice(reason);
        let close = CloseReason { error_code, reason: buffer::clone_bytes(&reason) };
        self.io.recv_state.connections.set_close(close);
        self.io.recv_state.connections.send_close(error_code, &reason)
    }

    /// Whether all connections on the endpoint have been cleanly shut down.
    pub fn is_idle(&self) -> (r: bool)
        ensures
            r == (self.io.recv_state.connections@.connections =~= Map::empty()),
    {
        self.io.recv_state.connections.is_empty()
    }

    /// Looks for an attempt to connect. Attempts made before the endpoint was closed are still
    /// handed out.
    pub fn poll_accept(&mut self) -> (r: AcceptPoll<I>)
        ensures
            final(self).proto == old(self).proto,
            final(self).io.socket == old(self).io.socket,
            final(self).io.prev_socket == old(self).io.prev_socket,
            final(self).io.recv_state.connections == old(self).io.recv_state.connections,
            final(self).io.recv_state.recv_buf == old(self).io.recv_state.recv_buf,
            r == accept_poll(
                old(self).proto.driver_lost,
                old(self).io.recv_state.connections@.close is Some,
                old(self).io.recv_state.incoming@,
            ),
            final(self).io.recv_state.incoming@ == (if r is Ready {
                old(self).io.recv_state.incoming@.skip(1)
            } else {
                old(self).io.recv_state.incoming@
            }),
    {
        if self.proto.driver_lost {
            return AcceptPoll::Ended;
        }
        match self.io.recv_state.incoming.pop_front() {
            Some(incoming) => {
                assert(self.io.recv_state.incoming@ =~= old(self).io.recv_state.incoming@.skip(1));
                return AcceptPoll::Ready(incoming);
            },
            None => {},
        }
        if self.io.recv_state.connections.is_closed() {
            return AcceptPoll::Ended;
        }
        AcceptPoll::Wait
    }

    /// Takes in what the protocol engine has made of an attempt to connect that was to be
    /// accepted.
    pub fn accept<'a, E>(
        &mut self,
        result: Result<NewConnection, AcceptError<E>>,
        response_buffer: &'a [u8],
        sender: S,
    ) -> (r: Result<Admitted, NotAccepted<'a, E>>)
        requires
            match result {
                Ok(conn) => {
                    &&& old(self).proto.stats.accepted_handshakes < u64::MAX
                    &&& conn.handshake_cid@.len() == 0 ==> old(
                        self,
                    ).io.recv_state.connections@.local_cid_len == 0
                },
                Err(e) => e.response matches Some(t) ==> t.size <= response_buffer@.len(),
            },
        ensures
            match result {
                Ok(conn) => {
                    &&& r matches Ok(a) && a.handle == conn.handle && old(
                        self,
                    ).io.recv_state.connections@.tells_of_close(a.close)
                    &&& final(self).proto == (ProtoState {
                        stats: EndpointStats {
                            accepted_handshakes: (old(self).proto.stats.accepted_handshakes
                                + 1) as u64,
                            ..old(self).proto.stats
                        },
                        ..old(self).proto
                    })
                    &&& final(self).io.recv_state.connections@ == old(
                        self,
                    ).io.recv_state.connections@.inserted(conn, sender)
                    &&& only_connections_differ(*final(self), *old(self))
                },
                Err(e) => {
                    &&& *final(self) == *old(self)
                    &&& r matches Err(n) && n.cause == e.cause && (match e.response {
                        Some(t) => n.response matches Some(p) && crate::recv::is_response(
                            p,
                            t,
                            response_buffer@,
                        ),
                        None => n.response is None,
                    })
                },
            },
    {
        match result {
            Ok(conn) => {
                self.proto.stats.accepted_handshakes += 1;
                let handle = conn.handle;
                let close = self.io.recv_state.connections.insert(conn, sender);
                Ok(Admitted { handle, close })
            },
            Err(error) => {
                let response = match error.response {
                    Some(transmit) => Some(respond(transmit, response_buffer)),
                    None => None,
                };
                Err(NotAccepted { cause: error.cause, response })
            },
        }
    }

    /// Takes in how the protocol engine has refused an attempt to connect, and returns what to
    /// send.
    pub fn refuse<'a>(&mut self, transmit: Transmit, response_buffer: &'a [u8]) -> (r: Response<'a>)
        requires
            old(self).proto.stats.refused_handshakes < u64::MAX,
            transmit.size <= response_buffer@.len(),
        ensures
            crate::recv::is_response(r, transmit, response_buffer@),
            final(self).proto == (ProtoState {
                stats: EndpointStats {
                    refused_handshakes: (old(self).proto.stats.refused_handshakes + 1) as u64,
                    ..old(self).proto.stats
                },
                ..old(self).proto
            }),
            final(self).io == old(self).io,
    {
        self.proto.stats.refused_handshakes += 1;
        respond(transmit, response_buffer)
    }

    /// Takes in how the protocol engine has asked a peer to prove its address, and returns what
    /// to send.
    pub fn retry<'a, E>(&self, result: Result<Transmit, E>, response_buffer: &'a [u8]) -> (r:
        Result<Response<'a>, E>)
        requires
            result matches Ok(t) ==> t.size <= response_buffer@.len(),
        ensures
            match result {
                Ok(t) => r matches Ok(p) && crate::recv::is_response(p, t, response_buffer@),
                Err(e) => r == Err::<Response<'a>, E>(e),
            },
    {
        match result {
            Ok(transmit) => Ok(respond(transmit, response_buffer)),
            Err(e) => Err(e),
        }
    }

    /// Counts an attempt to connect that is left unanswered.
    pub fn ignore(&mut self)
        requires
            old(self).proto.stats.ignored_handshakes < u64::MAX,
        ensures
            final(self).proto == (ProtoState {
                stats: EndpointStats {
                    ignored_handshakes: (old(self).proto.stats.ignored_handshakes + 1) as u64,
                    ..old(self).proto.stats
                },
                ..old(self).proto
            }),
            final(self).io == old(self).io,
    {
        self.proto.stats.ignored_handshakes += 1;
    }

    /// Takes in an event from the connection `ch`: takes the connection ID that the peer has
    /// retired out of use, and forgets the connection if it is over.
    pub fn handle_event<P>(&mut self, ch: ConnectionHandle, event: EndpointEvent<P>) -> (r:
        EventOutcome<P>)
        requires
            event.reply is Some ==> !event.drained && old(
                self,
            ).io.recv_state.connections@.connections.contains_key(ch.0),
        ensures
            final(self).io.recv_state.connections@ == after_event(
                old(self).io.recv_state.connections@,
                ch.0,
                event,
            ),
            final(self).proto == old(self).proto,
            only_connections_differ(*final(self), *old(self)),
            r.notify_idle == (event.drained && final(self).io.recv_state.connections@.connections
                =~= Map::empty()),
            r.deliver == (match event.reply {
                Some(p) => Some((ch, p)),
                None => None,
            }),
    {
        match event.retired_local_cid_seq {
            Some(seq) => {
                self.io.recv_state.connections.retire(ch, seq);
            },
            None => {},
        }
        let mut notify_idle = false;
        if event.drained {
            self.io.recv_state.connections.remove(ch);
            notify_idle = self.io.recv_state.connections.is_empty();
        }
        let deliver = match event.reply {
            Some(p) => Some((ch, p)),
            None => None,
        };
        EventOutcome { notify_idle, deliver }
    }

    /// Keeps the means to wake the driving task, unless there is one already.
    pub fn register_driver(&mut self, waker: W)
        ensures
            final(self).proto == (ProtoState {
                driver: match old(self).proto.driver {
                    Some(w) => Some(w),
                    None => Some(waker),
                },
                ..old(self).proto
            }),
            final(self).io == old(self).io,
    {
        if self.proto.driver.is_none() {
            self.proto.driver = Some(waker);
        }
    }

    /// Takes in how the passes over the sockets have gone: the one over the abandoned socket, if
    /// there is one, and the one over the current. Returns whether there is more to receive.
    ///
    /// The abandoned socket is let go when it fails, and when a connection is reached on the
    /// current one.
    pub fn drive_recv<E>(
        &mut self,
        prev: Option<Result<PollProgress, E>>,
        current: Result<PollProgress, E>,
    ) -> (r: Result<bool, E>)
        requires
            prev is Some <==> old(self).io.prev_socket is Some,
        ensures
            final(self).proto == old(self).proto,
            final(self).io == (IoState {
                prev_socket: if (prev matches Some(Err(_))) || (current matches Ok(p)
                    && p.received_connection_packet) {
                    None
                } else {
                    old(self).io.prev_socket
                },
                ..old(self).io
            }),
            r == (match current {
                Ok(p) => Ok(p.keep_going),
                Err(e) => Err(e),
            }),
    {
        match prev {
            Some(Err(_)) => {
                self.io.prev_socket = None;
            },
            _ => {},
        }
        match current {
            Ok(progress) => {
                if progress.received_connection_packet {
                    self.io.prev_socket = None;
                }
                Ok(progress.keep_going)
            },
            Err(e) => Err(e),
        }
    }

    /// Whether those who wait for attempts to connect are to be woken.
    pub fn has_incoming(&self) -> (r: bool)
        ensures
            r == (self.io.recv_state.incoming@.len() > 0),
    {
        self.io.recv_state.incoming.len() > 0
    }

    /// Decides how a round of the driving task ends. The task is finished when nobody else holds
    /// the endpoint and no connections are open.
    pub fn poll_driver(&self, ref_count: usize, keep_going: bool) -> (r: DriverStep)
        ensures
            r == driver_step(
                ref_count,
                self.io.recv_state.connections@.connections =~= Map::empty(),
                keep_going,
            ),
    {
        if ref_count == 0 && self.is_idle() {
            DriverStep::Finished
        } else if keep_going {
            DriverStep::Reschedule
        } else {
            DriverStep::Sleep
        }
    }

    /// Records that the driving task is gone, and forgets all connections, which tells them.
    pub fn drop_driver(&mut self)
        ensures
            final(self).proto == (ProtoState { driver_lost: true, ..old(self).proto }),
            final(self).io.recv_state.connections@ == old(
                self,
            ).io.recv_state.connections@.cleared(),
            only_connections_differ(*final(self), *old(self)),
    {
        self.proto.driver_lost = true;
        self.io.recv_state.connections.clear();
    }

    /// Hands out the means to wake the driving task, which comes back for the next time when it
    /// runs.
    pub fn take_driver(&mut self) -> (r: Option<W>)
        ensures
            r == old(self).proto.driver,
            final(self).proto == (ProtoState { driver: None, ..old(self).proto }),
            final(self).io == old(self).io,
    {
        self.proto.driver.take()
    }
}

/// Whether the drop of a handle leaves the driving task on its own, `previous` being the number
/// of handles before it, without the task's own.
pub open spec fn wakes_driver(previous: nat) -> bool {
    previous <= 1
}

/// Decides whether the driving task is to be woken when a handle on the endpoint is dropped. It
/// is if it is on its own then, since it has to end once the last connection is gone.
pub fn on_handle_dropped(previous: usize) -> (r: bool)
    ensures
        r == wakes_driver(previous as nat),
{
    previous <= 1
}

/// How a round of the driving task ends.
pub open spec fn driver_step(ref_count: usize, idle: bool, keep_going: bool) -> DriverStep {
    if ref_count == 0 && idle {
        DriverStep::Finished
    } else if keep_going {
        DriverStep::Reschedule
    } else {
        DriverStep::Sleep
    }
}

/// The connections after the connection `ch` has had something to say.
pub open spec fn after_event<S, P>(
    set: crate::connections::ConnectionSetView<S>,
    ch: usize,
    event: EndpointEvent<P>,
) -> crate::connections::ConnectionSetView<S> {
    let retired = match event.retired_local_cid_seq {
        Some(seq) => set.retired(ch, seq),
        None => set,
    };
    if event.drained {
        retired.removed(ch)
    } else {
        retired
    }
}

/// Whether the sockets, the queue of attempts to connect and the receive buffer are the same in
/// both states.
pub open spec fn only_connections_differ<C, W, K, S, I>(
    a: Endpoint<C, W, K, S, I>,
    b: Endpoint<C, W, K, S, I>,
) -> bool {
    &&& a.io.socket == b.io.socket
    &&& a.io.prev_socket == b.io.prev_socket
    &&& a.io.recv_state.incoming == b.io.recv_state.incoming
    &&& a.io.recv_state.recv_buf == b.io.recv_state.recv_buf
}

/// A round of handling events from connections, of which there may be more than one round's worth.
#[derive(Clone, Copy, Debug, PartialEq, Eq, Structural)]
pub struct EventRound {
    /// How many more events this round may handle.
    pub left: usize,
}

/// How a round goes on when it has looked for an event.
pub enum EventStep<P> {
    /// Handle this event of this connection.
    Handle(ConnectionHandle, P),
    /// End the round, and tell whether there may be more events.
    Return(bool),
}

impl EventRound {
    /// How the round ends before it looks for another event, if it does.
    pub open spec fn over(self) -> Option<bool> {
        if self.left == 0 {
            Some(true)
        } else {
            None
        }
    }

    /// The round after it has looked for an event, and how it goes on.
    pub open spec fn polled<P>(self, polled: Option<(ConnectionHandle, P)>) -> (
        Self,
        EventStep<P>,
    ) {
        match polled {
            Some((ch, p)) => (
                EventRound { left: (self.left - 1) as usize },
                EventStep::Handle(ch, p),
            ),
            None => (self, EventStep::Return(false)),
        }
    }

    /// A round that handles at most `bound` events.
    pub fn new(bound: usize) -> (r: Self)
        ensures
            r.left == bound,
    {
        EventRound { left: bound }
    }

    /// Decides whether to look for another event. If not, the round ends here, and there may be
    /// more.
    pub fn before_poll(&self) -> (r: Option<bool>)
        ensures
            r == self.over(),
    {
        if self.left == 0 {
            Some(true)
        } else {
            None
        }
    }

    /// Takes in what there was: an event to handle, or none, which ends the round.
    pub fn on_poll<P>(&mut self, polled: Option<(ConnectionHandle, P)>) -> (r: EventStep<P>)
        requires
            old(self).left > 0,
        ensures
            (*final(self), r) == old(self).polled(polled),
    {
        match polled {
            Some((ch, p)) => {
                self.left -= 1;
                EventStep::Handle(ch, p)
            },
            None => EventStep::Return(false),
        }
    }
}

/// What a round does that finds the events `waiting`, in this order, before it would find none:
/// the events that it handles, and whether it tells that there may be more.
pub open spec fn event_round<P>(round: EventRound, waiting: Seq<(ConnectionHandle, P)>) -> (
    Seq<(ConnectionHandle, P)>,
    bool,
)
    decreases round.left,
{
    match round.over() {
        Some(more) => (Seq::empty(), more),
        None => {
            let polled = if waiting.len() > 0 {
                Some(waiting[0])
            } else {
                None
            };
            match round.polled(polled) {
                (next, EventStep::Handle(ch, p)) => {
                    let (handled, more) = event_round(next, waiting.skip(1));
                    (seq![(ch, p)] + handled, more)
                },
                (_, EventStep::Return(more)) => (Seq::empty(), more),
            }
        },
    }
}

/// A round handles the events that wait, in their order, but no more than its bound. It tells that
/// there may be more exactly if it has reached the bound.
pub proof fn law_round_handles_events_in_order<P>(
    bound: usize,
    waiting: Seq<(ConnectionHandle, P)>,
)
    ensures
        event_round(EventRound { left: bound }, waiting).0 == (if waiting.len() <= bound {
            waiting
        } else {
            waiting.take(bound as int)
        }),
        event_round(EventRound { left: bound }, waiting).1 == (waiting.len() >= bound),
    decreases bound,
{
    let r = event_round(EventRound { left: bound }, waiting);
    if bound == 0 {
        assert(r.0 =~= waiting.take(0));
    } else if waiting.len() == 0 {
        assert(r.0 =~= waiting);
    } else {
        law_round_handles_events_in_order((bound - 1) as usize, waiting.skip(1));
        assert(r.0 =~= (if waiting.len() <= bound {
            waiting
        } else {
            waiting.take(bound as int)
        }));
    }
}

/// A round is over before it looks for an event exactly if it may handle no more, and then there
/// may be more. An event that it finds is the one that it handles, and counts as one; finding none
/// counts as nothing and ends it.
pub proof fn law_round_counts_what_it_handles<P>(round: EventRound, ch: ConnectionHandle, event: P)
    requires
        round.left > 0,
    ensures
        round.over() is None,
        (EventRound { left: 0 }).over() == Some(true),
        round.polled(Some((ch, event))).0.left + 1 == round.left,
        round.polled(Some((ch, event))).1 == EventStep::Handle(ch, event),
        round.polled(None::<(ConnectionHandle, P)>).0.left == round.left,
        round.polled(None::<(ConnectionHandle, P)>).1 == EventStep::<P>::Return(false),
{
}

} // verus!
