//! Receiving: from what a socket hands over to who gets which datagram.
use crate::addr::{IpAddr, SocketAddr};
use crate::buffer;
use crate::connections::{ConnectionHandle, ConnectionSet, Datagram, EcnCodepoint, Routed};
use bytes::BytesMut;
use std::collections::VecDeque;
use vstd::prelude::*;

verus! {

/// An explicit congestion notification, as a UDP socket reports it.
#[derive(Clone, Copy, Debug, PartialEq, Eq, Structural)]
pub enum UdpEcn {
    Ect0,
    Ect1,
    Ce,
}

/// The protocol's name for what a UDP socket reported.
pub open spec fn ecn_of(ecn: UdpEcn) -> EcnCodepoint {
    match ecn {
        UdpEcn::Ect0 => EcnCodepoint::Ect0,
        UdpEcn::Ect1 => EcnCodepoint::Ect1,
        UdpEcn::Ce => EcnCodepoint::Ce,
    }
}

/// Translates what a UDP socket reported.
pub fn proto_ecn(ecn: UdpEcn) -> (r: EcnCodepoint)
    ensures
        r == ecn_of(ecn),
{
    match ecn {
        UdpEcn::Ect0 => EcnCodepoint::Ect0,
        UdpEcn::Ect1 => EcnCodepoint::Ect1,
        UdpEcn::Ce => EcnCodepoint::Ce,
    }
}

/// What a UDP socket reports of one received message.
#[derive(Clone, Copy, Debug)]
pub struct RecvMeta {
    /// Who sent it.
    pub addr: SocketAddr,
    /// How many bytes of the buffer it fills.
    pub len: usize,
    /// How many bytes each datagram in it has; the last one may have fewer.
    pub stride: usize,
    pub ecn: Option<UdpEcn>,
    /// The local address that it was sent to, if the system tells.
    pub dst_ip: Option<IpAddr>,
}

impl RecvMeta {
    /// The protocol's name for the message's congestion notification.
    pub open spec fn ecn_spec(self) -> Option<EcnCodepoint> {
        match self.ecn {
            Some(e) => Some(ecn_of(e)),
            None => None,
        }
    }
}

/// The datagrams in a message: pieces of `stride` bytes, except that the last one has what is
/// left.
pub open spec fn datagrams(data: Seq<u8>, stride: nat) -> Seq<Seq<u8>>
    decreases data.len(),
{
    if data.len() == 0 || stride == 0 {
        Seq::empty()
    } else if data.len() <= stride {
        seq![data]
    } else {
        seq![data.take(stride as int)] + datagrams(data.skip(stride as int), stride)
    }
}

/// Whether `r` is what becomes of the datagram `data` of a message described by `meta`.
pub open spec fn is_routed<S>(
    set: crate::connections::ConnectionSetView<S>,
    now: u64,
    meta: RecvMeta,
    data: Seq<u8>,
    r: Routed,
) -> bool {
    match set.delivers_to(meta.addr, meta.dst_ip, data) {
        Some(h) => r matches Routed::Deliver(handle, d) && handle.0 == h && d.now == now && d.remote
            == meta.addr && d.ecn == meta.ecn_spec() && buffer::bytes_mut_contents(d.data) == data,
        None => r matches Routed::Unrouted(b) && buffer::bytes_mut_contents(b) == data,
    }
}

/// The datagrams in a message that a socket has written to `buf`.
pub open spec fn message_datagrams(meta: RecvMeta, buf: Seq<u8>) -> Seq<Seq<u8>> {
    datagrams(buf.take(meta.len as int), meta.stride as nat)
}

/// Whether `routed` is what becomes of the datagrams of a message, in their order.
pub open spec fn is_routed_message<S>(
    set: crate::connections::ConnectionSetView<S>,
    now: u64,
    meta: RecvMeta,
    buf: Seq<u8>,
    routed: Seq<Routed>,
) -> bool {
    let parts = message_datagrams(meta, buf);
    &&& routed.len() == parts.len()
    &&& forall|i: int|
        0 <= i < parts.len() ==> is_routed(set, now, meta, parts[i], #[trigger] routed[i])
}

/// Whether a message lies within its buffer, and has datagrams of some size if it has any bytes.
pub open spec fn is_message(meta: RecvMeta, buf: Seq<u8>) -> bool {
    &&& meta.len <= buf.len()
    &&& meta.len > 0 ==> meta.stride > 0
}

/// How many messages there are in a batch of `received`: no more than the socket has described,
/// and no more than it has been given buffers for.
pub open spec fn batch_len(received: nat, described: nat, buffers: nat) -> nat {
    if received <= described && received <= buffers {
        received
    } else if described <= buffers {
        described
    } else {
        buffers
    }
}

/// Whether a datagram in a message is delivered to a connection without the protocol engine.
pub open spec fn delivers_any<S>(
    set: crate::connections::ConnectionSetView<S>,
    meta: RecvMeta,
    buf: Seq<u8>,
) -> bool {
    exists|i: int|
        0 <= i < message_datagrams(meta, buf).len() && set.delivers_to(
            meta.addr,
            meta.dst_ip,
            #[trigger] message_datagrams(meta, buf)[i],
        ) is Some
}

spec fn any_delivered(routed: Seq<Routed>) -> bool {
    exists|i: int| 0 <= i < routed.len() && #[trigger] routed[i] is Deliver
}

/// What a pass over a socket's datagrams has come to.
#[derive(Clone, Copy, Debug, PartialEq, Eq, Structural)]
pub struct PollProgress {
    /// Whether a datagram was routed to an existing connection.
    pub received_connection_packet: bool,
    /// Whether the pass was cut short for fairness.
    pub keep_going: bool,
}

/// The outcome of asking a socket for messages.
pub enum RecvPoll<E> {
    /// So many messages have been received.
    Received(usize),
    /// There are none at the moment.
    Pending,
    /// The system reports that a peer has reset a connection, which means nothing to QUIC and
    /// may be forged.
    ConnectionReset,
    /// The socket has failed.
    Failed(E),
}

/// What a pass does next.
pub enum RecvStep<E> {
    /// Take in so many messages, and then see whether there is time for more.
    Process(usize),
    /// Ask the socket again at once.
    PollAgain,
    /// End.
    Return(Result<PollProgress, E>),
}

/// What the protocol engine makes of a datagram.
pub enum DatagramEvent<I, P> {
    /// It is a peer's attempt to connect.
    NewConnection(I),
    /// It concerns an open connection.
    ConnectionEvent(ConnectionHandle, P),
    /// It is to be answered on the spot.
    Response(Transmit),
}

/// What is to be done with what the protocol engine has made of a datagram.
pub enum DatagramAction<I, P> {
    /// Nothing, or nothing more.
    Done,
    /// Have the engine refuse the attempt to connect, and send what it answers.
    Refuse(I),
    /// Tell the connection.
    Deliver(ConnectionHandle, P),
    /// Send the answer.
    Respond(Transmit),
}

/// A packet that the protocol engine has written to a buffer.
#[derive(Clone, Copy, Debug)]
pub struct Transmit {
    pub destination: SocketAddr,
    pub ecn: Option<EcnCodepoint>,
    /// How many bytes of the buffer it fills.
    pub size: usize,
    pub segment_size: Option<usize>,
    pub src_ip: Option<IpAddr>,
}

/// A packet to be sent if the system has room for it, and to be dropped otherwise.
pub struct Response<'a> {
    pub destination: SocketAddr,
    pub ecn: Option<EcnCodepoint>,
    pub contents: &'a [u8],
    pub segment_size: Option<usize>,
    pub src_ip: Option<IpAddr>,
}

/// Whether `r` is the packet `transmit` in `buffer`.
pub open spec fn is_response(r: Response, transmit: Transmit, buffer: Seq<u8>) -> bool {
    &&& r.destination == transmit.destination
    &&& r.ecn == transmit.ecn
    &&& r.contents@ == buffer.take(transmit.size as int)
    &&& r.segment_size == transmit.segment_size
    &&& r.src_ip == transmit.src_ip
}

/// Picks the packet that the protocol engine has written out of its buffer.
pub fn respond<'a>(transmit: Transmit, response_buffer: &'a [u8]) -> (r: Response<'a>)
    requires
        transmit.size <= response_buffer@.len(),
    ensures
        is_response(r, transmit, response_buffer@),
{
    Response {
        destination: transmit.destination,
        ecn: transmit.ecn,
        contents: vstd::slice::slice_subrange(response_buffer, 0, transmit.size),
        segment_size: transmit.segment_size,
        src_ip: transmit.src_ip,
    }
}

/// The state that receiving works on: attempts to connect that nobody has looked at yet, the
/// open connections, and the buffer that sockets write to.
pub struct RecvState<S, I> {
    pub incoming: VecDeque<I>,
    pub connections: ConnectionSet<S>,
    pub recv_buf: Vec<u8>,
}

/// The size of the buffer that sockets write to: room for `batch_size` messages of
/// `max_receive_segments` datagrams, each as large as the endpoint accepts but at most 64 KiB.
pub open spec fn recv_buf_len(
    max_udp_payload_size: u64,
    max_receive_segments: usize,
    batch_size: usize,
) -> int {
    let payload: int = if max_udp_payload_size < 64 * 1024 {
        max_udp_payload_size as int
    } else {
        65536
    };
    payload * max_receive_segments * batch_size
}

impl<S, I> RecvState<S, I> {
    /// The state of a new endpoint.
    pub fn new(
        local_cid_len: usize,
        max_udp_payload_size: u64,
        max_receive_segments: usize,
        batch_size: usize,
    ) -> (r: Self)
        requires
            recv_buf_len(max_udp_payload_size, max_receive_segments, 1) <= usize::MAX,
            recv_buf_len(max_udp_payload_size, max_receive_segments, batch_size) <= usize::MAX,
        ensures
            r.incoming@ == Seq::<I>::empty(),
            r.connections@ == crate::connections::ConnectionSetView::<S>::new(
                local_cid_len as nat,
            ),
            r.recv_buf@ == Seq::new(
                recv_buf_len(max_udp_payload_size, max_receive_segments, batch_size) as nat,
                |i: int| 0u8,
            ),
    {
        let payload: usize = if max_udp_payload_size < 64 * 1024 {
            max_udp_payload_size as usize
        } else {
            64 * 1024
        };
        let len: usize = payload * max_receive_segments * batch_size;
        RecvState {
            incoming: VecDeque::new(),
            connections: ConnectionSet::new(local_cid_len),
            recv_buf: vec![0u8; len],
        }
    }

    /// How much of the receive buffer each of the `batch_size` messages of a batch gets.
    pub fn message_buf_len(&self, batch_size: usize) -> (r: usize)
        requires
            batch_size > 0,
        ensures
            r == self.recv_buf@.len() / batch_size as nat,
    {
        self.recv_buf.len() / batch_size
    }

    /// Hands out the attempts to connect that nobody has looked at, oldest first, so that the
    /// protocol engine can forget them.
    pub fn drain_incoming(&mut self) -> (r: Vec<I>)
        ensures
            r@ == old(self).incoming@,
            final(self).incoming@ == Seq::<I>::empty(),
            final(self).connections == old(self).connections,
            final(self).recv_buf == old(self).recv_buf,
    {
        let mut r: Vec<I> = Vec::new();
        loop
            invariant
                r@ + self.incoming@ == old(self).incoming@,
                self.connections == old(self).connections,
                self.recv_buf == old(self).recv_buf,
            ensures
                self.incoming@.len() == 0,
            decreases self.incoming@.len(),
        {
            match self.incoming.pop_front() {
                Some(i) => {
                    r.push(i);
                },
                None => {
                    break;
                },
            }
        }
        assert(r@ =~= old(self).incoming@);
        r
    }
}

/// A pass over the datagrams that a socket has ready.
#[derive(Clone, Copy, Debug, PartialEq, Eq, Structural)]
pub struct PollSocket {
    /// Whether a datagram was routed to an existing connection so far.
    pub received_connection_packet: bool,
}

/// The queue of attempts to connect after the protocol engine has made `event` of a datagram: an
/// attempt goes to the end of it, unless the endpoint has been closed.
pub open spec fn queued<I, P>(queue: Seq<I>, closed: bool, event: Option<DatagramEvent<I, P>>) -> Seq<
    I,
> {
    match event {
        Some(DatagramEvent::NewConnection(i)) if !closed => queue.push(i),
        _ => queue,
    }
}

/// What is to be done when the protocol engine has made `event` of a datagram.
pub open spec fn datagram_action<I, P>(
    closed: bool,
    event: Option<DatagramEvent<I, P>>,
) -> DatagramAction<I, P> {
    match event {
        Some(DatagramEvent::NewConnection(i)) => if closed {
            DatagramAction::Refuse(i)
        } else {
            DatagramAction::Done
        },
        Some(DatagramEvent::ConnectionEvent(h, p)) => DatagramAction::Deliver(h, p),
        Some(DatagramEvent::Response(t)) => DatagramAction::Respond(t),
        None => DatagramAction::Done,
    }
}

impl PollSocket {
    /// What the pass has come to if it ends here.
    pub open spec fn progress(self, keep_going: bool) -> PollProgress {
        PollProgress {
            received_connection_packet: self.received_connection_packet,
            keep_going,
        }
    }

    /// How the pass goes on when the socket has answered.
    pub open spec fn recv_step<E>(self, poll: RecvPoll<E>) -> RecvStep<E> {
        match poll {
            RecvPoll::Received(n) => RecvStep::Process(n),
            RecvPoll::Pending => RecvStep::Return(Ok(self.progress(false))),
            RecvPoll::ConnectionReset => RecvStep::PollAgain,
            RecvPoll::Failed(e) => RecvStep::Return(Err(e)),
        }
    }

    /// What the pass has come to if its time is up after a batch of messages.
    pub open spec fn limit_step(self, allow_work: bool) -> Option<PollProgress> {
        if allow_work {
            None
        } else {
            Some(self.progress(true))
        }
    }

    /// The pass after one more message.
    pub open spec fn after_message<S>(
        self,
        set: crate::connections::ConnectionSetView<S>,
        meta: RecvMeta,
        buf: Seq<u8>,
    ) -> Self {
        PollSocket {
            received_connection_packet: self.received_connection_packet || delivers_any(
                set,
                meta,
                buf,
            ),
        }
    }

    /// The pass after the first `count` messages of a batch.
    pub open spec fn after_batch<S>(
        self,
        set: crate::connections::ConnectionSetView<S>,
        metas: Seq<RecvMeta>,
        bufs: Seq<&[u8]>,
        count: nat,
    ) -> Self
        decreases count,
    {
        if count == 0 {
            self
        } else {
            self.after_batch(set, metas, bufs, (count - 1) as nat).after_message(
                set,
                metas[count - 1],
                bufs[count - 1]@,
            )
        }
    }

    /// The pass after the protocol engine has made `event` of a datagram.
    pub open spec fn after_handled<I, P>(self, event: Option<DatagramEvent<I, P>>) -> Self {
        PollSocket {
            received_connection_packet: self.received_connection_packet
                || event matches Some(DatagramEvent::ConnectionEvent(_, _)),
        }
    }

    /// A pass that has not received anything yet.
    pub fn new() -> (r: Self)
        ensures
            !r.received_connection_packet,
    {
        PollSocket { received_connection_packet: false }
    }

    /// Decides how to go on when the socket has answered.
    pub fn on_recv<E>(&self, poll: RecvPoll<E>) -> (r: RecvStep<E>)
        ensures
            r == self.recv_step(poll),
    {
        match poll {
            RecvPoll::Received(n) => RecvStep::Process(n),
            RecvPoll::Pending => RecvStep::Return(
                Ok(
                    PollProgress {
                        received_connection_packet: self.received_connection_packet,
                        keep_going: false,
                    },
                ),
            ),
            RecvPoll::ConnectionReset => RecvStep::PollAgain,
            RecvPoll::Failed(e) => RecvStep::Return(Err(e)),
        }
    }

    /// Decides, after a batch of messages, whether the pass ends because its time is up.
    pub fn on_work_limit(&self, allow_work: bool) -> (r: Option<PollProgress>)
        ensures
            r == self.limit_step(allow_work),
    {
        if allow_work {
            None
        } else {
            Some(
                PollProgress {
                    received_connection_packet: self.received_connection_packet,
                    keep_going: true,
                },
            )
        }
    }

    /// Takes in one message: cuts it into datagrams and routes each.
    pub fn on_message<S>(
        &mut self,
        connections: &ConnectionSet<S>,
        now: u64,
        meta: &RecvMeta,
        buf: &[u8],
    ) -> (r: Vec<Routed>)
        requires
            is_message(*meta, buf@),
        ensures
            is_routed_message(connections@, now, *meta, buf@, r@),
            *final(self) == old(self).after_message(connections@, *meta, buf@),
    {
        let ghost all = buf@.take(meta.len as int);
        let ghost stride = meta.stride as nat;
        let ghost parts = datagrams(all, stride);
        let mut data = buffer::bytes_mut_from(vstd::slice::slice_subrange(buf, 0, meta.len));
        let ecn = match meta.ecn {
            Some(e) => Some(proto_ecn(e)),
            None => None,
        };
        let mut r: Vec<Routed> = Vec::new();
        while data.len() > 0
            invariant
                parts == datagrams(all, stride),
                stride == meta.stride,
                buffer::bytes_mut_contents(data).len() > 0 ==> stride > 0,
                ecn == meta.ecn_spec(),
                r@.len() <= parts.len(),
                parts.skip(r@.len() as int) == datagrams(
                    buffer::bytes_mut_contents(data),
                    stride,
                ),
                forall|i: int|
                    0 <= i < r@.len() ==> is_routed(
                        connections@,
                        now,
                        *meta,
                        parts[i],
                        #[trigger] r@[i],
                    ),
                self.received_connection_packet == (old(self).received_connection_packet
                    || any_delivered(r@)),
            decreases buffer::bytes_mut_contents(data).len(),
        {
            let ghost left = buffer::bytes_mut_contents(data);
            let ghost before = r@;
            let len: usize = data.len();
            let cut: usize = if meta.stride < len {
                meta.stride
            } else {
                len
            };
            let part = data.split_to(cut);
            let ghost part_data = buffer::bytes_mut_contents(part);
            let routed = connections.try_route_fast(now, meta.addr, meta.dst_ip, ecn, part);
            match &routed {
                Routed::Deliver(_, _) => {
                    self.received_connection_packet = true;
                },
                Routed::Unrouted(_) => {},
            }
            r.push(routed);
            proof {
                let rest = parts.skip(before.len() as int);
                lemma_first_datagram(left, stride, cut as int);
                assert(rest.len() > 0);
                assert(parts.len() > before.len());
                assert(parts[before.len() as int] == rest[0]);
                assert(rest[0] == part_data);
                assert(parts.skip(r@.len() as int) =~= rest.skip(1));
                assert forall|i: int| 0 <= i < r@.len() implies is_routed(
                    connections@,
                    now,
                    *meta,
                    parts[i],
                    #[trigger] r@[i],
                ) by {
                    if i < before.len() {
                        assert(r@[i] == before[i]);
                        assert(is_routed(connections@, now, *meta, parts[i], before[i]));
                    } else {
                        assert(r@[i] == routed);
                        assert(parts[i] == part_data);
                    }
                }
                assert(any_delivered(r@) <==> any_delivered(before) || routed is Deliver) by {
                    if any_delivered(before) {
                        let i = choose|i: int|
                            0 <= i < before.len() && #[trigger] before[i] is Deliver;
                        assert(r@[i] is Deliver);
                    }
                    assert(r@[before.len() as int] == routed);
                    if any_delivered(r@) && !(routed is Deliver) {
                        let i = choose|i: int| 0 <= i < r@.len() && #[trigger] r@[i] is Deliver;
                        assert(before[i] is Deliver);
                    }
                }
            }
        }
        assert(parts.skip(r@.len() as int).len() == 0);
        proof {
            if any_delivered(r@) {
                let i = choose|i: int| 0 <= i < r@.len() && #[trigger] r@[i] is Deliver;
                assert(is_routed(connections@, now, *meta, parts[i], r@[i]));
                assert(message_datagrams(*meta, buf@)[i] == parts[i]);
            }
            if delivers_any(connections@, *meta, buf@) {
                let i = choose|i: int|
                    0 <= i < message_datagrams(*meta, buf@).len() && connections@.delivers_to(
                        meta.addr,
                        meta.dst_ip,
                        #[trigger] message_datagrams(*meta, buf@)[i],
                    ) is Some;
                assert(is_routed(connections@, now, *meta, parts[i], r@[i]));
            }
        }
        r
    }

    /// Takes in a batch of `received` messages: message `i` is the one that `metas[i]` describes
    /// and that lies in `bufs[i]`. Returns for each message where its datagrams go. Descriptions
    /// and buffers beyond the batch are left from earlier ones, and ignored.
    pub fn on_batch<S>(
        &mut self,
        connections: &ConnectionSet<S>,
        now: u64,
        metas: &[RecvMeta],
        bufs: &[&[u8]],
        received: usize,
    ) -> (r: Vec<Vec<Routed>>)
        requires
            forall|i: int|
                0 <= i < batch_len(received as nat, metas@.len(), bufs@.len()) ==> is_message(
                    #[trigger] metas@[i],
                    bufs@[i]@,
                ),
        ensures
            r@.len() == batch_len(received as nat, metas@.len(), bufs@.len()),
            forall|i: int|
                0 <= i < r@.len() ==> is_routed_message(
                    connections@,
                    now,
                    metas@[i],
                    bufs@[i]@,
                    (#[trigger] r@[i])@,
                ),
            *final(self) == old(self).after_batch(connections@, metas@, bufs@, r@.len()),
    {
        let mut r: Vec<Vec<Routed>> = Vec::new();
        let mut i: usize = 0;
        while i < received && i < metas.len() && i < bufs.len()
            invariant
                i <= batch_len(received as nat, metas@.len(), bufs@.len()),
                r@.len() == i,
                forall|j: int|
                    0 <= j < batch_len(received as nat, metas@.len(), bufs@.len()) ==> is_message(
                        #[trigger] metas@[j],
                        bufs@[j]@,
                    ),
                forall|j: int|
                    0 <= j < i ==> is_routed_message(
                        connections@,
                        now,
                        metas@[j],
                        bufs@[j]@,
                        (#[trigger] r@[j])@,
                    ),
                *self == old(self).after_batch(connections@, metas@, bufs@, i as nat),
            decreases metas@.len() - i,
        {
            assert(is_message(metas@[i as int], bufs@[i as int]@));
            let routed = self.on_message(connections, now, &metas[i], bufs[i]);
            r.push(routed);
            i += 1;
        }
        r
    }

    /// Takes in what the protocol engine has made of a datagram, and decides what is to be done
    /// with it. An attempt to connect is queued, unless the endpoint has been closed.
    pub fn on_handled<S, I, P>(
        &mut self,
        connections: &ConnectionSet<S>,
        incoming: &mut VecDeque<I>,
        event: Option<DatagramEvent<I, P>>,
    ) -> (r: DatagramAction<I, P>)
        requires
            event matches Some(DatagramEvent::ConnectionEvent(h, _))
                ==> connections@.connections.contains_key(h.0),
        ensures
            *final(self) == old(self).after_handled(event),
            final(incoming)@ == queued(old(incoming)@, connections@.close is Some, event),
            r == datagram_action(connections@.close is Some, event),
    {
        match event {
            Some(DatagramEvent::NewConnection(attempt)) => {
                if connections.is_closed() {
                    DatagramAction::Refuse(attempt)
                } else {
                    incoming.push_back(attempt);
                    DatagramAction::Done
                }
            },
            Some(DatagramEvent::ConnectionEvent(handle, event)) => {
                self.received_connection_packet = true;
                DatagramAction::Deliver(handle, event)
            },
            Some(DatagramEvent::Response(transmit)) => DatagramAction::Respond(transmit),
            None => DatagramAction::Done,
        }
    }
}

/// The first datagram of a message that is not at its end has `cut` bytes, a stride or what there
/// is; the others are those of what is left.
proof fn lemma_first_datagram(data: Seq<u8>, stride: nat, cut: int)
    requires
        data.len() > 0,
        stride > 0,
        cut == (if stride < data.len() {
            stride as int
        } else {
            data.len() as int
        }),
    ensures
        datagrams(data, stride).len() > 0,
        datagrams(data, stride)[0] == data.take(cut),
        datagrams(data, stride).skip(1) == datagrams(data.skip(cut), stride),
{
    if data.len() <= stride {
        assert(data.take(cut) =~= data);
        assert(data.skip(cut) =~= Seq::<u8>::empty());
    }
    assert(datagrams(data, stride).skip(1) =~= datagrams(data.skip(cut), stride));
}

/// Something that happens in the course of a pass.
pub enum PassEvent<I, P, E> {
    /// The socket has answered.
    Polled(RecvPoll<E>),
    /// A message is taken in: what the socket reports of it, and the buffer it is in.
    Message(RecvMeta, Seq<u8>),
    /// The protocol engine has made this of a datagram.
    Handled(Option<DatagramEvent<I, P>>),
    /// A batch is done, and there is time for more or not.
    Limit(bool),
}

impl PollSocket {
    /// The pass after something has happened.
    pub open spec fn after<S, I, P, E>(
        self,
        set: crate::connections::ConnectionSetView<S>,
        event: PassEvent<I, P, E>,
    ) -> Self {
        match event {
            PassEvent::Message(meta, buf) => self.after_message(set, meta, buf),
            PassEvent::Handled(handled) => self.after_handled(handled),
            _ => self,
        }
    }

    /// How the pass ends with what happens, if it does.
    pub open spec fn result<I, P, E>(self, event: PassEvent<I, P, E>) -> Option<
        Result<PollProgress, E>,
    > {
        match event {
            PassEvent::Polled(poll) => match self.recv_step(poll) {
                RecvStep::Return(r) => Some(r),
                _ => None,
            },
            PassEvent::Limit(allow_work) => match self.limit_step(allow_work) {
                Some(p) => Some(Ok(p)),
                None => None,
            },
            _ => None,
        }
    }
}

/// A pass after a history of events.
pub open spec fn pass_after<S, I, P, E>(
    set: crate::connections::ConnectionSetView<S>,
    history: Seq<PassEvent<I, P, E>>,
) -> PollSocket
    decreases history.len(),
{
    if history.len() == 0 {
        PollSocket { received_connection_packet: false }
    } else {
        pass_after(set, history.drop_last()).after(set, history.last())
    }
}

/// The queue of attempts to connect after a pass with a history of events.
pub open spec fn queue_after<I, P, E>(
    queue: Seq<I>,
    closed: bool,
    history: Seq<PassEvent<I, P, E>>,
) -> Seq<I>
    decreases history.len(),
{
    if history.len() == 0 {
        queue
    } else {
        let before = queue_after(queue, closed, history.drop_last());
        match history.last() {
            PassEvent::Handled(handled) => queued(before, closed, handled),
            _ => before,
        }
    }
}

/// The attempts to connect in a history of events, oldest first.
pub open spec fn attempts<I, P, E>(history: Seq<PassEvent<I, P, E>>) -> Seq<I>
    decreases history.len(),
{
    if history.len() == 0 {
        Seq::empty()
    } else {
        let before = attempts(history.drop_last());
        match history.last() {
            PassEvent::Handled(Some(DatagramEvent::NewConnection(i))) => before.push(i),
            _ => before,
        }
    }
}

/// Whether an event brings something to an open connection: a datagram that is delivered to it,
/// or one that the protocol engine has found to concern it.
pub open spec fn reaches_connection<S, I, P, E>(
    set: crate::connections::ConnectionSetView<S>,
    event: PassEvent<I, P, E>,
) -> bool {
    match event {
        PassEvent::Message(meta, buf) => delivers_any(set, meta, buf),
        PassEvent::Handled(Some(DatagramEvent::ConnectionEvent(_, _))) => true,
        _ => false,
    }
}

/// A batch, as the events that its first `count` messages are.
pub open spec fn batch_events<I, P, E>(
    metas: Seq<RecvMeta>,
    bufs: Seq<&[u8]>,
    count: nat,
) -> Seq<PassEvent<I, P, E>> {
    Seq::new(count, |i: int| PassEvent::Message(metas[i], bufs[i]@))
}

/// Taking in a batch is taking in its messages, one after the other. Of the batch, it matters to
/// the pass whether a datagram of any message in it is delivered to a connection.
pub proof fn law_batch_is_its_messages<S, I, P, E>(
    set: crate::connections::ConnectionSetView<S>,
    history: Seq<PassEvent<I, P, E>>,
    metas: Seq<RecvMeta>,
    bufs: Seq<&[u8]>,
    count: nat,
)
    ensures
        pass_after(set, history).after_batch(set, metas, bufs, count) == pass_after(
            set,
            history + batch_events::<I, P, E>(metas, bufs, count),
        ),
        pass_after(set, history).after_batch(set, metas, bufs, count).received_connection_packet
            <==> pass_after(set, history).received_connection_packet || exists|i: int|
            0 <= i < count && delivers_any(set, #[trigger] metas[i], bufs[i]@),
    decreases count,
{
    let all = history + batch_events::<I, P, E>(metas, bufs, count);
    if count == 0 {
        assert(all =~= history);
    } else {
        law_batch_is_its_messages(set, history, metas, bufs, (count - 1) as nat);
        assert(all.drop_last() =~= history + batch_events::<I, P, E>(
            metas,
            bufs,
            (count - 1) as nat,
        ));
        assert(all.last() == PassEvent::<I, P, E>::Message(metas[count - 1], bufs[count - 1]@));
        if exists|i: int| 0 <= i < count && delivers_any(set, #[trigger] metas[i], bufs[i]@) {
            let i = choose|i: int|
                0 <= i < count && delivers_any(set, #[trigger] metas[i], bufs[i]@);
            assert(i < count - 1 || i == count - 1);
        }
    }
}

/// A pass knows at any time whether something in it has reached a connection.
pub proof fn law_pass_knows_whether_a_connection_was_reached<S, I, P, E>(
    set: crate::connections::ConnectionSetView<S>,
    history: Seq<PassEvent<I, P, E>>,
)
    ensures
        pass_after(set, history).received_connection_packet <==> exists|i: int|
            0 <= i < history.len() && reaches_connection(set, #[trigger] history[i]),
    decreases history.len(),
{
    if history.len() > 0 {
        let before = history.drop_last();
        law_pass_knows_whether_a_connection_was_reached(set, before);
        assert(history.last() == history[history.len() - 1]);
        if exists|i: int| 0 <= i < before.len() && reaches_connection(set, #[trigger] before[i]) {
            let i = choose|i: int|
                0 <= i < before.len() && reaches_connection(set, #[trigger] before[i]);
            assert(history[i] == before[i]);
        }
        if exists|i: int| 0 <= i < history.len() && reaches_connection(set, #[trigger] history[i]) {
            let i = choose|i: int|
                0 <= i < history.len() && reaches_connection(set, #[trigger] history[i]);
            if i < before.len() {
                assert(before[i] == history[i]);
            }
        }
    }
}

/// What a pass reports when `last` ends it, after whatever has happened in it: that a connection
/// was reached, exactly if one was; that there is more to receive, exactly if its time was up; and
/// an error, exactly if the socket has failed. Nothing else ends a pass than these and a socket
/// that has no more messages.
pub proof fn law_pass_reports_what_has_happened<S, I, P, E>(
    set: crate::connections::ConnectionSetView<S>,
    history: Seq<PassEvent<I, P, E>>,
    last: PassEvent<I, P, E>,
)
    ensures
        match pass_after(set, history).result(last) {
            Some(Ok(p)) => {
                &&& p.received_connection_packet <==> exists|i: int|
                    0 <= i < history.len() && reaches_connection(set, #[trigger] history[i])
                &&& p.keep_going <==> last == PassEvent::<I, P, E>::Limit(false)
                &&& !p.keep_going <==> last == PassEvent::<I, P, E>::Polled(RecvPoll::Pending)
            },
            Some(Err(e)) => last == PassEvent::<I, P, E>::Polled(RecvPoll::Failed(e)),
            None => {
                &&& last != PassEvent::<I, P, E>::Limit(false)
                &&& last != PassEvent::<I, P, E>::Polled(RecvPoll::Pending)
                &&& !(last matches PassEvent::Polled(RecvPoll::Failed(_)))
            },
        },
{
    law_pass_knows_whether_a_connection_was_reached(set, history);
}

/// In a pass, attempts to connect are queued in the order in which they come, behind those that
/// wait already. If the endpoint has been closed, none is queued and each is refused.
pub proof fn law_pass_queues_attempts_in_order<I, P, E>(
    queue: Seq<I>,
    closed: bool,
    history: Seq<PassEvent<I, P, E>>,
    attempt: I,
)
    ensures
        queue_after(queue, closed, history) == (if closed {
            queue
        } else {
            queue + attempts(history)
        }),
        datagram_action(closed, Some(DatagramEvent::<I, P>::NewConnection(attempt))) == (
        if closed {
            DatagramAction::<I, P>::Refuse(attempt)
        } else {
            DatagramAction::<I, P>::Done
        }),
    decreases history.len(),
{
    if history.len() == 0 {
        assert(queue + attempts(history) =~= queue);
    } else {
        law_pass_queues_attempts_in_order(queue, closed, history.drop_last(), attempt);
        assert(queue_after(queue, closed, history) =~= (if closed {
            queue
        } else {
            queue + attempts(history)
        }));
    }
}

/// All the bytes of a list of datagrams, one datagram after the other.
pub open spec fn concatenated(parts: Seq<Seq<u8>>) -> Seq<u8>
    decreases parts.len(),
{
    if parts.len() == 0 {
        Seq::empty()
    } else {
        parts[0] + concatenated(parts.skip(1))
    }
}

/// Cutting a message into datagrams loses no bytes and makes none up. Every datagram holds at
/// least one byte and at most a stride, and only the last can hold less than a stride.
pub proof fn law_datagrams_make_up_the_message(data: Seq<u8>, stride: nat)
    requires
        stride > 0,
    ensures
        concatenated(datagrams(data, stride)) == data,
        forall|i: int|
            0 <= i < datagrams(data, stride).len() ==> 0 < (#[trigger] datagrams(
                data,
                stride,
            )[i]).len() <= stride,
        forall|i: int|
            0 <= i < datagrams(data, stride).len() - 1 ==> (#[trigger] datagrams(
                data,
                stride,
            )[i]).len() == stride,
    decreases data.len(),
{
    let parts = datagrams(data, stride);
    if data.len() == 0 {
        assert(concatenated(parts) =~= data);
    } else if data.len() <= stride {
        assert(parts.skip(1) =~= Seq::<Seq<u8>>::empty());
        assert(concatenated(parts.skip(1)) =~= Seq::<u8>::empty());
        assert(concatenated(parts) =~= data);
    } else {
        let rest = data.skip(stride as int);
        law_datagrams_make_up_the_message(rest, stride);
        assert(parts.skip(1) =~= datagrams(rest, stride));
        assert(data.take(stride as int) + rest =~= data);
        assert forall|i: int| 0 < i < parts.len() implies (#[trigger] parts[i]) == datagrams(
            rest,
            stride,
        )[i - 1] by {}
    }
}

/// The receive buffer divides evenly into as many chunks as there are messages in a batch, each
/// with room for a whole message.
pub proof fn law_recv_buf_has_a_chunk_for_each_message(
    max_udp_payload_size: u64,
    max_receive_segments: usize,
    batch_size: usize,
)
    requires
        max_udp_payload_size > 0,
        max_receive_segments > 0,
        batch_size > 0,
    ensures
        ({
            let len = recv_buf_len(max_udp_payload_size, max_receive_segments, batch_size);
            let chunk = len / batch_size as int;
            &&& chunk > 0
            &&& chunk * batch_size == len
            &&& chunk == recv_buf_len(max_udp_payload_size, max_receive_segments, 1)
        }),
{
    let message = recv_buf_len(max_udp_payload_size, max_receive_segments, 1);
    let len = recv_buf_len(max_udp_payload_size, max_receive_segments, batch_size);
    let payload: int = if max_udp_payload_size < 64 * 1024 {
        max_udp_payload_size as int
    } else {
        65536
    };
    assert(message > 0) by (nonlinear_arith)
        requires
            message == payload * max_receive_segments * 1,
            payload > 0,
            max_receive_segments > 0,
    ;
    assert(len == message * batch_size) by (nonlinear_arith)
        requires
            message == payload * max_receive_segments * 1,
            len == payload * max_receive_segments * batch_size,
    ;
    assert(len / batch_size as int == message) by (nonlinear_arith)
        requires
            len == message * batch_size,
            batch_size > 0,
    ;
}

/// The datagrams of a message, one after the other, are what the socket has written of it: the
/// first `len` bytes of the buffer, all of them and no others. Each datagram but the last has a
/// stride of bytes, and none has more or is empty.
pub proof fn law_message_is_all_that_was_written(meta: RecvMeta, buf: Seq<u8>)
    requires
        meta.len <= buf.len(),
        meta.len > 0 ==> meta.stride > 0,
    ensures
        concatenated(message_datagrams(meta, buf)) == buf.take(meta.len as int),
        forall|i: int|
            0 <= i < message_datagrams(meta, buf).len() ==> 0 < (#[trigger] message_datagrams(
                meta,
                buf,
            )[i]).len() <= meta.stride,
        forall|i: int|
            0 <= i < message_datagrams(meta, buf).len() - 1 ==> (#[trigger] message_datagrams(
                meta,
                buf,
            )[i]).len() == meta.stride,
{
    let data = buf.take(meta.len as int);
    if meta.len == 0 {
        assert(concatenated(message_datagrams(meta, buf)) =~= data);
    } else {
        law_datagrams_make_up_the_message(data, meta.stride as nat);
    }
}

/// The bytes of a datagram, wherever it goes.
pub open spec fn routed_data(r: Routed) -> Seq<u8> {
    match r {
        Routed::Deliver(_, d) => buffer::bytes_mut_contents(d.data),
        Routed::Unrouted(b) => buffer::bytes_mut_contents(b),
    }
}

/// A datagram goes to the connection that it is to be delivered to, with its time of arrival, its
/// sender, its congestion notification and all its bytes; or unchanged to the protocol engine, if
/// there is no such connection.
pub proof fn law_routed_datagram_is_complete<S>(
    set: crate::connections::ConnectionSetView<S>,
    now: u64,
    meta: RecvMeta,
    data: Seq<u8>,
    r: Routed,
)
    requires
        is_routed(set, now, meta, data, r),
    ensures
        routed_data(r) == data,
        match r {
            Routed::Deliver(h, d) => {
                &&& set.delivers_to(meta.addr, meta.dst_ip, data) == Some(h.0)
                &&& d.now == now
                &&& d.remote == meta.addr
                &&& meta.ecn is None <==> d.ecn is None
                &&& meta.ecn == Some(UdpEcn::Ect0) <==> d.ecn == Some(EcnCodepoint::Ect0)
                &&& meta.ecn == Some(UdpEcn::Ect1) <==> d.ecn == Some(EcnCodepoint::Ect1)
                &&& meta.ecn == Some(UdpEcn::Ce) <==> d.ecn == Some(EcnCodepoint::Ce)
            },
            Routed::Unrouted(_) => set.delivers_to(meta.addr, meta.dst_ip, data) is None,
        },
{
}

/// No byte of a message is lost: what goes to connections and to the protocol engine, one datagram
/// after the other, is the message as it was written. Where a datagram goes depends on its own
/// bytes and on the addresses of the message.
pub proof fn law_routed_message_is_complete<S>(
    set: crate::connections::ConnectionSetView<S>,
    now: u64,
    meta: RecvMeta,
    buf: Seq<u8>,
    routed: Seq<Routed>,
)
    requires
        meta.len <= buf.len(),
        meta.len > 0 ==> meta.stride > 0,
        is_routed_message(set, now, meta, buf, routed),
    ensures
        concatenated(routed.map_values(|r: Routed| routed_data(r))) == buf.take(meta.len as int),
        forall|i: int|
            0 <= i < routed.len() ==> is_routed(
                set,
                now,
                meta,
                routed_data(#[trigger] routed[i]),
                routed[i],
            ),
        forall|i: int|
            0 <= i < routed.len() - 1 ==> routed_data(#[trigger] routed[i]).len() == meta.stride,
{
    let parts = message_datagrams(meta, buf);
    law_message_is_all_that_was_written(meta, buf);
    assert forall|i: int| 0 <= i < routed.len() implies parts[i] == routed_data(
        #[trigger] routed[i],
    ) by {
        assert(is_routed(set, now, meta, parts[i], routed[i]));
    }
    assert(routed.map_values(|r: Routed| routed_data(r)) =~= parts);
    assert forall|i: int| 0 <= i < routed.len() - 1 implies routed_data(
        #[trigger] routed[i],
    ).len() == meta.stride by {
        assert(message_datagrams(meta, buf)[i] == routed_data(routed[i]));
    }
}

/// A message brings something to a connection exactly if one of its datagrams is routed to one.
pub proof fn law_message_reaches_a_connection_if_a_datagram_does<S>(
    set: crate::connections::ConnectionSetView<S>,
    now: u64,
    meta: RecvMeta,
    buf: Seq<u8>,
    routed: Seq<Routed>,
)
    requires
        is_routed_message(set, now, meta, buf, routed),
    ensures
        delivers_any(set, meta, buf) <==> exists|i: int|
            0 <= i < routed.len() && #[trigger] routed[i] is Deliver,
{
    let parts = message_datagrams(meta, buf);
    if delivers_any(set, meta, buf) {
        let i = choose|i: int|
            0 <= i < message_datagrams(meta, buf).len() && set.delivers_to(
                meta.addr,
                meta.dst_ip,
                #[trigger] message_datagrams(meta, buf)[i],
            ) is Some;
        assert(is_routed(set, now, meta, parts[i], routed[i]));
        assert(routed[i] is Deliver);
    }
    if exists|i: int| 0 <= i < routed.len() && #[trigger] routed[i] is Deliver {
        let i = choose|i: int| 0 <= i < routed.len() && #[trigger] routed[i] is Deliver;
        assert(is_routed(set, now, meta, parts[i], routed[i]));
        assert(message_datagrams(meta, buf)[i] == parts[i]);
    }
}

/// A batch has as many messages as were received, unless there are fewer descriptions or buffers:
/// it is the largest number that exceeds none of the three.
pub proof fn law_batch_is_as_long_as_it_can_be(received: nat, described: nat, buffers: nat, n: nat)
    ensures
        n <= batch_len(received, described, buffers) <==> n <= received && n <= described && n
            <= buffers,
{
}

/// Congestion notifications keep their meaning.
pub proof fn law_congestion_notifications_keep_their_meaning(ecn: UdpEcn)
    ensures
        ecn is Ect0 <==> ecn_of(ecn) is Ect0,
        ecn is Ect1 <==> ecn_of(ecn) is Ect1,
        ecn is Ce <==> ecn_of(ecn) is Ce,
{
}

/// A response goes where the protocol engine says, marked and segmented as it says, and from the
/// address that it says; it holds the bytes at the front of the buffer that the engine has written.
pub proof fn law_response_is_what_the_engine_wrote(r: Response, transmit: Transmit, buffer: Seq<u8>)
    requires
        is_response(r, transmit, buffer),
        transmit.size <= buffer.len(),
    ensures
        r.destination == transmit.destination,
        r.ecn == transmit.ecn,
        r.segment_size == transmit.segment_size,
        r.src_ip == transmit.src_ip,
        r.contents@.len() == transmit.size,
        forall|i: int| 0 <= i < transmit.size ==> #[trigger] r.contents@[i] == buffer[i],
{
}

/// The receive buffer has room for the given number of messages of the given number of datagrams.
/// A datagram has the room that the endpoint accepts, up to 65536 bytes, beyond which more makes no
/// difference.
pub proof fn law_recv_buf_has_room_for_a_batch(payload: u64, segments: usize, batch_size: usize)
    ensures
        payload <= 65536 ==> recv_buf_len(payload, segments, batch_size) == payload * segments
            * batch_size,
        payload >= 65536 ==> recv_buf_len(payload, segments, batch_size) == 65536 * segments
            * batch_size,
{
}

/// How a pass goes on when the socket has answered: all messages that were received are taken in, a
/// reset is passed over, an empty socket ends the pass with what it knows, and a failure ends it
/// with the error. After a batch, the pass ends with what it knows exactly if its time is up.
pub proof fn law_pass_goes_on_until_there_is_a_reason_not_to<E>(pass: PollSocket, n: usize, e: E)
    ensures
        pass.recv_step(RecvPoll::<E>::Received(n)) == RecvStep::<E>::Process(n),
        pass.recv_step(RecvPoll::<E>::ConnectionReset) == RecvStep::<E>::PollAgain,
        pass.recv_step(RecvPoll::Failed(e)) == RecvStep::Return(Err(e)),
        pass.recv_step(RecvPoll::<E>::Pending) matches RecvStep::Return(Ok(p))
            && p.received_connection_packet == pass.received_connection_packet && !p.keep_going,
        pass.limit_step(true) is None,
        pass.limit_step(false) matches Some(p) && p.received_connection_packet
            == pass.received_connection_packet && p.keep_going,
{
}

/// What the protocol engine makes of a datagram is acted on, whether the endpoint has been closed
/// or not: a connection gets the event that is for it, a response is sent as it is, and if the
/// engine makes nothing of it nothing is done. Only these leave the queue of attempts as it is.
pub proof fn law_engine_is_obeyed<I, P>(
    queue: Seq<I>,
    closed: bool,
    handle: ConnectionHandle,
    event: P,
    transmit: Transmit,
    attempt: I,
)
    ensures
        datagram_action(closed, Some(DatagramEvent::<I, P>::ConnectionEvent(handle, event)))
            == DatagramAction::<I, P>::Deliver(handle, event),
        datagram_action(closed, Some(DatagramEvent::<I, P>::Response(transmit)))
            == DatagramAction::<I, P>::Respond(transmit),
        datagram_action(closed, None::<DatagramEvent<I, P>>) == DatagramAction::<I, P>::Done,
        queued(queue, closed, Some(DatagramEvent::<I, P>::ConnectionEvent(handle, event))) == queue,
        queued(queue, closed, Some(DatagramEvent::<I, P>::Response(transmit))) == queue,
        queued(queue, closed, None::<DatagramEvent<I, P>>) == queue,
        queued(queue, false, Some(DatagramEvent::<I, P>::NewConnection(attempt))) == queue + seq![
            attempt,
        ],
        queued(queue, true, Some(DatagramEvent::<I, P>::NewConnection(attempt))) == queue,
{
    assert(queue.push(attempt) =~= queue + seq![attempt]);
}

/// A pass notes that a connection was reached, and never forgets it: by a message of which a
/// datagram is delivered, and by an event of the protocol engine for a connection; by nothing else.
pub proof fn law_pass_notes_what_reaches_a_connection<S, I, P>(
    pass: PollSocket,
    set: crate::connections::ConnectionSetView<S>,
    now: u64,
    meta: RecvMeta,
    buf: Seq<u8>,
    routed: Seq<Routed>,
    event: Option<DatagramEvent<I, P>>,
)
    requires
        is_routed_message(set, now, meta, buf, routed),
    ensures
        pass.after_message(set, meta, buf).received_connection_packet
            <==> pass.received_connection_packet || exists|i: int|
            0 <= i < routed.len() && #[trigger] routed[i] is Deliver,
        pass.after_handled(event).received_connection_packet <==> pass.received_connection_packet
            || (event is Some && event->0 is ConnectionEvent),
{
    law_message_reaches_a_connection_if_a_datagram_does(set, now, meta, buf, routed);
}

/// Every message can be taken in that lies within its buffer and whose datagrams have some size, of
/// whatever length it is.
pub proof fn law_messages_of_any_length_are_taken_in(meta: RecvMeta, buf: Seq<u8>)
    ensures
        is_message(meta, buf) <==> meta.len <= buf.len() && (meta.len == 0 || meta.stride > 0),
{
}

} // verus!
