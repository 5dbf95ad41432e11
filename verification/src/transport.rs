//! Transport parameters.
use vstd::prelude::*;

verus! {

/// An integer that fits QUIC's variable-length encoding: less than 2 to the power of 62.
#[derive(Clone, Copy, Debug, PartialEq, Eq, Structural)]
pub struct VarInt {
    value: u64,
}

/// The first integer that has no variable-length encoding.
pub const VARINT_BOUND: u64 = 0x4000_0000_0000_0000;

/// The error of converting an integer to a [`VarInt`] that is too large for one.
#[derive(Clone, Copy, Debug, PartialEq, Eq, Structural)]
pub struct VarIntBoundsExceeded;

impl View for VarInt {
    type V = u64;

    closed spec fn view(&self) -> u64 {
        self.value
    }
}

impl VarInt {
    #[verifier::type_invariant]
    spec fn in_bounds(self) -> bool {
        self.value < VARINT_BOUND
    }

    /// Every 32-bit integer has an encoding.
    pub fn from_u32(x: u32) -> (r: Self)
        ensures
            r@ == x,
    {
        VarInt { value: x as u64 }
    }

    /// Succeeds exactly if `x` has an encoding.
    pub fn from_u64(x: u64) -> (r: Result<Self, VarIntBoundsExceeded>)
        ensures
            match r {
                Ok(v) => v@ == x && x <= 0x3fff_ffff_ffff_ffff,
                Err(_) => x > 0x3fff_ffff_ffff_ffff,
            },
    {
        if x < VARINT_BOUND {
            Ok(VarInt { value: x })
        } else {
            Err(VarIntBoundsExceeded)
        }
    }

    /// The integer itself.
    pub fn into_inner(self) -> (r: u64)
        ensures
            r == self@,
            r <= 0x3fff_ffff_ffff_ffff,
    {
        proof {
            use_type_invariant(&self);
        }
        self.value
    }
}

/// How the peer is asked to acknowledge packets.
#[derive(Clone, Copy, Debug)]
pub struct AckFrequencyConfig {
    /// How many ack-eliciting packets the peer may receive before it must acknowledge.
    pub ack_eliciting_threshold: VarInt,
}

/// The transport parameters that differ from the protocol engine's defaults.
#[derive(Clone, Copy, Debug)]
pub struct TransportConfig {
    /// The UDP payload size to start with, in bytes.
    pub initial_mtu: u16,
    /// How many unidirectional streams the peer may have open at once.
    pub max_concurrent_uni_streams: VarInt,
    /// How many bytes the peer may send on one stream without acknowledgement.
    pub stream_receive_window: VarInt,
    /// How many bytes the peer may send in total without acknowledgement.
    pub receive_window: VarInt,
    /// How many bytes to send in total without acknowledgement.
    pub send_window: u64,
    /// How the peer is asked to acknowledge packets, if at all.
    pub ack_frequency_config: Option<AckFrequencyConfig>,
}

/// The transport parameters of a benchmark run: the given MTU and stream limit, with windows
/// wide enough (64 MiB for a stream, 256 MiB for a connection) and acknowledgements rare enough
/// (one for ten packets) not to be what limits it.
pub fn make_transport_config(initial_mtu: u16, max_concurrent_uni_streams: u64) -> (r:
    TransportConfig)
    requires
        max_concurrent_uni_streams < VARINT_BOUND,
    ensures
        r.initial_mtu == initial_mtu,
        r.max_concurrent_uni_streams@ == max_concurrent_uni_streams,
        r.stream_receive_window@ == 64 * 1024 * 1024,
        r.receive_window@ == 256 * 1024 * 1024,
        r.send_window == 256 * 1024 * 1024,
        r.ack_frequency_config matches Some(acks) && acks.ack_eliciting_threshold@ == 10,
{
    let uni_streams = VarInt::from_u64(max_concurrent_uni_streams).unwrap();
    TransportConfig {
        initial_mtu,
        max_concurrent_uni_streams: uni_streams,
        stream_receive_window: VarInt::from_u32(64u32 * 1024 * 1024),
        receive_window: VarInt::from_u32(256u32 * 1024 * 1024),
        send_window: 256 * 1024 * 1024,
        ack_frequency_config: Some(
            AckFrequencyConfig { ack_eliciting_threshold: VarInt::from_u32(10) },
        ),
    }
}

/// An integer has a variable-length encoding exactly if its two top bits, which hold the length of
/// the encoding there, are clear.
pub proof fn law_varints_leave_the_top_bits_clear(x: u64)
    ensures
        x < VARINT_BOUND <==> x & 0xc000_0000_0000_0000 == 0,
{
    assert(x < 0x4000_0000_0000_0000u64 <==> x & 0xc000_0000_0000_0000u64 == 0) by (bit_vector);
}

} // verus!
