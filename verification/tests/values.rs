use quinn_endpoint::addr::{
    bind_addr_for, ensure_ipv6, socket_setup, IpAddr, SocketAddr, SocketAddrV4, SocketAddrV6,
};
use quinn_endpoint::load::{handshake_permits, makes_no_connections, Latencies, Pace, Schedule};
use quinn_endpoint::size::{parse_byte_size, ParseSizeError};
use quinn_endpoint::transport::{make_transport_config, VarInt, VarIntBoundsExceeded};
use std::num::IntErrorKind;
use std::str::FromStr;

const V4: SocketAddr = SocketAddr::V4(SocketAddrV4 { ip: 0xc0a8_0102, port: 443 });
const V6: SocketAddr =
    SocketAddr::V6(SocketAddrV6 { ip: 0x2001 << 112, port: 8443, flowinfo: 5, scope_id: 6 });

#[test]
fn ipv4_is_mapped_into_ipv6() {
    let mapped = ensure_ipv6(V4);
    assert_eq!(mapped.ip, 0xffff_c0a8_0102);
    let octets = mapped.ip.to_be_bytes();
    assert_eq!(&octets[10..], &[0xff, 0xff, 192, 168, 1, 2]);
    assert_eq!((mapped.port, mapped.flowinfo, mapped.scope_id), (443, 0, 0));
    assert_eq!(SocketAddr::V6(ensure_ipv6(V6)), V6);
    assert_eq!(ensure_ipv6(SocketAddr::V6(mapped)), mapped);
}

#[test]
fn bind_address_is_the_wildcard_of_the_family() {
    assert_eq!(bind_addr_for(V4), SocketAddr::V4(SocketAddrV4 { ip: 0, port: 0 }));
    assert_eq!(
        bind_addr_for(V6),
        SocketAddr::V6(SocketAddrV6 { ip: 0, port: 0, flowinfo: 0, scope_id: 0 })
    );
}

#[test]
fn only_ipv6_sockets_are_dual_stack() {
    let four = socket_setup(V4);
    assert!(!four.ipv6 && !four.dual_stack);
    assert_eq!(four.bind, V4);
    let six = socket_setup(V6);
    assert!(six.ipv6 && six.dual_stack);
    assert_eq!(six.bind, V6);
}

#[test]
fn keys_tell_addresses_apart() {
    assert_eq!(V4.key(), (false, 0xc0a8_0102, 443, 0, 0));
    assert_eq!(V6.key(), (true, 0x2001 << 112, 8443, 5, 6));
    let low_v6 =
        SocketAddr::V6(SocketAddrV6 { ip: 0xc0a8_0102, port: 443, flowinfo: 0, scope_id: 0 });
    assert_ne!(V4.key(), low_v6.key());
    assert_ne!(IpAddr::V4(1).key(), IpAddr::V6(1).key());
    assert!(V6.is_ipv6() && !V4.is_ipv6());
}

#[test]
fn byte_sizes() {
    assert_eq!(parse_byte_size("0"), Ok(0));
    assert_eq!(parse_byte_size("4096"), Ok(4096));
    assert_eq!(parse_byte_size("64k"), Ok(65536));
    assert_eq!(parse_byte_size("3M"), Ok(3 * 1024 * 1024));
    assert_eq!(parse_byte_size("2G"), Ok(2 * 1024 * 1024 * 1024));
    assert_eq!(parse_byte_size("1T"), Ok(1024 * 1024 * 1024 * 1024));
    assert_eq!(parse_byte_size(" \t1M\n"), Ok(1024 * 1024));
    assert_eq!(parse_byte_size("\u{2003}+7k\u{3000}"), Ok(7 * 1024));
    assert_eq!(parse_byte_size("18446744073709551615"), Ok(u64::MAX));
}

#[test]
fn byte_sizes_that_are_none() {
    assert_eq!(parse_byte_size(""), Err(ParseSizeError::Empty));
    assert_eq!(parse_byte_size("  "), Err(ParseSizeError::Empty));
    assert_eq!(parse_byte_size("k"), Err(ParseSizeError::Empty));
    assert_eq!(parse_byte_size("1K"), Err(ParseSizeError::InvalidDigit));
    assert_eq!(parse_byte_size("10 k"), Err(ParseSizeError::InvalidDigit));
    assert_eq!(parse_byte_size("-1"), Err(ParseSizeError::InvalidDigit));
    assert_eq!(parse_byte_size("+"), Err(ParseSizeError::InvalidDigit));
    assert_eq!(parse_byte_size("1kM"), Err(ParseSizeError::InvalidDigit));
    assert_eq!(parse_byte_size("18446744073709551616"), Err(ParseSizeError::PosOverflow));
}

#[test]
fn numbers_are_read_as_the_standard_library_reads_them() {
    let texts = [
        "0", "00012", "+0", "+", "-", "-0", "++1", "1+", "12a", "a12", "1_000", "", "+18446744073709551615",
        "18446744073709551616", "99999999999999999999x", "x99999999999999999999",
        "9999999999999999999999", "1844674407370955161", "18446744073709551619", "\u{0663}", "1.5",
    ];
    for text in texts {
        let expected = u64::from_str(text).map_err(|e| match e.kind() {
            IntErrorKind::Empty => ParseSizeError::Empty,
            IntErrorKind::InvalidDigit => ParseSizeError::InvalidDigit,
            IntErrorKind::PosOverflow => ParseSizeError::PosOverflow,
            _ => panic!("unexpected kind"),
        });
        assert_eq!(parse_byte_size(text), expected, "{text:?}");
    }
}

#[test]
fn whitespace_is_what_the_standard_library_takes_it_for() {
    for u in 0..=0x10ffffu32 {
        if let Some(c) = char::from_u32(u) {
            let text = format!("{c}5{c}");
            let expected = text.trim() == "5";
            if c.is_ascii_digit() || matches!(c, 'k' | 'M' | 'G' | 'T' | '+') {
                continue;
            }
            assert_eq!(parse_byte_size(&text) == Ok(5), expected, "{u:x}");
        }
    }
}

#[test]
fn varints_are_bounded() {
    assert_eq!(VarInt::from_u64(0).unwrap().into_inner(), 0);
    assert_eq!(VarInt::from_u64((1 << 62) - 1).unwrap().into_inner(), (1 << 62) - 1);
    assert_eq!(VarInt::from_u64(1 << 62), Err(VarIntBoundsExceeded));
    assert_eq!(VarInt::from_u32(u32::MAX).into_inner(), u32::MAX as u64);
}

#[test]
fn transport_config_of_a_benchmark() {
    let config = make_transport_config(1200, 16);
    assert_eq!(config.initial_mtu, 1200);
    assert_eq!(config.max_concurrent_uni_streams.into_inner(), 16);
    assert_eq!(config.stream_receive_window.into_inner(), 67_108_864);
    assert_eq!(config.receive_window.into_inner(), 268_435_456);
    assert_eq!(config.send_window, 268_435_456);
    assert_eq!(config.ack_frequency_config.unwrap().ack_eliciting_threshold.into_inner(), 10);
}

#[test]
fn idle_runs_and_limits() {
    assert!(makes_no_connections(0, 4));
    assert!(makes_no_connections(4, 0));
    assert!(!makes_no_connections(1, 1));
    assert_eq!(handshake_permits(0), None);
    assert_eq!(handshake_permits(3), Some(3));
}

#[test]
fn schedule_of_a_worker() {
    // 4 workers share an interval of 1 s; the third one starts after half of it.
    let mut s = Schedule::new(1_000_000_000, 2, 4, 2);
    assert_eq!(s.next_attempt, 500_000_000);
    assert_eq!(s.stop_at, 2_000_000_000);
    assert_eq!(s.poll(100), Pace::AttemptAfter(499_999_900));
    assert_eq!(s.poll(500_000_000), Pace::AttemptAfter(0));
    assert_eq!(s.poll(700_000_000), Pace::AttemptAfter(0));
    s.advance();
    assert_eq!(s.next_attempt, 1_500_000_000);
    s.advance();
    assert_eq!(s.poll(0), Pace::Finished);
    assert_eq!(Schedule::new(1_000_000_000, 1, 4, 0).next_attempt, 0);
    // Only 64 bits of the delay count.
    assert_eq!(Schedule::new(1 << 66, 1, 2, 1).next_attempt, 0);
    assert_eq!(Schedule::new((1 << 66) + 2, 1, 2, 1).next_attempt, 1);
}

#[test]
fn latencies_are_counted_and_sorted() {
    let l = Latencies::collect(vec![vec![5, 1], vec![], vec![9, 1, 3]]);
    assert_eq!(l.connections, 5);
    assert_eq!(l.sorted, vec![1, 1, 3, 5, 9]);
    assert_eq!(l.percentile(0, 100), 1);
    assert_eq!(l.percentile(50, 100), 3);
    assert_eq!(l.percentile(1, 1), 9);
    assert_eq!(l.max(), 9);
    let none = Latencies::collect(vec![vec![]]);
    assert_eq!((none.connections, none.percentile(99, 100), none.max()), (0, 0, 0));
}

#[test]
fn half_way_between_two_latencies_is_the_later() {
    let two = Latencies::collect(vec![vec![10, 20]]);
    assert_eq!(two.percentile(1, 2), 20);
    assert_eq!(two.percentile(49, 100), 10);
    let four = Latencies::collect(vec![vec![10, 20, 30, 40]]);
    assert_eq!(four.percentile(50, 100), 30);
}

#[test]
fn ranks_are_those_of_floating_point() {
    let quantiles =
        [(0, 0.0), (1, 0.01), (25, 0.25), (50, 0.50), (90, 0.90), (99, 0.99), (100, 1.0)];
    for (percent, q) in quantiles {
        for len in 1..1500usize {
            let l = Latencies::collect(vec![(0..len as u128).collect()]);
            let rank = ((len - 1) as f64 * q).round() as u128;
            assert_eq!(l.percentile(percent, 100), rank, "{percent} of {len}");
        }
    }
}

#[test]
fn attempts_are_made_while_due() {
    // Due after 500, 1500 and 2500 ms; the run stops after 2500 ms.
    let mut s = Schedule { next_attempt: 500, stop_at: 2500, interval: 1000 };
    let mut made = Vec::new();
    let mut now = 0;
    while let Pace::AttemptAfter(wait) = s.poll(now) {
        now += wait;
        made.push(now);
        // The first attempt takes longer than an interval, so the second is late.
        now += 1200;
        s.advance();
    }
    assert_eq!(made, vec![500, 1700]);
}
