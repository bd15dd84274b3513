use sint::cookie::CookieHasher;
use sint::harvester::{InboundSegment, IpSource, PacketReceiver, TCP_FLAG_ACK, TCP_FLAG_SYN};
use sint::netinfo::{InterfaceData, Mac};
use sint::output::{hit_line, ipv4_string};
use sint::stats::Stats;

const DEVICE_IP: u32 = 0x0A000002; // 10.0.0.2
const REMOTE: u32 = 0xCB007105; // 203.0.113.5
const LOOPBACK: u32 = 0x7F000001; // 127.0.0.1

fn test_snapshot() -> InterfaceData {
    InterfaceData {
        device_ip: DEVICE_IP,
        device_mac: Mac { b: [0x02, 0, 0, 0, 0, 0x01] },
        gateway_mac: Mac { b: [0x02, 0, 0, 0, 0, 0x02] },
        gateway_ip: 0x0A000001,
    }
}

fn receiver_on(port: u16) -> (CookieHasher, PacketReceiver) {
    let h = CookieHasher::new(32768, 60999);
    let r = PacketReceiver::new(h.duplicate(), port, test_snapshot());
    (h, r)
}

#[test]
fn smoke_scan_single_responsive_target() {
    // A loopback-style round trip: the host 127.0.0.1 answers on port 22
    // with a SYN/ACK aimed back at the cookie port of the probe.
    let (h, receiver) = receiver_on(22);
    let p = h.get_port_cookie(DEVICE_IP, LOOPBACK);
    let seg = InboundSegment {
        src: IpSource::V4(LOOPBACK),
        src_port: 22,
        dst_port: p,
        flags: TCP_FLAG_SYN | TCP_FLAG_ACK,
    };
    let mut stats = Stats::new();
    let hit = receiver.process_segment(&seg, &mut stats);
    assert_eq!(hit, Some(LOOPBACK));
    assert_eq!(stats.received, 1);
    assert_eq!(ipv4_string(LOOPBACK), "127.0.0.1");
    assert_eq!(hit_line(LOOPBACK), b"127.0.0.1\n".to_vec());
}

#[test]
fn cookie_rejection_drops_forged_reply() {
    // Destination port 12345 lies outside the ephemeral range, so it can
    // never be the cookie.
    let (_h, receiver) = receiver_on(22);
    let seg = InboundSegment {
        src: IpSource::V4(REMOTE),
        src_port: 22,
        dst_port: 12345,
        flags: TCP_FLAG_SYN | TCP_FLAG_ACK,
    };
    let mut stats = Stats::new();
    assert_eq!(receiver.process_segment(&seg, &mut stats), None);
    assert_eq!(stats.received, 0);
}

#[test]
fn cookie_acceptance_publishes_exactly_once() {
    let (h, receiver) = receiver_on(22);
    let p = h.get_port_cookie(DEVICE_IP, REMOTE);
    let seg = InboundSegment {
        src: IpSource::V4(REMOTE),
        src_port: 22,
        dst_port: p,
        flags: TCP_FLAG_SYN | TCP_FLAG_ACK,
    };
    let mut stats = Stats::new();
    let mut hits: Vec<u32> = Vec::new();
    if let Some(ip) = receiver.process_segment(&seg, &mut stats) {
        hits.push(ip);
    }
    assert_eq!(hits, vec![REMOTE]);
    assert_eq!(stats.received, 1);
}

#[test]
fn non_syn_ack_is_ignored() {
    let (h, receiver) = receiver_on(22);
    let p = h.get_port_cookie(DEVICE_IP, REMOTE);
    let mut stats = Stats::new();
    // RST alone, and RST with ACK: neither carries SYN and ACK together.
    for flags in [0x04u8, 0x14u8] {
        let seg = InboundSegment {
            src: IpSource::V4(REMOTE),
            src_port: 22,
            dst_port: p,
            flags,
        };
        assert_eq!(receiver.process_segment(&seg, &mut stats), None);
    }
    assert_eq!(stats.received, 0);
}

#[test]
fn wrong_source_port_is_ignored() {
    let (h, receiver) = receiver_on(22);
    let p = h.get_port_cookie(DEVICE_IP, REMOTE);
    let seg = InboundSegment {
        src: IpSource::V4(REMOTE),
        src_port: 23,
        dst_port: p,
        flags: TCP_FLAG_SYN | TCP_FLAG_ACK,
    };
    let mut stats = Stats::new();
    assert_eq!(receiver.process_segment(&seg, &mut stats), None);
    assert_eq!(stats.received, 0);
}

#[test]
fn non_ipv4_source_is_ignored() {
    let (_h, receiver) = receiver_on(22);
    let seg = InboundSegment {
        src: IpSource::V6,
        src_port: 22,
        dst_port: 40000,
        flags: TCP_FLAG_SYN | TCP_FLAG_ACK,
    };
    let mut stats = Stats::new();
    assert_eq!(receiver.process_segment(&seg, &mut stats), None);
    assert_eq!(stats.received, 0);
}

#[test]
fn paused_harvester_is_quiescent() {
    let (h, receiver) = receiver_on(22);
    let p = h.get_port_cookie(DEVICE_IP, REMOTE);
    let seg = InboundSegment {
        src: IpSource::V4(REMOTE),
        src_port: 22,
        dst_port: p,
        flags: TCP_FLAG_SYN | TCP_FLAG_ACK,
    };
    let mut stats = Stats::new();
    assert_eq!(receiver.step(true, &seg, &mut stats), None);
    assert_eq!(stats.received, 0);
    assert_eq!(receiver.step(false, &seg, &mut stats), Some(REMOTE));
    assert_eq!(stats.received, 1);
}
