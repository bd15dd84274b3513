use sint::cookie::CookieHasher;
use sint::emitter::{EmitterAction, PacketSender};
use sint::netinfo::{InterfaceData, Mac};
use sint::stats::Stats;

fn test_snapshot() -> InterfaceData {
    InterfaceData {
        device_ip: 0x0A000002, // 10.0.0.2
        device_mac: Mac { b: [0x02, 0x00, 0x00, 0x00, 0x00, 0x01] },
        gateway_mac: Mac { b: [0x02, 0x00, 0x00, 0x00, 0x00, 0x02] },
        gateway_ip: 0x0A000001,
    }
}

/// One's-complement sum of the 16-bit words of `bytes`, carries folded.
fn ones_sum(words: &[u16]) -> u16 {
    let mut sum: u32 = 0;
    for w in words {
        sum += *w as u32;
    }
    while sum >> 16 != 0 {
        sum = (sum >> 16) + (sum & 0xFFFF);
    }
    sum as u16
}

fn be16_at(f: &[u8], i: usize) -> u16 {
    ((f[i] as u16) << 8) | f[i + 1] as u16
}

#[test]
fn cookie_is_deterministic() {
    let h = CookieHasher::new(32768, 60999);
    let a = h.get_port_cookie(0x0A000002, 0xCB007105);
    let b = h.get_port_cookie(0x0A000002, 0xCB007105);
    assert_eq!(a, b);
    let d = h.duplicate();
    assert_eq!(d.get_port_cookie(0x0A000002, 0xCB007105), a);
}

#[test]
fn cookie_stays_in_range() {
    let h = CookieHasher::new(32768, 60999);
    let mut ip: u32 = 1;
    for _ in 0..200 {
        let tag = h.get_port_cookie(0x0A000002, ip);
        assert!(32768 <= tag && tag <= 60999);
        ip = ip.wrapping_mul(1664525).wrapping_add(1013904223);
    }
    let narrow = CookieHasher::new(5000, 5000);
    assert_eq!(narrow.get_port_cookie(1, 2), 5000);
}

#[test]
fn check_accepts_exactly_the_tag() {
    let h = CookieHasher::new(32768, 60999);
    let tag = h.get_port_cookie(0x0A000002, 0xCB007105);
    assert!(h.check_port_cookie(0x0A000002, 0xCB007105, tag));
    assert!(!h.check_port_cookie(0x0A000002, 0xCB007105, 12345));
}

#[test]
fn emitted_frame_is_54_bytes_with_valid_checksums() {
    let h = CookieHasher::new(32768, 60999);
    let snap = test_snapshot();
    let mut sender = PacketSender::new(h, 22, snap);
    let mut stats = Stats::new();
    match sender.step(false, &mut stats) {
        EmitterAction::Send(f) => {
            assert_eq!(f.len(), 54);
            // Ethernet header
            assert_eq!(&f[0..6], &[0x02, 0, 0, 0, 0, 0x02]);
            assert_eq!(&f[6..12], &[0x02, 0, 0, 0, 0, 0x01]);
            assert_eq!(&f[12..14], &[0x08, 0x00]);
            // The IPv4 header sums to 0xFFFF with its checksum in place.
            let mut ip_words: Vec<u16> = Vec::new();
            let mut i: usize = 14;
            while i < 34 {
                ip_words.push(be16_at(&f, i));
                i += 2;
            }
            assert_eq!(ones_sum(&ip_words), 0xFFFF);
            // The TCP segment with its pseudo-header sums to 0xFFFF too.
            let mut tcp_words: Vec<u16> = Vec::new();
            tcp_words.push(be16_at(&f, 26));
            tcp_words.push(be16_at(&f, 28));
            tcp_words.push(be16_at(&f, 30));
            tcp_words.push(be16_at(&f, 32));
            tcp_words.push(6);
            tcp_words.push(20);
            let mut j: usize = 34;
            while j < 54 {
                tcp_words.push(be16_at(&f, j));
                j += 2;
            }
            assert_eq!(ones_sum(&tcp_words), 0xFFFF);
            // SYN only, window 64240, no options.
            assert_eq!(f[46], 0x50);
            assert_eq!(f[47], 0x02);
            assert_eq!(be16_at(&f, 48), 64240);
            assert_eq!(stats.sent, 1);
        },
        _ => panic!("the first step of a fresh emitter must send"),
    }
}

#[test]
fn emitted_frame_source_port_is_the_cookie() {
    let h = CookieHasher::new(32768, 60999);
    let check = h.duplicate();
    let snap = test_snapshot();
    let mut sender = PacketSender::new(h, 443, snap);
    let mut stats = Stats::new();
    for _ in 0..5 {
        match sender.step(false, &mut stats) {
            EmitterAction::Send(f) => {
                let dst = ((f[30] as u32) << 24) | ((f[31] as u32) << 16) | ((f[32] as u32) << 8)
                    | f[33] as u32;
                let sport = be16_at(&f, 34);
                assert_eq!(sport, check.get_port_cookie(0x0A000002, dst));
                assert_eq!(be16_at(&f, 36), 443);
            },
            _ => panic!("expected a frame"),
        }
    }
    assert_eq!(stats.sent, 5);
}

#[test]
fn tags_depend_on_the_destination() {
    // If the cipher handed its input block back unchanged, the tag for
    // source 0 would be the range's low end for every destination.
    let h = CookieHasher::new(32768, 60999);
    let mut all_low = true;
    let mut ip: u32 = 1;
    for _ in 0..50 {
        if h.get_port_cookie(0, ip) != 32768 {
            all_low = false;
        }
        ip = ip.wrapping_mul(1664525).wrapping_add(1013904223);
    }
    assert!(!all_low, "the tag ignored the encryption");
}

#[test]
fn make_packet_writes_the_addresses() {
    let h = CookieHasher::new(32768, 60999);
    let snap = test_snapshot();
    let sender = PacketSender::new(h, 22, snap);
    let f = sender.make_packet(0xCB007105, 40000, 22);
    assert_eq!(&f[26..30], &[0x0A, 0x00, 0x00, 0x02]);
    assert_eq!(&f[30..34], &[0xCB, 0x00, 0x71, 0x05]);
    assert_eq!(be16_at(&f, 34), 40000);
    assert_eq!(be16_at(&f, 36), 22);
    // Fixed IPv4 fields: version/IHL, total length 40, id 5, TTL 64,
    // protocol 6.
    assert_eq!(f[14], 0x45);
    assert_eq!(be16_at(&f, 16), 40);
    assert_eq!(be16_at(&f, 18), 5);
    assert_eq!(f[22], 64);
    assert_eq!(f[23], 6);
}

#[test]
fn paused_emitter_is_quiescent() {
    let h = CookieHasher::new(32768, 60999);
    let snap = test_snapshot();
    let mut sender = PacketSender::new(h, 22, snap);
    let mut stats = Stats::new();
    let state_before = sender.ipv4_iterator.lcg.state;
    for _ in 0..3 {
        assert!(matches!(sender.step(true, &mut stats), EmitterAction::Wait));
    }
    assert_eq!(stats.sent, 0);
    assert_eq!(sender.ipv4_iterator.lcg.state, state_before);
    assert!(matches!(sender.step(false, &mut stats), EmitterAction::Send(_)));
    assert_eq!(stats.sent, 1);
}
