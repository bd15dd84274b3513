//! The probe frame: a 54-byte Ethernet II / IPv4 / TCP SYN segment.
//!
//! Every probe is forged at layer 2, so the frame layout is fixed down
//! to the byte: Ethernet header to the gateway, a 20-byte IPv4 header
//! with no options, a 20-byte TCP header with no options, SYN only, no
//! payload. Both Internet checksums are computed here: the one's
//! complement of the folded 16-bit word sum, the checksum word itself
//! excluded from the sum.

use vstd::prelude::*;
use vstd::arithmetic::div_mod::{lemma_breakdown, lemma_div_denominator, lemma_fundamental_div_mod};
use crate::netinfo::spec_octet;

verus! {

/// One folding step of a checksum accumulator: carries above bit 15 are
/// added back into the low 16 bits.
pub open spec fn fold1(x: int) -> int {
    x / 0x10000 + x % 0x10000
}

/// The Internet checksum of a word sum: fold the carries (twice reaches
/// a fixed point for any 32-bit sum) and take the one's complement.
pub open spec fn complement16(x: int) -> int {
    0xFFFF - fold1(fold1(x))
}

/// Folding twice lands in a single 16-bit word.
pub proof fn lemma_fold_bound(x: int)
    requires
        0 <= x < 0x1_0000_0000,
    ensures
        0 <= fold1(fold1(x)) <= 0xFFFF,
{
    let q = x / 0x10000;
    let r = x % 0x10000;
    assert(0 <= r < 0x10000);
    assert(q <= 0xFFFF);
    assert(0 <= q);
    let f = q + r;
    if f >= 0x10000 {
        assert(f <= 0x1FFFE);
        assert(f / 0x10000 == 1 && f % 0x10000 == f - 0x10000) by {
            lemma_fundamental_div_mod(f, 0x10000);
            assert(f == 0x10000 * (f / 0x10000) + f % 0x10000);
        };
    }
}

/// The 16-bit word sum of the probe's IPv4 header, checksum word
/// excluded: five constant words (version/IHL/DSCP, total length 40,
/// identification 5, no flags or fragment, TTL 64 with protocol TCP)
/// and the two words of each address.
pub open spec fn ip_words(src: u32, dst: u32) -> int {
    0x4500 + 0x0028 + 0x0005 + 0x0000 + 0x4006 + src / 0x10000 + src % 0x10000 + dst / 0x10000
        + dst % 0x10000
}

/// The probe's IPv4 header checksum.
pub open spec fn spec_ipv4_checksum(src: u32, dst: u32) -> u16 {
    complement16(ip_words(src, dst)) as u16
}

/// The 16-bit word sum for the probe's TCP checksum: the IPv4
/// pseudo-header (addresses, protocol 6, TCP length 20) and the TCP
/// header words, checksum word excluded. Sequence and acknowledgement
/// numbers and the urgent pointer are zero; data offset 5 with SYN gives
/// 0x5002; the window is 64240.
pub open spec fn tcp_words(src: u32, dst: u32, sport: u16, dport: u16) -> int {
    src / 0x10000 + src % 0x10000 + dst / 0x10000 + dst % 0x10000 + 6 + 20 + sport + dport
        + 0x5002 + 0xFAF0
}

/// The probe's TCP checksum over the IPv4 pseudo-header.
pub open spec fn spec_tcp_checksum(src: u32, dst: u32, sport: u16, dport: u16) -> u16 {
    complement16(tcp_words(src, dst, sport, dport)) as u16
}

/// High byte of a 16-bit word.
pub open spec fn hi8(x: u16) -> u8 {
    (x / 256) as u8
}

/// Low byte of a 16-bit word.
pub open spec fn lo8(x: u16) -> u8 {
    (x % 256) as u8
}

/// The 14-byte Ethernet II header: destination gateway, source device,
/// ethertype IPv4.
pub open spec fn eth_bytes(gw: Seq<u8>, dev: Seq<u8>) -> Seq<u8> {
    seq![
        gw[0], gw[1], gw[2], gw[3], gw[4], gw[5],
        dev[0], dev[1], dev[2], dev[3], dev[4], dev[5],
        0x08u8, 0x00u8,
    ]
}

/// The 20-byte IPv4 header of a probe.
pub open spec fn ip_bytes(src: u32, dst: u32) -> Seq<u8> {
    let ipck = spec_ipv4_checksum(src, dst);
    seq![
        0x45u8, 0x00u8,
        0x00u8, 0x28u8,
        0x00u8, 0x05u8,
        0x00u8, 0x00u8,
        0x40u8, 0x06u8,
        hi8(ipck), lo8(ipck),
        spec_octet(src, 0), spec_octet(src, 1), spec_octet(src, 2), spec_octet(src, 3),
        spec_octet(dst, 0), spec_octet(dst, 1), spec_octet(dst, 2), spec_octet(dst, 3),
    ]
}

/// The 20-byte TCP header of a probe.
pub open spec fn tcp_bytes(src: u32, dst: u32, sport: u16, dport: u16) -> Seq<u8> {
    let tcpck = spec_tcp_checksum(src, dst, sport, dport);
    seq![
        hi8(sport), lo8(sport),
        hi8(dport), lo8(dport),
        0x00u8, 0x00u8, 0x00u8, 0x00u8,
        0x00u8, 0x00u8, 0x00u8, 0x00u8,
        0x50u8, 0x02u8,
        0xFAu8, 0xF0u8,
        hi8(tcpck), lo8(tcpck),
        0x00u8, 0x00u8,
    ]
}

/// The entire 54-byte probe frame.
pub open spec fn probe_frame(
    gw: Seq<u8>,
    dev: Seq<u8>,
    src: u32,
    dst: u32,
    sport: u16,
    dport: u16,
) -> Seq<u8> {
    eth_bytes(gw, dev) + ip_bytes(src, dst) + tcp_bytes(src, dst, sport, dport)
}

/// The big-endian 16-bit word at byte offset `i` of a frame.
pub open spec fn be16(f: Seq<u8>, i: int) -> int {
    (f[i] as int) * 256 + (f[i + 1] as int)
}

/// The word sum of a frame's IPv4 header as it stands on the wire,
/// checksum word (offset 24) excluded.
pub open spec fn ip_header_sum(f: Seq<u8>) -> int {
    be16(f, 14) + be16(f, 16) + be16(f, 18) + be16(f, 20) + be16(f, 22) + be16(f, 26) + be16(
        f,
        28,
    ) + be16(f, 30) + be16(f, 32)
}

/// The word sum of a frame's TCP segment and IPv4 pseudo-header as it
/// stands on the wire, checksum word (offset 50) excluded.
pub open spec fn tcp_seg_sum(f: Seq<u8>) -> int {
    be16(f, 26) + be16(f, 28) + be16(f, 30) + be16(f, 32) + 6 + 20 + be16(f, 34) + be16(f, 36)
        + be16(f, 38) + be16(f, 40) + be16(f, 42) + be16(f, 44) + be16(f, 46) + be16(f, 48) + be16(
        f,
        52,
    )
}

/// A well-formed probe frame: 54 bytes whose IPv4 header checksum and
/// TCP checksum both match the one's-complement sum of the frame's own
/// bytes.
pub open spec fn frame_wf(f: Seq<u8>) -> bool {
    &&& f.len() == 54
    &&& be16(f, 24) == complement16(ip_header_sum(f))
    &&& be16(f, 50) == complement16(tcp_seg_sum(f))
}

/// The TCP source port a frame carries.
pub open spec fn frame_tcp_src_port(f: Seq<u8>) -> int {
    be16(f, 34)
}

/// The IPv4 destination address a frame carries.
pub open spec fn frame_ip_dst(f: Seq<u8>) -> int {
    (f[30] as int) * 0x0100_0000 + (f[31] as int) * 0x0001_0000 + (f[32] as int) * 0x0000_0100 + (
    f[33] as int)
}

/// The four octets of an address recombine into its 16-bit halves and
/// into the address itself.
pub proof fn lemma_octet_words(x: u32)
    ensures
        (spec_octet(x, 0) as int) * 256 + (spec_octet(x, 1) as int) == x / 0x10000,
        (spec_octet(x, 2) as int) * 256 + (spec_octet(x, 3) as int) == x % 0x10000,
        (spec_octet(x, 0) as int) * 0x0100_0000 + (spec_octet(x, 1) as int) * 0x0001_0000 + (
        spec_octet(x, 2) as int) * 0x0000_0100 + (spec_octet(x, 3) as int) == x,
{
    let y = x as int / 0x10000;
    lemma_div_denominator(x as int, 0x10000, 0x100);
    assert(x as int / 0x0100_0000 == y / 0x100);
    lemma_fundamental_div_mod(y, 0x100);
    lemma_breakdown(x as int, 0x100, 0x100);
    assert(x as int % 0x10000 == 0x100 * ((x as int / 0x100) % 0x100) + x as int % 0x100);
    lemma_fundamental_div_mod(x as int, 0x10000);
}

/// Compute the probe's IPv4 header checksum.
pub fn ipv4_header_checksum(src: u32, dst: u32) -> (r: u16)
    ensures
        r == spec_ipv4_checksum(src, dst),
{
    let sum: u32 = 0x4500 + 0x0028 + 0x0005 + 0x0000 + 0x4006 + src / 0x10000 + src % 0x10000
        + dst / 0x10000 + dst % 0x10000;
    let f1: u32 = sum / 0x10000 + sum % 0x10000;
    let f2: u32 = f1 / 0x10000 + f1 % 0x10000;
    proof {
        lemma_fold_bound(ip_words(src, dst));
    }
    (0xFFFF - f2) as u16
}

/// Compute the probe's TCP checksum over the IPv4 pseudo-header.
pub fn tcp_checksum(src: u32, dst: u32, sport: u16, dport: u16) -> (r: u16)
    ensures
        r == spec_tcp_checksum(src, dst, sport, dport),
{
    let sum: u32 = src / 0x10000 + src % 0x10000 + dst / 0x10000 + dst % 0x10000 + 6 + 20
        + sport as u32 + dport as u32 + 0x5002 + 0xFAF0;
    let f1: u32 = sum / 0x10000 + sum % 0x10000;
    let f2: u32 = f1 / 0x10000 + f1 % 0x10000;
    proof {
        lemma_fold_bound(tcp_words(src, dst, sport, dport));
    }
    (0xFFFF - f2) as u16
}

/// Build the complete probe frame for one destination.
pub fn build_probe_frame(
    gateway_mac: &crate::netinfo::Mac,
    device_mac: &crate::netinfo::Mac,
    src_ip: u32,
    dst_ip: u32,
    src_port: u16,
    dst_port: u16,
) -> (r: Vec<u8>)
    ensures
        r@ == probe_frame(gateway_mac.b@, device_mac.b@, src_ip, dst_ip, src_port, dst_port),
        r@.len() == 54,
{
    let ipck = ipv4_header_checksum(src_ip, dst_ip);
    let tcpck = tcp_checksum(src_ip, dst_ip, src_port, dst_port);
    let mut f: Vec<u8> = Vec::new();
    f.push(gateway_mac.b[0]);
    f.push(gateway_mac.b[1]);
    f.push(gateway_mac.b[2]);
    f.push(gateway_mac.b[3]);
    f.push(gateway_mac.b[4]);
    f.push(gateway_mac.b[5]);
    f.push(device_mac.b[0]);
    f.push(device_mac.b[1]);
    f.push(device_mac.b[2]);
    f.push(device_mac.b[3]);
    f.push(device_mac.b[4]);
    f.push(device_mac.b[5]);
    f.push(0x08);
    f.push(0x00);
    proof {
        assert(f@ =~= eth_bytes(gateway_mac.b@, device_mac.b@));
    }
    let mut ip: Vec<u8> = Vec::new();
    ip.push(0x45);
    ip.push(0x00);
    ip.push(0x00);
    ip.push(0x28);
    ip.push(0x00);
    ip.push(0x05);
    ip.push(0x00);
    ip.push(0x00);
    ip.push(0x40);
    ip.push(0x06);
    ip.push((ipck / 256) as u8);
    ip.push((ipck % 256) as u8);
    ip.push((src_ip / 0x0100_0000) as u8);
    ip.push(((src_ip / 0x0001_0000) % 256) as u8);
    ip.push(((src_ip / 0x0000_0100) % 256) as u8);
    ip.push((src_ip % 256) as u8);
    ip.push((dst_ip / 0x0100_0000) as u8);
    ip.push(((dst_ip / 0x0001_0000) % 256) as u8);
    ip.push(((dst_ip / 0x0000_0100) % 256) as u8);
    ip.push((dst_ip % 256) as u8);
    proof {
        assert(ip@ =~= ip_bytes(src_ip, dst_ip));
    }
    let mut tcp: Vec<u8> = Vec::new();
    tcp.push((src_port / 256) as u8);
    tcp.push((src_port % 256) as u8);
    tcp.push((dst_port / 256) as u8);
    tcp.push((dst_port % 256) as u8);
    tcp.push(0x00);
    tcp.push(0x00);
    tcp.push(0x00);
    tcp.push(0x00);
    tcp.push(0x00);
    tcp.push(0x00);
    tcp.push(0x00);
    tcp.push(0x00);
    tcp.push(0x50);
    tcp.push(0x02);
    tcp.push(0xFA);
    tcp.push(0xF0);
    tcp.push((tcpck / 256) as u8);
    tcp.push((tcpck % 256) as u8);
    tcp.push(0x00);
    tcp.push(0x00);
    proof {
        assert(tcp@ =~= tcp_bytes(src_ip, dst_ip, src_port, dst_port));
    }
    f.append(&mut ip);
    f.append(&mut tcp);
    f
}

/// Every probe frame is well formed: 54 bytes, and both checksum fields
/// agree with the one's-complement sums over the frame's own bytes. The
/// frame also carries exactly the source port and the destination
/// address it was built for.
#[verifier::rlimit(100)]
pub proof fn lemma_probe_frame_wf(
    gw: Seq<u8>,
    dev: Seq<u8>,
    src: u32,
    dst: u32,
    sport: u16,
    dport: u16,
)
    requires
        gw.len() == 6,
        dev.len() == 6,
    ensures
        frame_wf(probe_frame(gw, dev, src, dst, sport, dport)),
        frame_tcp_src_port(probe_frame(gw, dev, src, dst, sport, dport)) == sport,
        frame_ip_dst(probe_frame(gw, dev, src, dst, sport, dport)) == dst,
{
    let f = probe_frame(gw, dev, src, dst, sport, dport);
    let ipck = spec_ipv4_checksum(src, dst);
    let tcpck = spec_tcp_checksum(src, dst, sport, dport);
    lemma_octet_words(src);
    lemma_octet_words(dst);
    assert(ip_header_sum(f) == ip_words(src, dst));
    assert(tcp_seg_sum(f) == tcp_words(src, dst, sport, dport));
    lemma_fold_bound(ip_words(src, dst));
    lemma_fold_bound(tcp_words(src, dst, sport, dport));
    lemma_fundamental_div_mod(ipck as int, 256);
    lemma_fundamental_div_mod(tcpck as int, 256);
    assert(be16(f, 24) == ipck);
    assert(be16(f, 50) == tcpck);
    lemma_fundamental_div_mod(sport as int, 256);
    assert(be16(f, 34) == sport);
}

} // verus!
