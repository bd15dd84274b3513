//! The response harvester.
//!
//! The kernel hands the shell every inbound TCP segment; the shell hands
//! each one here as plain values. The filter chain decides publication:
//! the source must be IPv4, the source port must be the scanned port,
//! SYN and ACK must both be set, and the destination port must carry the
//! cookie tag of the remote address. Only a segment that passes all four
//! becomes a hit and advances the received counter.

use vstd::prelude::*;
use crate::cookie::{CookieHasher, port_tag};
use crate::netinfo::InterfaceData;
use crate::stats::Stats;

verus! {

/// TCP SYN flag bit.
pub const TCP_FLAG_SYN: u8 = 0x02;

/// TCP ACK flag bit.
pub const TCP_FLAG_ACK: u8 = 0x10;

/// Where an inbound segment came from.
pub enum IpSource {
    V4(u32),
    V6,
}

/// One inbound TCP segment, reduced to the fields the filter reads.
pub struct InboundSegment {
    pub src: IpSource,
    pub src_port: u16,
    pub dst_port: u16,
    pub flags: u8,
}

/// The admission rule: the address published for a segment, if any.
/// A hit is the segment's IPv4 source address, and only ever that, and
/// only when the scanned port answered with SYN and ACK to the cookie
/// port of that very address.
pub open spec fn spec_admit(
    key: Seq<u8>,
    low: u16,
    high: u16,
    device_ip: u32,
    port: u16,
    seg: InboundSegment,
) -> Option<u32> {
    match seg.src {
        IpSource::V4(ip) => {
            if seg.src_port == port && seg.flags & TCP_FLAG_SYN == TCP_FLAG_SYN && seg.flags
                & TCP_FLAG_ACK == TCP_FLAG_ACK && seg.dst_port == port_tag(
                key,
                low,
                high,
                device_ip,
                ip,
            ) {
                Option::Some(ip)
            } else {
                Option::None
            }
        },
        IpSource::V6 => Option::None,
    }
}

pub struct PacketReceiver {
    pub cookie_hasher: CookieHasher,
    pub interface_data: InterfaceData,
    pub port: u16,
}

impl PacketReceiver {
    /// A harvester ready to work: its authenticator is usable.
    pub open spec fn wf(&self) -> bool {
        self.cookie_hasher.wf()
    }

    pub fn new(cookie_hasher: CookieHasher, port: u16, interface_data: InterfaceData) -> (r: Self)
        requires
            cookie_hasher.wf(),
        ensures
            r.wf(),
            r.cookie_hasher == cookie_hasher,
            r.interface_data == interface_data,
            r.port == port,
    {
        PacketReceiver { cookie_hasher, interface_data, port }
    }

    /// Run one segment through the filter chain. The result is exactly
    /// what the admission rule publishes; the received counter advances
    /// by one on a hit and not at all otherwise, and the sent counter
    /// never moves here.
    pub fn process_segment(&self, seg: &InboundSegment, stats: &mut Stats) -> (r: Option<u32>)
        requires
            self.wf(),
            old(stats).received < u64::MAX,
        ensures
            r == spec_admit(
                self.cookie_hasher.spec_key(),
                self.cookie_hasher.spec_low(),
                self.cookie_hasher.spec_high(),
                self.interface_data.device_ip,
                self.port,
                *seg,
            ),
            r is Some ==> final(stats).received == old(stats).received + 1 && final(stats).sent
                == old(stats).sent,
            r is None ==> *final(stats) == *old(stats),
    {
        let src_ip = match seg.src {
            IpSource::V4(ip) => ip,
            IpSource::V6 => { return None; },
        };
        if seg.src_port != self.port {
            return None;
        }
        if !(seg.flags & TCP_FLAG_SYN == TCP_FLAG_SYN && seg.flags & TCP_FLAG_ACK == TCP_FLAG_ACK) {
            return None;
        }
        if self.cookie_hasher.check_port_cookie(
            self.interface_data.device_ip,
            src_ip,
            seg.dst_port,
        ) {
            stats.record_received();
            Some(src_ip)
        } else {
            None
        }
    }

    /// One iteration of the receive loop. While paused nothing is read
    /// and no counter advances; when running, the segment the shell read
    /// goes through the filter chain.
    pub fn step(&self, paused: bool, seg: &InboundSegment, stats: &mut Stats) -> (r: Option<u32>)
        requires
            self.wf(),
            old(stats).received < u64::MAX,
        ensures
            paused ==> r is None && *final(stats) == *old(stats),
            !paused ==> r == spec_admit(
                self.cookie_hasher.spec_key(),
                self.cookie_hasher.spec_low(),
                self.cookie_hasher.spec_high(),
                self.interface_data.device_ip,
                self.port,
                *seg,
            ),
            final(stats).sent == old(stats).sent,
            r is Some ==> final(stats).received == old(stats).received + 1,
            r is None ==> *final(stats) == *old(stats),
    {
        if paused {
            return None;
        }
        self.process_segment(seg, stats)
    }
}

/// Harvester admission rule: whatever the kernel delivers, a published
/// hit is IPv4, carries SYN and ACK, answers from the scanned port, and
/// its destination port is the cookie tag of its own source address.
pub proof fn lemma_admitted_hit_is_verified(
    key: Seq<u8>,
    low: u16,
    high: u16,
    device_ip: u32,
    port: u16,
    seg: InboundSegment,
    ip: u32,
)
    requires
        spec_admit(key, low, high, device_ip, port, seg) == Option::Some(ip),
    ensures
        seg.src == IpSource::V4(ip),
        seg.src_port == port,
        seg.flags & TCP_FLAG_SYN == TCP_FLAG_SYN,
        seg.flags & TCP_FLAG_ACK == TCP_FLAG_ACK,
        seg.dst_port == port_tag(key, low, high, device_ip, ip),
{
}

} // verus!
