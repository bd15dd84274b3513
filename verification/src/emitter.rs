//! The probe emitter.
//!
//! One step of the emitter's loop: honour the pause flag, draw the next
//! destination from the generator, tag it with the cookie port, build
//! the 54-byte frame and account it. The shell runs the loop, hands each
//! frame to the layer-2 channel and honours the termination signal; a
//! failed send is tolerated and indistinguishable from a silent host.

use vstd::prelude::*;
use crate::cookie::{CookieHasher, port_tag};
use crate::frame::{
    build_probe_frame, frame_ip_dst, frame_tcp_src_port, frame_wf, lemma_probe_frame_wf,
    probe_frame,
};
use crate::lcg::{IPv4Iterator, lcg_step};
use crate::netinfo::InterfaceData;
use crate::stats::Stats;

verus! {

/// What one emitter step asks the shell to do: wait for the pause to
/// clear, put one frame on the wire, or finish the scan.
pub enum EmitterAction {
    Wait,
    Send(Vec<u8>),
    Finish,
}

pub struct PacketSender {
    pub ipv4_iterator: IPv4Iterator,
    pub cookie_hasher: CookieHasher,
    pub interface_data: InterfaceData,
}

impl PacketSender {
    /// An emitter ready to work: its authenticator is usable.
    pub open spec fn wf(&self) -> bool {
        self.cookie_hasher.wf()
    }

    pub fn new(cookie_hasher: CookieHasher, port: u16, interface_data: InterfaceData) -> (r: Self)
        requires
            cookie_hasher.wf(),
        ensures
            r.wf(),
            r.cookie_hasher == cookie_hasher,
            r.interface_data == interface_data,
            r.ipv4_iterator.port == port,
            r.ipv4_iterator.lcg.state == 1,
            r.ipv4_iterator.lcg.c == 1,
            r.ipv4_iterator.lcg.a % 2 == 1,
    {
        PacketSender {
            ipv4_iterator: IPv4Iterator::new(port),
            cookie_hasher,
            interface_data,
        }
    }

    /// Build the probe frame for one destination, addressed from the
    /// device over the gateway, with the given ports.
    pub fn make_packet(&self, dst_ip: u32, src_port: u16, dst_port: u16) -> (r: Vec<u8>)
        ensures
            r@ == probe_frame(
                self.interface_data.gateway_mac.b@,
                self.interface_data.device_mac.b@,
                self.interface_data.device_ip,
                dst_ip,
                src_port,
                dst_port,
            ),
            r@.len() == 54,
    {
        build_probe_frame(
            &self.interface_data.gateway_mac,
            &self.interface_data.device_mac,
            self.interface_data.device_ip,
            dst_ip,
            src_port,
            dst_port,
        )
    }

    /// One iteration of the send loop. While paused nothing moves: no
    /// address is consumed, no frame is built, no counter advances. When
    /// running, the next address is drawn; either the generator is done,
    /// or one frame is produced whose source port is the cookie tag of
    /// its destination, and exactly the sent counter steps by one.
    pub fn step(&mut self, paused: bool, stats: &mut Stats) -> (a: EmitterAction)
        requires
            old(self).wf(),
            old(stats).sent < u64::MAX,
        ensures
            final(self).wf(),
            final(self).cookie_hasher == old(self).cookie_hasher,
            final(self).interface_data == old(self).interface_data,
            final(self).ipv4_iterator.port == old(self).ipv4_iterator.port,
            final(self).ipv4_iterator.lcg.a == old(self).ipv4_iterator.lcg.a,
            final(self).ipv4_iterator.lcg.c == old(self).ipv4_iterator.lcg.c,
            final(stats).received == old(stats).received,
            paused ==> a is Wait && *final(self) == *old(self) && *final(stats) == *old(stats),
            !paused ==> final(self).ipv4_iterator.lcg.state == lcg_step(
                old(self).ipv4_iterator.lcg.state,
                old(self).ipv4_iterator.lcg.a,
                old(self).ipv4_iterator.lcg.c,
            ),
            !paused ==> match a {
                EmitterAction::Wait => false,
                EmitterAction::Finish => final(self).ipv4_iterator.lcg.state == 0 && *final(stats)
                    == *old(stats),
                EmitterAction::Send(f) => {
                    let dst = final(self).ipv4_iterator.lcg.state;
                    &&& dst != 0
                    &&& f@ == probe_frame(
                        old(self).interface_data.gateway_mac.b@,
                        old(self).interface_data.device_mac.b@,
                        old(self).interface_data.device_ip,
                        dst,
                        port_tag(
                            old(self).cookie_hasher.spec_key(),
                            old(self).cookie_hasher.spec_low(),
                            old(self).cookie_hasher.spec_high(),
                            old(self).interface_data.device_ip,
                            dst,
                        ),
                        old(self).ipv4_iterator.port,
                    )
                    &&& final(stats).sent == old(stats).sent + 1
                },
            },
    {
        if paused {
            return EmitterAction::Wait;
        }
        match self.ipv4_iterator.next() {
            None => EmitterAction::Finish,
            Some(dest) => {
                let tag = self.cookie_hasher.get_port_cookie(
                    self.interface_data.device_ip,
                    dest.ip,
                );
                let f = self.make_packet(dest.ip, tag, dest.port);
                stats.record_sent();
                EmitterAction::Send(f)
            },
        }
    }
}

/// Emitter-cookie coupling: a frame built the way the emitter builds it
/// is well formed, and the TCP source port it carries is exactly the
/// cookie tag of the device address and the destination address read
/// back from the frame's own bytes.
pub proof fn lemma_emitted_frame_coupling(
    key: Seq<u8>,
    low: u16,
    high: u16,
    gw: Seq<u8>,
    dev: Seq<u8>,
    device_ip: u32,
    dst: u32,
    dport: u16,
)
    requires
        gw.len() == 6,
        dev.len() == 6,
    ensures
        ({
            let f = probe_frame(gw, dev, device_ip, dst, port_tag(key, low, high, device_ip, dst), dport);
            &&& frame_wf(f)
            &&& frame_ip_dst(f) == dst
            &&& frame_tcp_src_port(f) == port_tag(key, low, high, device_ip, frame_ip_dst(f) as u32)
        }),
{
    lemma_probe_frame_wf(gw, dev, device_ip, dst, port_tag(key, low, high, device_ip, dst), dport);
}

} // verus!
