//! The output side of the scanner: rendering confirmed hits.
//!
//! A hit is one IPv4 address; the sink receives it as a dotted-quad
//! line. The rendering is exact here; the sink itself (a file, a socket,
//! standard output) lives with the shell, behind the `Output` trait.

use vstd::prelude::*;
use crate::logger::{ascii_chars, dec_u64, lemma_spec_dec_ascii, spec_dec};
use crate::netinfo::spec_octet;

verus! {

/// A consumer of confirmed hits: the shell implements it over a file or
/// any other sink and runs it until its termination signal.
pub trait Output {
    fn output(&mut self);
}

/// An address in dotted-quad form, one decimal number per octet.
pub open spec fn spec_ipv4_dotted(ip: u32) -> Seq<u8> {
    spec_dec(spec_octet(ip, 0) as nat) + seq![(46u8)] + spec_dec(spec_octet(ip, 1) as nat) + seq![
        (46u8),
    ] + spec_dec(spec_octet(ip, 2) as nat) + seq![(46u8)] + spec_dec(spec_octet(ip, 3) as nat)
}

/// One output line: the dotted quad followed by a line feed.
pub open spec fn spec_hit_line(ip: u32) -> Seq<u8> {
    spec_ipv4_dotted(ip) + seq![(10u8)]
}

/// Render an address as its dotted-quad bytes.
pub fn ipv4_dotted(ip: u32) -> (r: Vec<u8>)
    ensures
        r@ == spec_ipv4_dotted(ip),
{
    let mut out = dec_u64((ip / 0x0100_0000) as u64);
    out.push(46);
    let mut o1 = dec_u64(((ip / 0x0001_0000) % 256) as u64);
    out.append(&mut o1);
    out.push(46);
    let mut o2 = dec_u64(((ip / 0x0000_0100) % 256) as u64);
    out.append(&mut o2);
    out.push(46);
    let mut o3 = dec_u64((ip % 256) as u64);
    out.append(&mut o3);
    proof {
        assert(out@ =~= spec_ipv4_dotted(ip));
    }
    out
}

/// Render the sink line for one hit: dotted quad and line feed.
pub fn hit_line(ip: u32) -> (r: Vec<u8>)
    ensures
        r@ == spec_hit_line(ip),
{
    let mut out = ipv4_dotted(ip);
    out.push(10);
    proof {
        assert(out@ =~= spec_hit_line(ip));
    }
    out
}

/// Render an address as a dotted-quad string.
pub fn ipv4_string(ip: u32) -> (r: String)
    ensures
        r@ == ascii_chars(spec_ipv4_dotted(ip)),
{
    let out = ipv4_dotted(ip);
    proof {
        lemma_spec_dec_ascii(spec_octet(ip, 0) as nat);
        lemma_spec_dec_ascii(spec_octet(ip, 1) as nat);
        lemma_spec_dec_ascii(spec_octet(ip, 2) as nat);
        lemma_spec_dec_ascii(spec_octet(ip, 3) as nat);
    }
    let s = crate::logger::ascii_string(out);
    proof {
        assert(s@ =~= ascii_chars(spec_ipv4_dotted(ip)));
    }
    s
}

} // verus!
