//! The shared scan counters.
//!
//! Two monotonic counters, one advanced by the emitter for every probe
//! handed to the wire and one advanced by the harvester for every
//! published hit. The shell guards a single `Stats` value with a mutex;
//! every mutation goes through the methods here, so each one is a single
//! increment and the counters never move backwards.

use vstd::prelude::*;

verus! {

pub struct Stats {
    pub sent: u64,
    pub received: u64,
}

impl Stats {
    /// A fresh scan has sent nothing and received nothing.
    pub fn new() -> (r: Self)
        ensures
            r.sent == 0,
            r.received == 0,
    {
        Stats { sent: 0, received: 0 }
    }

    /// Account one emitted probe. The sent counter strictly increases and
    /// the received counter is untouched.
    pub fn record_sent(&mut self)
        requires
            old(self).sent < u64::MAX,
        ensures
            final(self).sent == old(self).sent + 1,
            final(self).received == old(self).received,
    {
        self.sent = self.sent + 1;
    }

    /// Account one published hit. The received counter strictly increases
    /// and the sent counter is untouched.
    pub fn record_received(&mut self)
        requires
            old(self).received < u64::MAX,
        ensures
            final(self).received == old(self).received + 1,
            final(self).sent == old(self).sent,
    {
        self.received = self.received + 1;
    }
}

} // verus!
