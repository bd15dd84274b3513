//! The statistics reporter's arithmetic and formatting.
//!
//! Once a second the reporter prints elapsed time, counters, rates and
//! an ETA. The integer work is here and verified: rendering a duration
//! as days/hours/minutes/seconds and deriving the remaining time from
//! the sent counter. The shell owns the clock, subtracts the paused
//! spans, computes the floating-point rates and prints the line.

use vstd::prelude::*;

verus! {

/// The ASCII decimal digits of `n`, most significant first.
pub open spec fn spec_dec(n: nat) -> Seq<u8>
    decreases n,
{
    if n < 10 {
        seq![(48 + n) as u8]
    } else {
        spec_dec(n / 10) + seq![(48 + n % 10) as u8]
    }
}

/// Decimal digits are ASCII digits.
pub proof fn lemma_spec_dec_ascii(n: nat)
    ensures
        spec_dec(n).len() >= 1,
        forall|i: int| 0 <= i < spec_dec(n).len() ==> 48 <= #[trigger] spec_dec(n)[i] <= 57,
    decreases n,
{
    if n >= 10 {
        lemma_spec_dec_ascii(n / 10);
    }
}

/// The duration `secs` rendered the reporter's way: days, hours within
/// the day, minutes within the hour — each only once it is nonzero —
/// and seconds within the minute, as in `1d 2h 3m 4s`.
pub open spec fn spec_format_time(secs: nat) -> Seq<u8> {
    let minutes = secs / 60;
    let hours = minutes / 60;
    let days = hours / 24;
    (if days >= 1 {
        spec_dec(days) + seq![('d' as u8), (' ' as u8)]
    } else {
        Seq::<u8>::empty()
    }) + (if hours >= 1 {
        spec_dec(hours % 24) + seq![('h' as u8), (' ' as u8)]
    } else {
        Seq::<u8>::empty()
    }) + (if minutes >= 1 {
        spec_dec(minutes % 60) + seq![('m' as u8), (' ' as u8)]
    } else {
        Seq::<u8>::empty()
    }) + spec_dec(secs % 60) + seq![('s' as u8)]
}

/// The reporter's remaining-time estimate, in whole seconds: the time
/// spent so far, scaled by how much of the address space is still ahead
/// of the sent counter.
pub open spec fn spec_eta(elapsed_secs: u64, sent: u64) -> int {
    if sent >= 0x1_0000_0000 {
        0
    } else {
        (elapsed_secs * (0x1_0000_0000 - sent)) / (sent + 1)
    }
}

/// The ASCII decimal digits of `n`, most significant first.
pub fn dec_u64(n: u64) -> (r: Vec<u8>)
    ensures
        r@ == spec_dec(n as nat),
    decreases n,
{
    if n < 10 {
        let mut v: Vec<u8> = Vec::new();
        v.push(48 + n as u8);
        v
    } else {
        let mut v = dec_u64(n / 10);
        v.push(48 + (n % 10) as u8);
        v
    }
}

/// Relies on String::from_utf8: ASCII bytes form valid UTF-8, so the
/// call succeeds and yields one character per byte.
#[verifier::external_body]
pub(crate) fn ascii_string(v: Vec<u8>) -> (s: String)
    requires
        forall|i: int| 0 <= i < v@.len() ==> v@[i] < 128,
    ensures
        s@.len() == v@.len(),
        forall|i: int| 0 <= i < v@.len() ==> s@[i] == v@[i] as char,
{
    String::from_utf8(v).unwrap()
}

/// The view a byte string takes when read as ASCII characters.
pub open spec fn ascii_chars(s: Seq<u8>) -> Seq<char> {
    Seq::new(s.len(), |i: int| s[i] as char)
}

pub struct Logger {
    /// Seconds between two report lines.
    pub interval_secs: u64,
}

impl Logger {
    /// A reporter that speaks once a second.
    pub fn new() -> (r: Self)
        ensures
            r.interval_secs == 1,
    {
        Logger { interval_secs: 1 }
    }

    /// Render a duration in seconds as the report's `1d 2h 3m 4s` form.
    pub fn format_time(secs: u64) -> (r: String)
        ensures
            r@ == ascii_chars(spec_format_time(secs as nat)),
    {
        let minutes: u64 = secs / 60;
        let hours: u64 = minutes / 60;
        let days: u64 = hours / 24;
        let mut out: Vec<u8> = Vec::new();
        if days >= 1 {
            let mut d = dec_u64(days);
            out.append(&mut d);
            out.push('d' as u8);
            out.push(' ' as u8);
        }
        if hours >= 1 {
            let mut h = dec_u64(hours % 24);
            out.append(&mut h);
            out.push('h' as u8);
            out.push(' ' as u8);
        }
        if minutes >= 1 {
            let mut m = dec_u64(minutes % 60);
            out.append(&mut m);
            out.push('m' as u8);
            out.push(' ' as u8);
        }
        let mut sec = dec_u64(secs % 60);
        out.append(&mut sec);
        out.push('s' as u8);
        proof {
            assert(out@ =~= spec_format_time(secs as nat));
            lemma_spec_dec_ascii((secs / 60 / 60 / 24) as nat);
            lemma_spec_dec_ascii((secs / 60 / 60 % 24) as nat);
            lemma_spec_dec_ascii((secs / 60 % 60) as nat);
            lemma_spec_dec_ascii((secs % 60) as nat);
        }
        let s = ascii_string(out);
        proof {
            assert(s@ =~= ascii_chars(spec_format_time(secs as nat)));
        }
        s
    }

    /// The remaining-time estimate in seconds, saturated to a 64-bit
    /// word.
    pub fn eta_seconds(elapsed_secs: u64, sent: u64) -> (r: u64)
        ensures
            r == if spec_eta(elapsed_secs, sent) > u64::MAX {
                u64::MAX as int
            } else {
                spec_eta(elapsed_secs, sent)
            },
    {
        if sent >= 0x1_0000_0000 {
            return 0;
        }
        let remaining: u64 = 0x1_0000_0000u64 - sent;
        proof {
            vstd::arithmetic::mul::lemma_mul_upper_bound(
                elapsed_secs as int,
                u64::MAX as int,
                remaining as int,
                0x1_0000_0000,
            );
        }
        let num: u128 = (elapsed_secs as u128) * (remaining as u128);
        let q: u128 = num / (sent as u128 + 1);
        if q > u64::MAX as u128 {
            u64::MAX
        } else {
            q as u64
        }
    }
}

} // verus!
