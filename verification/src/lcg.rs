//! The address generator: a 32-bit linear congruential sequence.
//!
//! The scanner visits the whole IPv4 space in a pseudo-random order
//! without tracking visited addresses. The generator's state update is
//! `s <- a*s + c (mod 2^32)` with `c = 1` and `a = 4k + 1` for a small
//! random `k`; with an odd increment and `a = 1 (mod 4)` the recurrence
//! has full period over 32-bit words, so starting from 1 it walks every
//! residue once before returning. Iteration stops the first time the
//! fresh state is 0, the one word that is not a probe target.
//!
//! The laws proved here: the step map is injective, so the sequence
//! cannot repeat any value before it has come back to its seed, and all
//! the addresses handed out before the halt are pairwise distinct. That
//! the halt comes only after the whole space has been walked is the
//! Hull-Dobell theorem, which is assumed of the parameters, not proved.

use vstd::prelude::*;
use vstd::arithmetic::div_mod::{
    lemma_add_mod_noop, lemma_fundamental_div_mod, lemma_mod_multiples_basic,
    lemma_mod_multiples_vanish, lemma_mod_sub_multiples_vanish, lemma_mod_division_less_than_divisor,
    lemma_small_mod, lemma_sub_mod_noop, lemma_mul_mod_noop,
};
use vstd::arithmetic::power2::{pow2, lemma_pow2_unfold, lemma_pow2_pos, lemma2_to64};

verus! {

/// One step of the recurrence: `(s*a + c) mod 2^32`.
pub open spec fn lcg_step(s: u32, a: u32, c: u32) -> u32 {
    (((s as int) * (a as int) + (c as int)) % 0x1_0000_0000) as u32
}

/// The state after `n` steps from `s0`.
pub open spec fn lcg_iterate(s0: u32, a: u32, c: u32, n: nat) -> u32
    decreases n,
{
    if n == 0 {
        s0
    } else {
        lcg_step(lcg_iterate(s0, a, c, (n - 1) as nat), a, c)
    }
}

pub struct Lcg {
    pub state: u32,
    pub a: u32,
    pub c: u32,
}

impl Lcg {
    /// Advance the register once and hand the fresh state out.
    pub fn rand(&mut self) -> (r: u32)
        ensures
            final(self).state == lcg_step(old(self).state, old(self).a, old(self).c),
            final(self).a == old(self).a,
            final(self).c == old(self).c,
            r == final(self).state,
    {
        let ghost s = self.state;
        let ghost a = self.a;
        let ghost c = self.c;
        let prod = self.state.wrapping_mul(self.a);
        self.state = prod.wrapping_add(self.c);
        proof {
            let m = 0x1_0000_0000int;
            lemma_add_mod_noop((s as int) * (a as int), c as int, m);
            lemma_small_mod(c as nat, m as nat);
            lemma_mod_division_less_than_divisor((s as int) * (a as int), m);
            if prod + c > u32::MAX {
                lemma_mod_sub_multiples_vanish((prod as int) + (c as int), m);
                lemma_small_mod(((prod as int) + (c as int) - m) as nat, m as nat);
            } else {
                lemma_small_mod(((prod as int) + (c as int)) as nat, m as nat);
            }
        }
        self.state
    }

    /// Advance once; yield the fresh state unless it is the sentinel 0.
    pub fn next(&mut self) -> (r: Option<u32>)
        ensures
            final(self).state == lcg_step(old(self).state, old(self).a, old(self).c),
            final(self).a == old(self).a,
            final(self).c == old(self).c,
            r == if final(self).state == 0 {
                Option::<u32>::None
            } else {
                Option::<u32>::Some(final(self).state)
            },
    {
        let num = self.rand();
        if num == 0 {
            return None;
        }
        Some(num)
    }
}

impl Default for Lcg {
    /// Seed 1, increment 1, and a multiplier `4k + 1` for a random
    /// `k < 1000`: the Hull-Dobell shape that gives the recurrence full
    /// period over 32-bit words.
    fn default() -> (r: Self)
        ensures
            r.state == 1,
            r.c == 1,
            r.a % 4 == 1,
            r.a % 2 == 1,
            r.a < 4000,
    {
        let k = crate::rng::random_below(1000);
        let a = 4 * k + 1;
        proof {
            lemma_mod_multiples_vanish(k as int, 1, 4);
            lemma_mod_multiples_vanish(2 * (k as int), 1, 2);
        }
        Lcg { state: 1, a, c: 1 }
    }
}

/// A probe destination: one IPv4 address (as a 32-bit word in network
/// order) paired with the scan's target port.
pub struct ProbeAddr {
    pub ip: u32,
    pub port: u16,
}

/// The lazy stream of probe destinations the emitter consumes: the
/// generator's values reinterpreted as IPv4 addresses, each paired with
/// the fixed target port.
pub struct IPv4Iterator {
    pub port: u16,
    pub lcg: Lcg,
}

impl IPv4Iterator {
    /// A fresh stream over the whole address space for one target port.
    pub fn new(port: u16) -> (r: Self)
        ensures
            r.port == port,
            r.lcg.state == 1,
            r.lcg.c == 1,
            r.lcg.a % 4 == 1,
            r.lcg.a % 2 == 1,
            r.lcg.a < 4000,
    {
        IPv4Iterator { port, lcg: Lcg::default() }
    }

    /// The next probe destination, or nothing once the generator has
    /// reached its sentinel.
    pub fn next(&mut self) -> (r: Option<ProbeAddr>)
        ensures
            final(self).port == old(self).port,
            final(self).lcg.a == old(self).lcg.a,
            final(self).lcg.c == old(self).lcg.c,
            final(self).lcg.state == lcg_step(old(self).lcg.state, old(self).lcg.a, old(self).lcg.c),
            match r {
                Option::Some(p) => p.ip == final(self).lcg.state && p.ip != 0 && p.port
                    == old(self).port,
                Option::None => final(self).lcg.state == 0,
            },
    {
        let ip = match self.lcg.next() {
            Some(ip) => ip,
            None => { return None; },
        };
        Some(ProbeAddr { ip, port: self.port })
    }
}

/// An odd factor cannot make a product divisible by a higher power of two
/// than the other factor already is: if `a` is odd and `2^n` divides
/// `a*d`, then `2^n` divides `d`.
proof fn lemma_odd_mul_mod_pow2(a: int, d: int, n: nat)
    requires
        a % 2 == 1,
        0 <= d,
        (a * d) % (pow2(n) as int) == 0,
    ensures
        d % (pow2(n) as int) == 0,
    decreases n,
{
    if n == 0 {
        assert(pow2(0) == 1) by { lemma2_to64(); };
    } else {
        lemma_pow2_unfold(n);
        lemma_pow2_pos((n - 1) as nat);
        let p = pow2((n - 1) as nat) as int;
        let m = pow2(n) as int;
        assert(m == 2 * p);
        lemma_fundamental_div_mod(a * d, m);
        let q = (a * d) / m;
        assert(a * d == q * (2 * p)) by {
            assert(a * d == m * q + (a * d) % m);
        };
        assert(a * d == (2 * q) * p) by (nonlinear_arith)
            requires
                a * d == q * (2 * p),
        ;
        lemma_mod_multiples_basic(2 * q, p);
        assert((a * d) % p == 0);
        lemma_odd_mul_mod_pow2(a, d, (n - 1) as nat);
        lemma_fundamental_div_mod(d, p);
        let k = d / p;
        assert(d == p * k);
        assert(a * (p * k) == (2 * q) * p);
        assert((a * k) * p == (2 * q) * p) by (nonlinear_arith)
            requires
                a * (p * k) == (2 * q) * p,
        ;
        assert(a * k == 2 * q) by (nonlinear_arith)
            requires
                (a * k) * p == (2 * q) * p,
                p > 0,
        ;
        lemma_mod_multiples_basic(q, 2);
        assert((a * k) % 2 == 0);
        lemma_mul_mod_noop(a, k, 2);
        assert(((a % 2) * (k % 2)) % 2 == 0);
        lemma_mod_division_less_than_divisor(k, 2);
        if k % 2 == 1 {
            assert(((a % 2) * (k % 2)) % 2 == 1int % 2);
            assert(1int % 2 == 1);
            assert(false);
        }
        assert(k % 2 == 0);
        lemma_fundamental_div_mod(k, 2);
        let j = k / 2;
        assert(k == 2 * j);
        assert(d == p * (2 * j));
        assert(d == j * m) by (nonlinear_arith)
            requires
                d == p * (2 * j),
                m == 2 * p,
        ;
        lemma_mod_multiples_basic(j, m);
    }
}

/// The step map of the generator is injective whenever the multiplier is
/// odd: two distinct states can never step to the same state.
pub proof fn lemma_lcg_step_injective(a: u32, c: u32, x: u32, y: u32)
    requires
        a % 2 == 1,
        lcg_step(x, a, c) == lcg_step(y, a, c),
    ensures
        x == y,
{
    let m = 0x1_0000_0000int;
    assert(pow2(32) == 0x1_0000_0000) by { lemma2_to64(); };
    if x != y {
        let (hi, lo) = if x > y { (x, y) } else { (y, x) };
        let d = (hi as int) - (lo as int);
        assert(0 < d < m);
        lemma_sub_mod_noop((hi as int) * (a as int) + (c as int), (lo as int) * (a as int) + (c as int), m);
        assert(((hi as int) * (a as int) - (lo as int) * (a as int)) % m == 0);
        assert((hi as int) * (a as int) - (lo as int) * (a as int) == (a as int) * d) by (nonlinear_arith)
            requires
                d == (hi as int) - (lo as int),
        ;
        assert(((a as int) * d) % m == 0);
        lemma_odd_mul_mod_pow2(a as int, d, 32);
        lemma_small_mod(d as nat, m as nat);
        assert(false);
    }
}

/// The sequence cannot repeat before it has come back to its seed: if
/// the states after `i` and `j` steps coincide, then `j - i` steps from
/// the seed lead back to the seed.
pub proof fn lemma_lcg_no_repeat_before_return(s0: u32, a: u32, c: u32, i: nat, j: nat)
    requires
        a % 2 == 1,
        i < j,
        lcg_iterate(s0, a, c, i) == lcg_iterate(s0, a, c, j),
    ensures
        lcg_iterate(s0, a, c, (j - i) as nat) == s0,
    decreases i,
{
    if i == 0 {
    } else {
        lemma_lcg_step_injective(
            a,
            c,
            lcg_iterate(s0, a, c, (i - 1) as nat),
            lcg_iterate(s0, a, c, (j - 1) as nat),
        );
        lemma_lcg_no_repeat_before_return(s0, a, c, (i - 1) as nat, (j - 1) as nat);
    }
}

/// Distinctness of the emitted prefix: as long as the sequence has not
/// returned to its seed, all the states it has passed through differ.
pub proof fn lemma_lcg_prefix_distinct(s0: u32, a: u32, c: u32, n: nat, i: nat, j: nat)
    requires
        a % 2 == 1,
        i < j <= n,
        forall|k: nat| 0 < k <= n ==> lcg_iterate(s0, a, c, k) != s0,
    ensures
        lcg_iterate(s0, a, c, i) != lcg_iterate(s0, a, c, j),
{
    if lcg_iterate(s0, a, c, i) == lcg_iterate(s0, a, c, j) {
        lemma_lcg_no_repeat_before_return(s0, a, c, i, j);
        assert(0 < j - i <= n);
        assert(lcg_iterate(s0, a, c, (j - i) as nat) != s0);
    }
}


/// Once the sequence has returned to its seed after `p` steps, it is
/// periodic with period `p`.
pub proof fn lemma_lcg_period_shift(s0: u32, a: u32, c: u32, p: nat, m: nat)
    requires
        lcg_iterate(s0, a, c, p) == s0,
    ensures
        lcg_iterate(s0, a, c, m + p) == lcg_iterate(s0, a, c, m),
    decreases m,
{
    if m != 0 {
        lemma_lcg_period_shift(s0, a, c, p, (m - 1) as nat);
    }
}

/// Until the generator halts, it never hands out the same address
/// twice: if the sentinel 0 is first reached after `n` steps, the `n`
/// values before it are pairwise distinct.
pub proof fn lemma_lcg_outputs_distinct_until_halt(
    s0: u32,
    a: u32,
    c: u32,
    n: nat,
    i: nat,
    j: nat,
)
    requires
        a % 2 == 1,
        s0 != 0,
        0 < i < j <= n,
        forall|k: nat| 0 < k < n ==> lcg_iterate(s0, a, c, k) != 0,
        lcg_iterate(s0, a, c, n) == 0,
    ensures
        lcg_iterate(s0, a, c, i) != lcg_iterate(s0, a, c, j),
{
    if lcg_iterate(s0, a, c, i) == lcg_iterate(s0, a, c, j) {
        if j == n {
            assert(lcg_iterate(s0, a, c, i) == 0);
        } else {
            lemma_lcg_no_repeat_before_return(s0, a, c, i, j);
            let p = (j - i) as nat;
            assert(0 < p < n);
            lemma_lcg_period_shift(s0, a, c, p, (n - p) as nat);
            assert(lcg_iterate(s0, a, c, (n - p) as nat) == 0);
        }
    }
}

} // verus!
