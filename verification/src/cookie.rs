//! The cookie authenticator.
//!
//! The scan is stateless: nothing records which addresses were probed.
//! Instead every probe's TCP source port is a deterministic 16-bit tag of
//! the address pair, derived by keyed AES from a per-process secret and
//! reduced into the OS's ephemeral port range. A reply is accepted only
//! if its destination port carries the tag of its own source address, so
//! an off-path party without the secret cannot forge hits.

use vstd::prelude::*;
use vstd::arithmetic::div_mod::lemma_mod_division_less_than_divisor;
use crate::netinfo::spec_octet;

verus! {

/// What AES-128 returns for one 16-byte block under a 16-byte key. The
/// permutation takes pages to state, but it is a function of key and
/// block alone; the contracts only ever compare two applications of it.
pub uninterp spec fn aes_encrypt16(key: Seq<u8>, block: Seq<u8>) -> Seq<u8>;

/// Relies on aes::Aes128 through cipher::KeyInit::new and
/// cipher::BlockEncrypt::encrypt_block: AES-128 encryption of one
/// 16-byte block under a 16-byte key. The result is 16 bytes and depends
/// on the key and the block alone.
#[verifier::external_body]
fn aes128_encrypt_block(key: &Vec<u8>, block: &Vec<u8>) -> (r: Vec<u8>)
    requires
        key@.len() == 16,
        block@.len() == 16,
    ensures
        r@ == aes_encrypt16(key@, block@),
        r@.len() == 16,
{
    let k = aes::cipher::generic_array::GenericArray::clone_from_slice(&key[..]);
    let cipher = <aes::Aes128 as aes::cipher::KeyInit>::new(&k);
    let mut data = aes::cipher::generic_array::GenericArray::clone_from_slice(&block[..]);
    aes::cipher::BlockEncrypt::encrypt_block(&cipher, &mut data);
    data.to_vec()
}

/// The 16-byte block fed to the cipher: source octets, destination
/// octets, eight zero bytes.
pub open spec fn cookie_block(src: u32, dst: u32) -> Seq<u8> {
    seq![
        spec_octet(src, 0),
        spec_octet(src, 1),
        spec_octet(src, 2),
        spec_octet(src, 3),
        spec_octet(dst, 0),
        spec_octet(dst, 1),
        spec_octet(dst, 2),
        spec_octet(dst, 3),
        0u8,
        0u8,
        0u8,
        0u8,
        0u8,
        0u8,
        0u8,
        0u8,
    ]
}

/// The 16-bit tag of an address pair: the first and last byte of the
/// encrypted block read as a big-endian word, reduced into the inclusive
/// ephemeral range `[low, high]`.
pub open spec fn port_tag(key: Seq<u8>, low: u16, high: u16, src: u32, dst: u32) -> u16 {
    let block = aes_encrypt16(key, cookie_block(src, dst));
    let h = (block[0] as int) * 256 + (block[15] as int);
    (low + (h % (high - low + 1))) as u16
}

pub struct CookieHasher {
    key: Vec<u8>,
    low: u16,
    high: u16,
}

impl CookieHasher {
    /// The secret the tags are derived from. Closed: the key leaves the
    /// authenticator only through the cipher.
    pub closed spec fn spec_key(&self) -> Seq<u8> {
        self.key@
    }

    /// Lower bound of the OS's ephemeral port range.
    pub closed spec fn spec_low(&self) -> u16 {
        self.low
    }

    /// Upper bound (inclusive) of the OS's ephemeral port range.
    pub closed spec fn spec_high(&self) -> u16 {
        self.high
    }

    /// A usable authenticator: a full 16-byte secret and a sane,
    /// non-degenerate port range.
    pub closed spec fn wf(&self) -> bool {
        self.key@.len() == 16 && self.low <= self.high && self.high - self.low < 65535
    }

    /// Draw a fresh 128-bit secret and bind it to the ephemeral range the
    /// shell read from the OS.
    pub fn new(low: u16, high: u16) -> (r: Self)
        requires
            low <= high,
            high - low < 65535,
        ensures
            r.wf(),
            r.spec_low() == low,
            r.spec_high() == high,
    {
        let mut key: Vec<u8> = Vec::new();
        let mut i: usize = 0;
        while i < 16
            invariant
                key@.len() == i,
                i <= 16,
            decreases 16 - i,
        {
            key.push(crate::rng::random_byte());
            i = i + 1;
        }
        CookieHasher { key, low, high }
    }

    /// A second handle on the same secret and range, so the emitter and
    /// the harvester can each own one while agreeing on every tag.
    pub fn duplicate(&self) -> (r: Self)
        requires
            self.wf(),
        ensures
            r.wf(),
            r.spec_key() == self.spec_key(),
            r.spec_low() == self.spec_low(),
            r.spec_high() == self.spec_high(),
    {
        let mut key: Vec<u8> = Vec::new();
        let mut i: usize = 0;
        while i < self.key.len()
            invariant
                i <= self.key@.len(),
                key@ == self.key@.subrange(0, i as int),
            decreases self.key@.len() - i,
        {
            key.push(self.key[i]);
            i = i + 1;
        }
        proof {
            assert(key@ =~= self.key@);
        }
        CookieHasher { key, low: self.low, high: self.high }
    }

    /// The tag for one probe: the source port the emitter puts on the
    /// frame addressed from `src_ip` to `dst_ip`.
    pub fn get_port_cookie(&self, src_ip: u32, dst_ip: u32) -> (r: u16)
        requires
            self.wf(),
        ensures
            r == port_tag(self.spec_key(), self.spec_low(), self.spec_high(), src_ip, dst_ip),
    {
        let mut buf: Vec<u8> = Vec::new();
        buf.push((src_ip / 0x0100_0000) as u8);
        buf.push(((src_ip / 0x0001_0000) % 256) as u8);
        buf.push(((src_ip / 0x0000_0100) % 256) as u8);
        buf.push((src_ip % 256) as u8);
        buf.push((dst_ip / 0x0100_0000) as u8);
        buf.push(((dst_ip / 0x0001_0000) % 256) as u8);
        buf.push(((dst_ip / 0x0000_0100) % 256) as u8);
        buf.push((dst_ip % 256) as u8);
        buf.push(0u8);
        buf.push(0u8);
        buf.push(0u8);
        buf.push(0u8);
        buf.push(0u8);
        buf.push(0u8);
        buf.push(0u8);
        buf.push(0u8);
        proof {
            assert(buf@ =~= cookie_block(src_ip, dst_ip));
        }
        let block = aes128_encrypt_block(&self.key, &buf);
        let h: u16 = (block[0] as u16) * 256 + (block[15] as u16);
        let len: u16 = self.high - self.low + 1;
        proof {
            lemma_mod_division_less_than_divisor(h as int, len as int);
        }
        self.low + h % len
    }

    /// Whether an observed reply's destination port is the tag of the
    /// pair `(ip, dst_ip)`: true exactly for genuine echoes of a probe.
    pub fn check_port_cookie(&self, ip: u32, dst_ip: u32, dst_port: u16) -> (r: bool)
        requires
            self.wf(),
        ensures
            r == (dst_port == port_tag(self.spec_key(), self.spec_low(), self.spec_high(), ip, dst_ip)),
    {
        let hash = self.get_port_cookie(ip, dst_ip);
        hash == dst_port
    }
}

/// The tag is a function: for one secret and range, the same address
/// pair always yields the same port, however often it is computed.
pub proof fn lemma_port_tag_deterministic(key: Seq<u8>, low: u16, high: u16, src: u32, dst: u32)
    ensures
        port_tag(key, low, high, src, dst) == port_tag(key, low, high, src, dst),
{
}

/// The tag always lands inside the inclusive ephemeral range, for every
/// address pair and every secret.
pub proof fn lemma_port_tag_range(key: Seq<u8>, low: u16, high: u16, src: u32, dst: u32)
    requires
        low <= high,
        high - low < 65535,
    ensures
        low <= port_tag(key, low, high, src, dst) <= high,
{
    let block = aes_encrypt16(key, cookie_block(src, dst));
    let h = (block[0] as int) * 256 + (block[15] as int);
    lemma_mod_division_less_than_divisor(h, high - low + 1);
}

} // verus!
