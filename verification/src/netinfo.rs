//! The interface snapshot: what the scanner needs to know about the
//! local network, reduced to plain values, and the parsing of the OS
//! tables it is read from.
//!
//! The shell reads `/proc/sys/net/ipv4/ip_local_port_range`,
//! `/proc/net/route` and `/proc/net/arp` and hands the raw text here.
//! The rules — which line is the default route, which column holds the
//! gateway, how a MAC is written — are verified logic; only the reading
//! of the files and the raw-channel handle stay with the shell.

use vstd::prelude::*;

verus! {

/// Octet `i` (0 = most significant) of an IPv4 address held as a 32-bit
/// word in network order.
pub open spec fn spec_octet(x: u32, i: int) -> u8 {
    if i == 0 {
        (x / 0x0100_0000) as u8
    } else if i == 1 {
        ((x / 0x0001_0000) % 256) as u8
    } else if i == 2 {
        ((x / 0x0000_0100) % 256) as u8
    } else {
        (x % 256) as u8
    }
}

/// A link-layer address: six octets.
pub struct Mac {
    pub b: [u8; 6],
}

/// The immutable bundle every worker reads: local IPv4 address, local
/// MAC, next-hop MAC and the gateway's IPv4 address, each as plain
/// values. The raw channel handle bound to the interface stays with the
/// shell, which owns the kernel objects.
pub struct InterfaceData {
    pub device_ip: u32,
    pub device_mac: Mac,
    pub gateway_mac: Mac,
    pub gateway_ip: u32,
}

// ---------------------------------------------------------------------
// Tokens and lines
// ---------------------------------------------------------------------

/// Whitespace as the OS tables use it.
pub open spec fn is_ws(b: u8) -> bool {
    b == 32 || b == 9 || b == 10 || b == 13
}

/// The length of the whitespace-free run at the head of `s`.
pub open spec fn token_len(s: Seq<u8>) -> nat
    decreases s.len(),
{
    if s.len() == 0 || is_ws(s[0]) {
        0
    } else {
        1 + token_len(s.drop_first())
    }
}

/// The head run never reaches past the end.
pub proof fn lemma_token_len_le(s: Seq<u8>)
    ensures
        token_len(s) <= s.len(),
    decreases s.len(),
{
    if s.len() != 0 && !is_ws(s[0]) {
        lemma_token_len_le(s.drop_first());
    }
}

/// The maximal whitespace-separated tokens of `s`, in order.
pub open spec fn spec_tokens(s: Seq<u8>) -> Seq<Seq<u8>>
    decreases s.len(),
    via spec_tokens_dec
{
    if s.len() == 0 {
        seq![]
    } else if is_ws(s[0]) {
        spec_tokens(s.drop_first())
    } else {
        seq![s.take(token_len(s) as int)] + spec_tokens(s.skip(token_len(s) as int))
    }
}

#[via_fn]
proof fn spec_tokens_dec(s: Seq<u8>) {
    lemma_token_len_le(s);
}

/// The length of the first line of `s` (up to a line feed or the end).
pub open spec fn line_len(s: Seq<u8>) -> nat
    decreases s.len(),
{
    if s.len() == 0 || s[0] == 10 {
        0
    } else {
        1 + line_len(s.drop_first())
    }
}

/// The first line never reaches past the end.
pub proof fn lemma_line_len_le(s: Seq<u8>)
    ensures
        line_len(s) <= s.len(),
    decreases s.len(),
{
    if s.len() != 0 && s[0] != 10 {
        lemma_line_len_le(s.drop_first());
    }
}

/// The lines of `s`, split on line feeds; a trailing line feed ends the
/// last line rather than opening an empty one.
pub open spec fn spec_lines(s: Seq<u8>) -> Seq<Seq<u8>>
    decreases s.len(),
    via spec_lines_dec
{
    if s.len() == 0 {
        seq![]
    } else {
        let k = line_len(s) as int;
        if k == s.len() {
            seq![s]
        } else {
            seq![s.take(k)] + spec_lines(s.skip(k + 1))
        }
    }
}

#[via_fn]
proof fn spec_lines_dec(s: Seq<u8>) {
    lemma_line_len_le(s);
}

/// The views of a vector of byte strings.
pub open spec fn seqs_view(ts: Seq<Vec<u8>>) -> Seq<Seq<u8>> {
    ts.map_values(|t: Vec<u8>| t@)
}

fn token_len_at(v: &Vec<u8>, i: usize) -> (r: usize)
    requires
        i <= v@.len(),
    ensures
        r == token_len(v@.skip(i as int)),
        i + r <= v@.len(),
    decreases v@.len() - i,
{
    if i == v.len() {
        0
    } else if v[i] == 32 || v[i] == 9 || v[i] == 10 || v[i] == 13 {
        0
    } else {
        proof {
            assert(v@.skip(i as int).drop_first() =~= v@.skip(i as int + 1));
        }
        1 + token_len_at(v, i + 1)
    }
}

fn line_len_at(v: &Vec<u8>, i: usize) -> (r: usize)
    requires
        i <= v@.len(),
    ensures
        r == line_len(v@.skip(i as int)),
        i + r <= v@.len(),
    decreases v@.len() - i,
{
    if i == v.len() {
        0
    } else if v[i] == 10 {
        0
    } else {
        proof {
            assert(v@.skip(i as int).drop_first() =~= v@.skip(i as int + 1));
        }
        1 + line_len_at(v, i + 1)
    }
}

fn copy_range(v: &Vec<u8>, from: usize, to: usize) -> (r: Vec<u8>)
    requires
        from <= to <= v@.len(),
    ensures
        r@ == v@.subrange(from as int, to as int),
{
    let mut out: Vec<u8> = Vec::new();
    let mut j: usize = from;
    while j < to
        invariant
            from <= j <= to <= v@.len(),
            out@ == v@.subrange(from as int, j as int),
        decreases to - j,
    {
        out.push(v[j]);
        proof {
            assert(v@.subrange(from as int, j as int + 1) =~= v@.subrange(
                from as int,
                j as int,
            ).push(v@[j as int]));
        }
        j = j + 1;
    }
    out
}

/// Split a byte string into its whitespace-separated tokens.
pub fn tokenize(v: &Vec<u8>) -> (r: Vec<Vec<u8>>)
    ensures
        seqs_view(r@) == spec_tokens(v@),
{
    let mut out: Vec<Vec<u8>> = Vec::new();
    let mut i: usize = 0;
    proof {
        assert(v@.skip(0) =~= v@);
        assert(seqs_view(out@) + spec_tokens(v@) =~= spec_tokens(v@));
    }
    while i < v.len()
        invariant
            i <= v@.len(),
            seqs_view(out@) + spec_tokens(v@.skip(i as int)) == spec_tokens(v@),
        decreases v@.len() - i,
    {
        let ghost pre = out@;
        if v[i] == 32 || v[i] == 9 || v[i] == 10 || v[i] == 13 {
            proof {
                assert(v@.skip(i as int).drop_first() =~= v@.skip(i as int + 1));
            }
            i = i + 1;
        } else {
            let k = token_len_at(v, i);
            let tok = copy_range(v, i, i + k);
            out.push(tok);
            proof {
                let s = v@.skip(i as int);
                assert(s.take(token_len(s) as int) =~= v@.subrange(i as int, i as int + k));
                assert(s.skip(token_len(s) as int) =~= v@.skip(i as int + k));
                assert(seqs_view(out@) =~= seqs_view(pre) + seq![tok@]);
                assert(seqs_view(out@) + spec_tokens(v@.skip(i as int + k)) =~= seqs_view(pre)
                    + spec_tokens(v@.skip(i as int)));
            }
            i = i + k;
        }
    }
    proof {
        assert(seqs_view(out@) + spec_tokens(v@.skip(v@.len() as int)) =~= seqs_view(out@));
    }
    out
}

/// Split a byte string into its lines.
pub fn split_lines(v: &Vec<u8>) -> (r: Vec<Vec<u8>>)
    ensures
        seqs_view(r@) == spec_lines(v@),
{
    let mut out: Vec<Vec<u8>> = Vec::new();
    let mut i: usize = 0;
    proof {
        assert(v@.skip(0) =~= v@);
        assert(seqs_view(out@) + spec_lines(v@) =~= spec_lines(v@));
    }
    while i < v.len()
        invariant
            i <= v@.len(),
            seqs_view(out@) + spec_lines(v@.skip(i as int)) == spec_lines(v@),
        decreases v@.len() - i,
    {
        let ghost pre = out@;
        let k = line_len_at(v, i);
        let line = copy_range(v, i, i + k);
        out.push(line);
        proof {
            let s = v@.skip(i as int);
            assert(line_len(s) == k);
            assert(seqs_view(out@) =~= seqs_view(pre) + seq![line@]);
            if i + k < v@.len() {
                assert(s.take(k as int) =~= v@.subrange(i as int, i as int + k));
                assert(s.skip(k as int + 1) =~= v@.skip(i as int + k + 1));
                assert(seqs_view(out@) + spec_lines(v@.skip(i as int + k + 1)) =~= seqs_view(pre)
                    + spec_lines(v@.skip(i as int)));
            } else {
                assert(s =~= v@.subrange(i as int, i as int + k));
                assert(spec_lines(v@.skip(i as int + k)) =~= Seq::<Seq<u8>>::empty());
                assert(seqs_view(out@) + spec_lines(v@.skip(i as int + k)) =~= seqs_view(pre)
                    + spec_lines(v@.skip(i as int)));
            }
        }
        if i + k < v.len() {
            i = i + k + 1;
        } else {
            i = i + k;
        }
    }
    proof {
        assert(seqs_view(out@) + spec_lines(v@.skip(v@.len() as int)) =~= seqs_view(out@));
    }
    out
}

/// Whether two byte strings hold the same bytes.
pub fn bytes_eq(a: &Vec<u8>, b: &Vec<u8>) -> (r: bool)
    ensures
        r == (a@ == b@),
{
    if a.len() != b.len() {
        return false;
    }
    let mut j: usize = 0;
    while j < a.len()
        invariant
            j <= a@.len(),
            a@.len() == b@.len(),
            forall|t: int| 0 <= t < j ==> a@[t] == b@[t],
        decreases a@.len() - j,
    {
        if a[j] != b[j] {
            return false;
        }
        j = j + 1;
    }
    proof {
        assert(a@ =~= b@);
    }
    true
}

// ---------------------------------------------------------------------
// Numbers
// ---------------------------------------------------------------------

/// An ASCII decimal digit.
pub open spec fn is_digit(b: u8) -> bool {
    48 <= b <= 57
}

/// All bytes of `s` are decimal digits.
pub open spec fn all_digits(s: Seq<u8>) -> bool {
    forall|i: int| 0 <= i < s.len() ==> is_digit(#[trigger] s[i])
}

/// The value of a decimal digit string.
pub open spec fn dec_val(s: Seq<u8>) -> int
    decreases s.len(),
{
    if s.len() == 0 {
        0
    } else {
        dec_val(s.drop_last()) * 10 + (s.last() - 48)
    }
}

/// The value of a digit string is non-negative and only grows as the
/// string grows.
pub proof fn lemma_dec_val_nonneg(s: Seq<u8>)
    requires
        all_digits(s),
    ensures
        dec_val(s) >= 0,
    decreases s.len(),
{
    if s.len() != 0 {
        assert(all_digits(s.drop_last()));
        lemma_dec_val_nonneg(s.drop_last());
    }
}

/// A digit string is worth at least any of its prefixes.
pub proof fn lemma_dec_val_prefix(s: Seq<u8>, i: int)
    requires
        all_digits(s),
        0 <= i <= s.len(),
    ensures
        dec_val(s.take(i)) <= dec_val(s),
    decreases s.len() - i,
{
    if i < s.len() {
        lemma_dec_val_prefix(s, i + 1);
        assert(s.take(i + 1).drop_last() =~= s.take(i));
        assert(all_digits(s.take(i)));
        lemma_dec_val_nonneg(s.take(i));
        assert(dec_val(s.take(i + 1)) == dec_val(s.take(i)) * 10 + (s[i] - 48));
    } else {
        assert(s.take(i) =~= s);
    }
}

/// What a whitespace-free token is worth as a 16-bit port number: the
/// decimal value of its digits, if it is all digits and fits.
pub open spec fn spec_parse_u16(s: Seq<u8>) -> Option<u16> {
    if s.len() >= 1 && all_digits(s) && dec_val(s) <= 65535 {
        Option::Some(dec_val(s) as u16)
    } else {
        Option::None
    }
}

/// Parse a decimal port number.
pub fn parse_u16(t: &Vec<u8>) -> (r: Option<u16>)
    ensures
        r == spec_parse_u16(t@),
{
    if t.len() == 0 {
        return None;
    }
    let mut acc: u32 = 0;
    let mut i: usize = 0;
    while i < t.len()
        invariant
            i <= t@.len(),
            t@.len() >= 1,
            forall|j: int| 0 <= j < i ==> is_digit(#[trigger] t@[j]),
            acc == dec_val(t@.take(i as int)),
            acc <= 65535,
        decreases t@.len() - i,
    {
        let b = t[i];
        if !(48 <= b && b <= 57) {
            return None;
        }
        acc = acc * 10 + (b - 48) as u32;
        proof {
            assert(t@.take(i as int + 1).drop_last() =~= t@.take(i as int));
        }
        i = i + 1;
        if acc > 65535 {
            proof {
                if all_digits(t@) && dec_val(t@) <= 65535 {
                    lemma_dec_val_prefix(t@, i as int);
                }
            }
            return None;
        }
    }
    proof {
        assert(t@.take(t@.len() as int) =~= t@);
    }
    Some(acc as u16)
}

/// The value of an ASCII hexadecimal digit, or -1.
pub open spec fn hex_digit_val(b: u8) -> int {
    if 48 <= b <= 57 {
        b - 48
    } else if 97 <= b <= 102 {
        b - 87
    } else if 65 <= b <= 70 {
        b - 55
    } else {
        -1
    }
}

/// An ASCII hexadecimal digit, either case.
pub open spec fn is_hex(b: u8) -> bool {
    hex_digit_val(b) >= 0
}

/// All bytes of `s` are hexadecimal digits.
pub open spec fn all_hex(s: Seq<u8>) -> bool {
    forall|i: int| 0 <= i < s.len() ==> is_hex(#[trigger] s[i])
}

/// The value of a hexadecimal digit string.
pub open spec fn hex_val(s: Seq<u8>) -> int
    decreases s.len(),
{
    if s.len() == 0 {
        0
    } else {
        hex_val(s.drop_last()) * 16 + hex_digit_val(s.last())
    }
}

pub proof fn lemma_hex_val_nonneg(s: Seq<u8>)
    requires
        all_hex(s),
    ensures
        hex_val(s) >= 0,
    decreases s.len(),
{
    if s.len() != 0 {
        assert(all_hex(s.drop_last()));
        lemma_hex_val_nonneg(s.drop_last());
    }
}

/// A hexadecimal string is worth at least any of its prefixes.
pub proof fn lemma_hex_val_prefix(s: Seq<u8>, i: int)
    requires
        all_hex(s),
        0 <= i <= s.len(),
    ensures
        hex_val(s.take(i)) <= hex_val(s),
    decreases s.len() - i,
{
    if i < s.len() {
        lemma_hex_val_prefix(s, i + 1);
        assert(s.take(i + 1).drop_last() =~= s.take(i));
        assert(all_hex(s.take(i)));
        lemma_hex_val_nonneg(s.take(i));
        assert(hex_val(s.take(i + 1)) == hex_val(s.take(i)) * 16 + hex_digit_val(s[i]));
    } else {
        assert(s.take(i) =~= s);
    }
}

/// What a token is worth as a 32-bit hexadecimal word, if it is all
/// hexadecimal digits and fits.
pub open spec fn spec_parse_hex_u32(s: Seq<u8>) -> Option<u32> {
    if s.len() >= 1 && all_hex(s) && hex_val(s) <= 0xFFFF_FFFF {
        Option::Some(hex_val(s) as u32)
    } else {
        Option::None
    }
}

fn hex_digit(b: u8) -> (r: i8)
    ensures
        r == hex_digit_val(b),
{
    if 48 <= b && b <= 57 {
        (b - 48) as i8
    } else if 97 <= b && b <= 102 {
        (b - 87) as i8
    } else if 65 <= b && b <= 70 {
        (b - 55) as i8
    } else {
        -1
    }
}

/// Parse a hexadecimal 32-bit word.
pub fn parse_hex_u32(t: &Vec<u8>) -> (r: Option<u32>)
    ensures
        r == spec_parse_hex_u32(t@),
{
    if t.len() == 0 {
        return None;
    }
    let mut acc: u64 = 0;
    let mut i: usize = 0;
    while i < t.len()
        invariant
            i <= t@.len(),
            t@.len() >= 1,
            forall|j: int| 0 <= j < i ==> is_hex(#[trigger] t@[j]),
            acc == hex_val(t@.take(i as int)),
            acc <= 0xFFFF_FFFF,
        decreases t@.len() - i,
    {
        let d = hex_digit(t[i]);
        if d < 0 {
            return None;
        }
        acc = acc * 16 + d as u64;
        proof {
            assert(t@.take(i as int + 1).drop_last() =~= t@.take(i as int));
        }
        i = i + 1;
        if acc > 0xFFFF_FFFF {
            proof {
                if all_hex(t@) && hex_val(t@) <= 0xFFFF_FFFF {
                    lemma_hex_val_prefix(t@, i as int);
                }
            }
            return None;
        }
    }
    proof {
        assert(t@.take(t@.len() as int) =~= t@);
    }
    Some(acc as u32)
}

/// The byte-swapped form of a 32-bit word: the route table stores the
/// gateway little-endian.
pub open spec fn spec_bswap32(x: u32) -> u32 {
    ((x % 256) * 0x0100_0000 + ((x / 256) % 256) * 0x0001_0000 + ((x / 0x10000) % 256) * 0x100 + x
        / 0x0100_0000) as u32
}

/// Swap the byte order of a 32-bit word.
pub fn bswap32(x: u32) -> (r: u32)
    ensures
        r == spec_bswap32(x),
{
    (x % 256) * 0x0100_0000 + ((x / 256) % 256) * 0x0001_0000 + ((x / 0x10000) % 256) * 0x100 + x
        / 0x0100_0000
}

// ---------------------------------------------------------------------
// MAC addresses
// ---------------------------------------------------------------------

/// The colon positions of a 17-byte colon-hex MAC token.
pub open spec fn mac_sep_ok(s: Seq<u8>) -> bool {
    s[2] == 58 && s[5] == 58 && s[8] == 58 && s[11] == 58 && s[14] == 58
}

/// Every digit position of a 17-byte colon-hex MAC token holds a
/// hexadecimal digit.
pub open spec fn mac_hex_ok(s: Seq<u8>) -> bool {
    is_hex(s[0]) && is_hex(s[1]) && is_hex(s[3]) && is_hex(s[4]) && is_hex(s[6]) && is_hex(s[7])
        && is_hex(s[9]) && is_hex(s[10]) && is_hex(s[12]) && is_hex(s[13]) && is_hex(s[15])
        && is_hex(s[16])
}

/// The octet written by the two hexadecimal digits at `i` and `i + 1`.
pub open spec fn mac_byte(s: Seq<u8>, i: int) -> u8 {
    (hex_digit_val(s[i]) * 16 + hex_digit_val(s[i + 1])) as u8
}

/// The six octets written in a colon-hex MAC token of the ARP table:
/// six two-digit hexadecimal groups separated by colons.
pub open spec fn spec_parse_mac(s: Seq<u8>) -> Option<Seq<u8>> {
    if s.len() == 17 && mac_sep_ok(s) && mac_hex_ok(s) {
        Option::Some(
            seq![
                mac_byte(s, 0),
                mac_byte(s, 3),
                mac_byte(s, 6),
                mac_byte(s, 9),
                mac_byte(s, 12),
                mac_byte(s, 15),
            ],
        )
    } else {
        Option::None
    }
}

fn hex_pair(t: &Vec<u8>, pos: usize) -> (r: Option<u8>)
    requires
        pos + 2 <= t@.len(),
    ensures
        r is Some <==> is_hex(t@[pos as int]) && is_hex(t@[pos as int + 1]),
        r is Some ==> r.unwrap() == mac_byte(t@, pos as int),
{
    let n = t.len();
    assert(pos + 2 <= n);
    let hi = hex_digit(t[pos]);
    let lo = hex_digit(t[pos + 1]);
    if hi < 0 || lo < 0 {
        return None;
    }
    proof {
        assert(0 <= hi <= 15 && 0 <= lo <= 15);
    }
    Some((hi as u8) * 16 + (lo as u8))
}

/// Parse a colon-hex MAC token.
pub fn parse_mac(t: &Vec<u8>) -> (r: Option<Mac>)
    ensures
        r is Some <==> spec_parse_mac(t@) is Some,
        r is Some ==> r.unwrap().b@ == spec_parse_mac(t@).unwrap(),
{
    if t.len() != 17 {
        return None;
    }
    if !(t[2] == 58 && t[5] == 58 && t[8] == 58 && t[11] == 58 && t[14] == 58) {
        return None;
    }
    let g0 = hex_pair(t, 0);
    let g1 = hex_pair(t, 3);
    let g2 = hex_pair(t, 6);
    let g3 = hex_pair(t, 9);
    let g4 = hex_pair(t, 12);
    let g5 = hex_pair(t, 15);
    match (g0, g1, g2, g3, g4, g5) {
        (Some(b0), Some(b1), Some(b2), Some(b3), Some(b4), Some(b5)) => {
            let mac = Mac { b: [b0, b1, b2, b3, b4, b5] };
            proof {
                assert(mac.b@ =~= spec_parse_mac(t@).unwrap());
            }
            Some(mac)
        },
        _ => None,
    }
}


// ---------------------------------------------------------------------
// The OS tables
// ---------------------------------------------------------------------

/// The eight-zero field that marks the default destination and the
/// default mask in the route table.
pub open spec fn zeros8() -> Seq<u8> {
    seq![48u8, 48u8, 48u8, 48u8, 48u8, 48u8, 48u8, 48u8]
}

/// Whether a token is the eight-zero field.
pub fn is_zeros8(t: &Vec<u8>) -> (r: bool)
    ensures
        r == (t@ == zeros8()),
{
    if t.len() != 8 {
        return false;
    }
    let mut j: usize = 0;
    while j < 8
        invariant
            j <= 8,
            t@.len() == 8,
            forall|k: int| 0 <= k < j ==> t@[k] == 48u8,
        decreases 8 - j,
    {
        if t[j] != 48 {
            return false;
        }
        j = j + 1;
    }
    proof {
        assert(t@ =~= zeros8());
    }
    true
}

fn copy_bytes(v: &Vec<u8>) -> (r: Vec<u8>)
    ensures
        r@ == v@,
{
    let r = copy_range(v, 0, v.len());
    proof {
        assert(v@.subrange(0, v@.len() as int) =~= v@);
    }
    r
}

/// What the port-range file yields: its first two tokens read as port
/// numbers, when both parse.
pub open spec fn spec_port_range(s: Seq<u8>) -> Option<(u16, u16)> {
    let t = spec_tokens(s);
    if t.len() >= 2 {
        match (spec_parse_u16(t[0]), spec_parse_u16(t[1])) {
            (Option::Some(lo), Option::Some(hi)) => Option::Some((lo, hi)),
            _ => Option::None,
        }
    } else {
        Option::None
    }
}

/// Read the ephemeral port range from the text of
/// `/proc/sys/net/ipv4/ip_local_port_range`.
pub fn parse_port_range(text: &Vec<u8>) -> (r: Option<(u16, u16)>)
    ensures
        r == spec_port_range(text@),
{
    let toks = tokenize(text);
    if toks.len() < 2 {
        return None;
    }
    let lo = parse_u16(&toks[0]);
    let hi = parse_u16(&toks[1]);
    match (lo, hi) {
        (Some(l), Some(h)) => Some((l, h)),
        _ => None,
    }
}

/// Whether a route-table line is the default route of the named
/// interface: its interface column matches and both the destination
/// and the mask columns are all zero.
pub open spec fn route_line_matches(l: Seq<u8>, iface: Seq<u8>) -> bool {
    let t = spec_tokens(l);
    t.len() > 7 && t[0] == iface && t[1] == zeros8() && t[7] == zeros8()
}

/// The gateway a matching route line names: its third column read as a
/// little-endian hexadecimal word, swapped into network order.
pub open spec fn spec_gateway_of_line(l: Seq<u8>) -> Option<u32> {
    match spec_parse_hex_u32(spec_tokens(l)[2]) {
        Option::Some(x) => Option::Some(spec_bswap32(x)),
        Option::None => Option::None,
    }
}

/// The gateway the route table yields for an interface: the first
/// matching line decides, and a malformed gateway column on it yields
/// nothing.
pub open spec fn spec_gateway_ip(ls: Seq<Seq<u8>>, iface: Seq<u8>) -> Option<u32>
    decreases ls.len(),
{
    if ls.len() == 0 {
        Option::None
    } else if route_line_matches(ls[0], iface) {
        spec_gateway_of_line(ls[0])
    } else {
        spec_gateway_ip(ls.drop_first(), iface)
    }
}

/// Read the default gateway of an interface from the text of
/// `/proc/net/route`.
pub fn parse_gateway_ip(text: &Vec<u8>, iface: &Vec<u8>) -> (r: Option<u32>)
    ensures
        r == spec_gateway_ip(spec_lines(text@), iface@),
{
    let lines = split_lines(text);
    let ghost lv = seqs_view(lines@);
    let mut idx: usize = 0;
    proof {
        assert(lv.skip(0) =~= lv);
    }
    while idx < lines.len()
        invariant
            idx <= lines@.len(),
            seqs_view(lines@) == spec_lines(text@),
            spec_gateway_ip(seqs_view(lines@).skip(idx as int), iface@) == spec_gateway_ip(
                spec_lines(text@),
                iface@,
            ),
        decreases lines@.len() - idx,
    {
        let line = &lines[idx];
        let toks = tokenize(line);
        proof {
            assert(seqs_view(lines@).skip(idx as int)[0] == line@);
        }
        if toks.len() > 7 {
            let c0 = bytes_eq(&toks[0], iface);
            let c1 = is_zeros8(&toks[1]);
            let c7 = is_zeros8(&toks[7]);
            if c0 && c1 && c7 {
                let hx = parse_hex_u32(&toks[2]);
                return match hx {
                    Some(x) => Some(bswap32(x)),
                    None => None,
                };
            }
        }
        proof {
            assert(!route_line_matches(line@, iface@));
            assert(seqs_view(lines@).skip(idx as int).drop_first() =~= seqs_view(lines@).skip(
                idx as int + 1,
            ));
        }
        idx = idx + 1;
    }
    proof {
        assert(seqs_view(lines@).skip(lines@.len() as int) =~= Seq::<Seq<u8>>::empty());
    }
    None
}

/// Whether an ARP-table line belongs to an address: its first column is
/// the address in dotted-quad form.
pub open spec fn arp_line_matches(l: Seq<u8>, ip: u32) -> bool {
    let t = spec_tokens(l);
    t.len() > 3 && t[0] == crate::output::spec_ipv4_dotted(ip)
}

/// The MAC the ARP table yields for an address: the fourth column of
/// the first line whose first column is the address; a malformed MAC
/// there yields nothing.
pub open spec fn spec_arp_mac(ls: Seq<Seq<u8>>, ip: u32) -> Option<Seq<u8>>
    decreases ls.len(),
{
    if ls.len() == 0 {
        Option::None
    } else if arp_line_matches(ls[0], ip) {
        spec_parse_mac(spec_tokens(ls[0])[3])
    } else {
        spec_arp_mac(ls.drop_first(), ip)
    }
}

/// Read the MAC of an address from the text of `/proc/net/arp`.
pub fn parse_arp_mac(text: &Vec<u8>, ip: u32) -> (r: Option<Mac>)
    ensures
        r is Some <==> spec_arp_mac(spec_lines(text@), ip) is Some,
        r is Some ==> r.unwrap().b@ == spec_arp_mac(spec_lines(text@), ip).unwrap(),
{
    let ip_txt = crate::output::ipv4_dotted(ip);
    let lines = split_lines(text);
    let mut idx: usize = 0;
    proof {
        assert(seqs_view(lines@).skip(0) =~= seqs_view(lines@));
    }
    while idx < lines.len()
        invariant
            idx <= lines@.len(),
            seqs_view(lines@) == spec_lines(text@),
            ip_txt@ == crate::output::spec_ipv4_dotted(ip),
            spec_arp_mac(seqs_view(lines@).skip(idx as int), ip) == spec_arp_mac(
                spec_lines(text@),
                ip,
            ),
        decreases lines@.len() - idx,
    {
        let line = &lines[idx];
        let toks = tokenize(line);
        proof {
            assert(seqs_view(lines@).skip(idx as int)[0] == line@);
        }
        if toks.len() > 3 {
            let c0 = bytes_eq(&toks[0], &ip_txt);
            if c0 {
                return parse_mac(&toks[3]);
            }
        }
        proof {
            assert(!arp_line_matches(line@, ip));
            assert(seqs_view(lines@).skip(idx as int).drop_first() =~= seqs_view(lines@).skip(
                idx as int + 1,
            ));
        }
        idx = idx + 1;
    }
    proof {
        assert(seqs_view(lines@).skip(lines@.len() as int) =~= Seq::<Seq<u8>>::empty());
    }
    None
}

/// Whether a route-table line is a default route for any interface.
pub open spec fn default_route_line(l: Seq<u8>) -> bool {
    let t = spec_tokens(l);
    t.len() > 7 && t[1] == zeros8() && t[7] == zeros8()
}

/// The interface name the route table yields for the default route: the
/// first column of the first line whose destination and mask are all
/// zero.
pub open spec fn spec_default_iface(ls: Seq<Seq<u8>>) -> Option<Seq<u8>>
    decreases ls.len(),
{
    if ls.len() == 0 {
        Option::None
    } else if default_route_line(ls[0]) {
        Option::Some(spec_tokens(ls[0])[0])
    } else {
        spec_default_iface(ls.drop_first())
    }
}

/// Read the name of the interface holding the default route from the
/// text of `/proc/net/route`.
pub fn parse_default_iface(text: &Vec<u8>) -> (r: Option<Vec<u8>>)
    ensures
        r is Some <==> spec_default_iface(spec_lines(text@)) is Some,
        r is Some ==> r.unwrap()@ == spec_default_iface(spec_lines(text@)).unwrap(),
{
    let lines = split_lines(text);
    let mut idx: usize = 0;
    proof {
        assert(seqs_view(lines@).skip(0) =~= seqs_view(lines@));
    }
    while idx < lines.len()
        invariant
            idx <= lines@.len(),
            seqs_view(lines@) == spec_lines(text@),
            spec_default_iface(seqs_view(lines@).skip(idx as int)) == spec_default_iface(
                spec_lines(text@),
            ),
        decreases lines@.len() - idx,
    {
        let line = &lines[idx];
        let toks = tokenize(line);
        proof {
            assert(seqs_view(lines@).skip(idx as int)[0] == line@);
        }
        if toks.len() > 7 {
            let c1 = is_zeros8(&toks[1]);
            let c7 = is_zeros8(&toks[7]);
            if c1 && c7 {
                return Some(copy_bytes(&toks[0]));
            }
        }
        proof {
            assert(!default_route_line(line@));
            assert(seqs_view(lines@).skip(idx as int).drop_first() =~= seqs_view(lines@).skip(
                idx as int + 1,
            ));
        }
        idx = idx + 1;
    }
    proof {
        assert(seqs_view(lines@).skip(lines@.len() as int) =~= Seq::<Seq<u8>>::empty());
    }
    None
}

} // verus!
