//! IPv4 addresses, blocks in CIDR notation and the containment test.

use crate::text::{bounded_decimal, chars_of, read_decimal, split, split_ranges};
use vstd::prelude::*;

verus! {

/// The value of one part of a dotted-quad address: one to three digits
/// that write a number up to 255, with no zero in front of another digit.
pub open spec fn octet(s: Seq<char>) -> Option<nat> {
    if s.len() <= 3 && (s.len() <= 1 || s[0] != '0') {
        bounded_decimal(s, 255)
    } else {
        None
    }
}

/// The 32-bit value of the address `a.b.c.d`.
pub open spec fn quad_value(a: nat, b: nat, c: nat, d: nat) -> nat {
    a * 0x100_0000 + b * 0x1_0000 + c * 0x100 + d
}

/// The 32-bit value of a dotted-quad address: four octets divided by dots,
/// the first one the most significant. `None` for any other text.
pub open spec fn dotted_quad(s: Seq<char>) -> Option<u32> {
    let parts = split(s, '.');
    if parts.len() == 4 {
        match (octet(parts[0]), octet(parts[1]), octet(parts[2]), octet(parts[3])) {
            (Some(a), Some(b), Some(c), Some(d)) => Some(quad_value(a, b, c, d) as u32),
            _ => None,
        }
    } else {
        None
    }
}

fn read_octet(s: &Vec<char>, from: usize, to: usize) -> (r: Option<u32>)
    requires
        from <= to <= s@.len(),
    ensures
        match r {
            Some(v) => octet(s@.subrange(from as int, to as int)) == Some(v as nat),
            None => octet(s@.subrange(from as int, to as int)) is None,
        },
{
    if to - from > 3 {
        return None;
    }
    if to - from > 1 && s[from] == '0' {
        return None;
    }
    match read_decimal(s, from, to, 255) {
        Some(v) => Some(v as u32),
        None => None,
    }
}

/// Reads a dotted-quad IPv4 address.
pub fn parse_ipv4(text: &str) -> (r: Option<u32>)
    ensures
        r == dotted_quad(text@),
{
    let s = chars_of(text);
    let parts = split_ranges(&s, '.');
    if parts.len() != 4 {
        return None;
    }
    let a = read_octet(&s, parts[0].0, parts[0].1);
    let b = read_octet(&s, parts[1].0, parts[1].1);
    let c = read_octet(&s, parts[2].0, parts[2].1);
    let d = read_octet(&s, parts[3].0, parts[3].1);
    match (a, b, c, d) {
        (Some(a), Some(b), Some(c), Some(d)) => Some(a * 0x100_0000 + b * 0x1_0000 + c * 0x100 + d),
        _ => None,
    }
}

/// The address and prefix length that `ipnetwork` reads out of a text in
/// CIDR notation, or `None` where it rejects the text.
pub uninterp spec fn cidr_of_text(text: Seq<char>) -> Option<(u32, u8)>;

/// Reads an IPv4 block with `ipnetwork::Ipv4Network::from_str`.
///
/// Trusted: the result is the parser's answer for this text, as the 32-bit
/// value of the address and the prefix length, and an accepted prefix is
/// never above 32 (the parser ends in `Ipv4Network::new`, which refuses a
/// longer one).
#[verifier::external_body]
fn read_cidr(text: &str) -> (r: Option<(u32, u8)>)
    ensures
        r == cidr_of_text(text@),
        r matches Some(block) ==> block.1 <= 32,
{
    match text.parse::<ipnetwork::Ipv4Network>() {
        Ok(net) => Some((u32::from(net.ip()), net.prefix())),
        Err(_) => None,
    }
}

/// The mask of a block: its `prefix` most significant bits are set.
pub open spec fn netmask(prefix: u8) -> u32 {
    if prefix >= 32 {
        0xffff_ffffu32
    } else {
        !(0xffff_ffffu32 >> (prefix as u32))
    }
}

/// The lowest address of the block of `addr` with `prefix` fixed bits.
pub open spec fn network_of(addr: u32, prefix: u8) -> u32 {
    addr & netmask(prefix)
}

/// The highest address of the block of `addr` with `prefix` fixed bits.
pub open spec fn broadcast_of(addr: u32, prefix: u8) -> u32 {
    addr | !netmask(prefix)
}

/// Whether `ip` lies in the block of `addr` with `prefix` fixed bits: from
/// the block's network address up to its broadcast address, both included.
pub open spec fn in_block(addr: u32, prefix: u8, ip: u32) -> bool {
    network_of(addr, prefix) <= ip <= broadcast_of(addr, prefix)
}

/// An address lies between the network and the broadcast address of a
/// block exactly when it agrees with the block's address on the masked
/// bits.
pub proof fn lemma_in_block_iff_masked_equal(addr: u32, prefix: u8, ip: u32)
    ensures
        in_block(addr, prefix, ip) <==> (ip & netmask(prefix)) == (addr & netmask(prefix)),
{
    let m = netmask(prefix);
    lemma_masked_range(addr, m, ip, prefix as u32);
}

/// A block with `prefix` fixed bits holds 2^(32 - `prefix`) addresses, and
/// the bits of its network address behind the fixed ones are zero.
pub proof fn lemma_block_extent(addr: u32, prefix: u8)
    requires
        prefix <= 32,
    ensures
        broadcast_of(addr, prefix) - network_of(addr, prefix) + 1 == 1u64 << ((32 - prefix) as u64),
        ((network_of(addr, prefix) as u64) >> ((32 - prefix) as u64)) << ((32 - prefix) as u64)
            == network_of(addr, prefix) as u64,
{
    let m = netmask(prefix);
    let p = prefix as u32;
    let h = (32 - prefix) as u64;
    lemma_masked_extent(addr, m, p, h);
    lemma_masked_aligned(addr, m, p, h);
}

proof fn lemma_masked_extent(addr: u32, m: u32, p: u32, h: u64)
    by (bit_vector)
    requires
        p <= 32,
        h == 32 - p,
        p >= 32 && m == 0xffff_ffffu32 || p < 32 && m == !(0xffff_ffffu32 >> p),
    ensures
        (addr | !m) - (addr & m) + 1 == 1u64 << h,
{
}

proof fn lemma_masked_aligned(addr: u32, m: u32, p: u32, h: u64)
    by (bit_vector)
    requires
        p <= 32,
        h == 32 - p,
        p >= 32 && m == 0xffff_ffffu32 || p < 32 && m == !(0xffff_ffffu32 >> p),
    ensures
        (((addr & m) as u64) >> h) << h == (addr & m) as u64,
{
}

proof fn lemma_masked_range(addr: u32, m: u32, ip: u32, p: u32)
    by (bit_vector)
    requires
        p >= 32 && m == 0xffff_ffffu32 || p < 32 && m == !(0xffff_ffffu32 >> p),
    ensures
        ((addr & m) <= ip && ip <= (addr | !m)) <==> (ip & m) == (addr & m),
{
}

/// An IPv4 block: an address and the number of its leading bits that every
/// address of the block shares. The prefix is at most 32.
#[derive(Clone, Copy, Debug)]
pub struct Ipv4Cidr {
    addr: u32,
    prefix: u8,
}

impl Ipv4Cidr {
    #[verifier::type_invariant]
    spec fn prefix_in_range(self) -> bool {
        self.prefix <= 32
    }

    /// The address that the block was written with.
    pub closed spec fn spec_addr(&self) -> u32 {
        self.addr
    }

    /// The number of leading bits that are fixed.
    pub closed spec fn spec_prefix(&self) -> u8 {
        self.prefix
    }

    /// Whether `ip` lies in this block.
    pub open spec fn spec_contains(&self, ip: u32) -> bool {
        in_block(self.spec_addr(), self.spec_prefix(), ip)
    }

    /// The block of `addr` with `prefix` fixed bits; `None` where `prefix`
    /// is above 32.
    pub fn new(addr: u32, prefix: u8) -> (r: Option<Ipv4Cidr>)
        ensures
            r is Some <==> prefix <= 32,
            r matches Some(block) ==> block.spec_addr() == addr && block.spec_prefix() == prefix,
    {
        if prefix <= 32 {
            Some(Ipv4Cidr { addr, prefix })
        } else {
            None
        }
    }

    /// Reads a block in CIDR notation.
    pub fn parse(text: &str) -> (r: Option<Ipv4Cidr>)
        ensures
            r is Some <==> cidr_of_text(text@) is Some,
            r matches Some(block) ==> cidr_of_text(text@) == Some(
                (block.spec_addr(), block.spec_prefix()),
            ),
    {
        match read_cidr(text) {
            Some((addr, prefix)) => Some(Ipv4Cidr { addr, prefix }),
            None => None,
        }
    }

    #[verifier::when_used_as_spec(spec_addr)]
    pub fn addr(&self) -> (r: u32)
        ensures
            r == self.spec_addr(),
    {
        self.addr
    }

    #[verifier::when_used_as_spec(spec_prefix)]
    pub fn prefix(&self) -> (r: u8)
        ensures
            r == self.spec_prefix(),
            r <= 32,
    {
        proof {
            use_type_invariant(self);
        }
        self.prefix
    }

    /// Whether `ip` lies in this block.
    #[verifier::when_used_as_spec(spec_contains)]
    pub fn contains(&self, ip: u32) -> (r: bool)
        ensures
            r == self.spec_contains(ip),
    {
        proof {
            use_type_invariant(self);
            lemma_in_block_iff_masked_equal(self.addr, self.prefix, ip);
        }
        let mask: u32 = if self.prefix >= 32 {
            0xffff_ffffu32
        } else {
            !(0xffff_ffffu32 >> (self.prefix as u32))
        };
        (ip & mask) == (self.addr & mask)
    }
}

/// Why a containment test could not be made.
#[derive(Clone, Copy, Debug, PartialEq, Eq, Structural)]
pub enum CidrParseError {
    /// The block is not in CIDR notation.
    MalformedCidr,
    /// The address is not a dotted quad.
    MalformedAddress,
}

/// What the containment test says of the address `ip` and the block
/// `cidr`, both as text: the block is read first, then the address.
pub open spec fn containment(ip: Seq<char>, cidr: Seq<char>) -> Result<bool, CidrParseError> {
    match cidr_of_text(cidr) {
        None => Err(CidrParseError::MalformedCidr),
        Some(block) => match dotted_quad(ip) {
            None => Err(CidrParseError::MalformedAddress),
            Some(a) => Ok(in_block(block.0, block.1, a)),
        },
    }
}

/// Whether the address `ip` lies in the block `cidr`.
pub fn is_this_ip_in_this_cidr(ip: &str, cidr: &str) -> (r: Result<bool, CidrParseError>)
    ensures
        r == containment(ip@, cidr@),
{
    match Ipv4Cidr::parse(cidr) {
        None => Err(CidrParseError::MalformedCidr),
        Some(block) => match parse_ipv4(ip) {
            None => Err(CidrParseError::MalformedAddress),
            Some(a) => Ok(block.contains(a)),
        },
    }
}

} // verus!
