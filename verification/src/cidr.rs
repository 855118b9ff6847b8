//! IPv4 networks in CIDR notation. Everything that is announced over BGP is IPv4, so IPv6
//! networks have no place here.

use crate::addr::{parse_ipv4, Ipv4Addr};
use crate::error::{Error, ErrorView};
use crate::number::{parse_decimal, read_decimal};
use crate::text::{owned, split_at_first, split_once};
use vstd::arithmetic::div_mod::{
    lemma_div_denominator, lemma_fundamental_div_mod, lemma_fundamental_div_mod_converse,
};
use vstd::arithmetic::power2::{lemma_pow2_adds, lemma_pow2_pos, pow2};
use vstd::prelude::*;

verus! {

/// The address and the prefix length that a text writes as `<address>/<prefix length>`.
pub open spec fn cidr_of(s: Seq<char>) -> Result<(Ipv4Addr, u8), ErrorView> {
    match split_once(s, '/') {
        None => Err(ErrorView::NotCidr { text: s }),
        Some((addr, prefix)) => match parse_ipv4(addr) {
            None => Err(ErrorView::CidrAddress { text: s }),
            Some(a) => match parse_decimal(prefix, 255) {
                None => Err(ErrorView::CidrPrefix { text: s }),
                Some(n) => if n <= 32 {
                    Ok((a, n as u8))
                } else {
                    Err(ErrorView::CidrPrefixRange { text: s, prefix: n as u8 })
                },
            },
        },
    }
}

/// How many addresses a network with this prefix length has.
pub open spec fn block_size(prefix_len: u8) -> nat {
    pow2((32 - prefix_len) as nat)
}

/// Whether the address `x` lies in the network of `prefix_len` that `addr` lies in.
pub open spec fn in_block(x: u32, addr: Ipv4Addr, prefix_len: u8) -> bool {
    x as int / block_size(prefix_len) as int == addr.bits as int / block_size(prefix_len) as int
}

/// The first address of the network of `prefix_len` that `addr` lies in.
pub open spec fn network(addr: Ipv4Addr, prefix_len: u8) -> Ipv4Addr {
    Ipv4Addr { bits: (addr.bits - addr.bits as int % block_size(prefix_len) as int) as u32 }
}

/// Whether every address of `candidate`'s network lies in `range`'s network.
pub open spec fn within(candidate: (Ipv4Addr, u8), range: (Ipv4Addr, u8)) -> bool {
    forall|x: u32| #[trigger]
        in_block(x, candidate.0, candidate.1) ==> in_block(x, range.0, range.1)
}

/// Whether the network that `candidate` writes falls entirely within the one that `range`
/// writes. Where one of them writes none, the error of the first that does not.
pub open spec fn contains(range: Seq<char>, candidate: Seq<char>) -> Result<bool, ErrorView> {
    match cidr_of(range) {
        Err(e) => Err(e),
        Ok(r) => match cidr_of(candidate) {
            Err(e) => Err(e),
            Ok(c) => Ok(within(c, r)),
        },
    }
}

/// Reads a network in CIDR notation.
pub fn parse_cidr(s: &str) -> (r: Result<(Ipv4Addr, u8), Error>)
    ensures
        match r {
            Ok(v) => cidr_of(s@) == Ok::<(Ipv4Addr, u8), ErrorView>(v),
            Err(e) => cidr_of(s@) == Err::<(Ipv4Addr, u8), ErrorView>(e.deep_view()),
        },
        r matches Ok(v) ==> v.1 <= 32,
{
    let (addr, prefix) = match split_at_first(s, '/') {
        Some(p) => p,
        None => {
            return Err(Error::NotCidr { text: owned(s) });
        },
    };
    let a = match Ipv4Addr::parse(addr.as_str()) {
        Some(a) => a,
        None => {
            return Err(Error::CidrAddress { text: owned(s) });
        },
    };
    match read_decimal(prefix.as_str(), 255) {
        None => Err(Error::CidrPrefix { text: owned(s) }),
        Some(n) => {
            if n <= 32 {
                Ok((a, n as u8))
            } else {
                Err(Error::CidrPrefixRange { text: owned(s), prefix: n as u8 })
            }
        },
    }
}

proof fn lemma_mask(a: u32, n: u32)
    requires
        n < 32,
    ensures
        (a & (0xffff_ffffu32 << n)) == a - a as int % pow2(n as nat) as int,
{
    assert((a & (0xffff_ffffu32 << n)) == (a >> n) << n) by (bit_vector)
        requires
            n < 32,
    ;
    vstd::bits::lemma_u32_shr_is_div(a, n);
    lemma_pow2_pos(n as nat);
    let p = pow2(n as nat) as int;
    lemma_fundamental_div_mod(a as int, p);
    assert((a as int / p) * p == p * (a as int / p)) by (nonlinear_arith);
    vstd::bits::lemma_u32_shl_is_mul(a >> n, n);
}

/// The network of `prefix_len` that `addr` lies in, by its first address.
pub fn network_addr(addr: Ipv4Addr, prefix_len: u8) -> (r: Ipv4Addr)
    requires
        prefix_len <= 32,
    ensures
        r == network(addr, prefix_len),
{
    if prefix_len == 0 {
        proof {
            vstd::arithmetic::power2::lemma2_to64();
            assert(addr.bits as int % 0x1_0000_0000 == addr.bits);
        }
        return Ipv4Addr { bits: 0 };
    }
    let shift: u32 = 32 - (prefix_len as u32);
    let mask: u32 = 0xffff_ffffu32 << shift;
    proof {
        lemma_mask(addr.bits, shift);
    }
    Ipv4Addr { bits: addr.bits & mask }
}

proof fn lemma_same_network(a: Ipv4Addr, b: Ipv4Addr, prefix_len: u8)
    requires
        prefix_len <= 32,
    ensures
        (network(a, prefix_len) == network(b, prefix_len)) == in_block(a.bits, b, prefix_len),
{
    let p = block_size(prefix_len) as int;
    lemma_pow2_pos((32 - prefix_len) as nat);
    let (x, y) = (a.bits as int, b.bits as int);
    lemma_fundamental_div_mod(x, p);
    lemma_fundamental_div_mod(y, p);
    let (q, r) = (x / p, y / p);
    assert(0 <= p * q && 0 <= p * r) by (nonlinear_arith)
        requires
            p > 0,
            q >= 0,
            r >= 0,
    ;
    if q != r {
        assert(p * q != p * r) by (nonlinear_arith)
            requires
                p > 0,
                q != r,
        ;
    }
}

/// A longer prefix's network lies within a shorter one's exactly if its address does.
proof fn lemma_within_longer(c: (Ipv4Addr, u8), r: (Ipv4Addr, u8))
    requires
        r.1 <= c.1 <= 32,
    ensures
        within(c, r) == in_block(c.0.bits, r.0, r.1),
{
    let small = block_size(c.1) as int;
    let k = pow2((c.1 - r.1) as nat) as int;
    lemma_pow2_pos((32 - c.1) as nat);
    lemma_pow2_pos((c.1 - r.1) as nat);
    lemma_pow2_adds((32 - c.1) as nat, (c.1 - r.1) as nat);
    assert(block_size(r.1) == small * k);
    if in_block(c.0.bits, r.0, r.1) {
        assert forall|x: u32| #[trigger] in_block(x, c.0, c.1) implies in_block(x, r.0, r.1) by {
            lemma_div_denominator(x as int, small, k);
            lemma_div_denominator(c.0.bits as int, small, k);
        }
    } else {
        assert(in_block(c.0.bits, c.0, c.1));
    }
}

/// A shorter prefix's network never lies within a longer one's.
proof fn lemma_within_shorter(c: (Ipv4Addr, u8), r: (Ipv4Addr, u8))
    requires
        c.1 < r.1 <= 32,
    ensures
        !within(c, r),
{
    let small = block_size(r.1) as int;
    let big = block_size(c.1) as int;
    let k = pow2((r.1 - c.1) as nat) as int;
    lemma_pow2_pos((32 - r.1) as nat);
    lemma_pow2_pos((r.1 - c.1 - 1) as nat);
    lemma_pow2_adds((32 - r.1) as nat, (r.1 - c.1) as nat);
    vstd::arithmetic::power2::lemma_pow2_unfold((r.1 - c.1) as nat);
    assert(big == small * k);
    assert(big >= 2 * small) by (nonlinear_arith)
        requires
            big == small * k,
            k >= 2,
            small > 0,
    ;
    let q = c.0.bits as int / big;
    lemma_fundamental_div_mod(c.0.bits as int, big);
    let base = big * q;
    assert(base + small <= 0xffff_ffff) by {
        // The network ends where the next one starts, at a multiple of its size.
        let m = pow2(c.1 as nat) as int;
        lemma_pow2_adds((32 - c.1) as nat, c.1 as nat);
        vstd::arithmetic::power2::lemma2_to64();
        assert(big * m == 0x1_0000_0000);
        lemma_pow2_pos(c.1 as nat);
        assert(q < m) by (nonlinear_arith)
            requires
                big * q <= 0xffff_ffff,
                big * m == 0x1_0000_0000,
                big > 0,
        ;
        assert(big * q + big <= big * m) by (nonlinear_arith)
            requires
                q + 1 <= m,
                big > 0,
        ;
    }
    assert(base >= 0) by (nonlinear_arith)
        requires
            base == big * q,
            big > 0,
            q >= 0,
    ;
    let x = base as u32;
    let y = (base + small) as u32;
    assert(big * q + 0 == base && 0 <= 0 < big);
    assert(base == q * big) by (nonlinear_arith)
        requires
            base == big * q,
    ;
    lemma_fundamental_div_mod_converse(base, big, q, 0);
    lemma_fundamental_div_mod_converse(base + small, big, q, small);
    assert(in_block(x, c.0, c.1));
    assert(in_block(y, c.0, c.1));
    let s = base / small;
    lemma_fundamental_div_mod(base, small);
    assert((s + 1) * small + base % small == base + small) by (nonlinear_arith)
        requires
            base == small * s + base % small,
    ;
    lemma_fundamental_div_mod_converse(base + small, small, s + 1, base % small);
    assert(!(in_block(x, r.0, r.1) && in_block(y, r.0, r.1)));
}

/// Whether the network `candidate` falls entirely within the network `range`.
pub fn cidr_contains(range: &str, candidate: &str) -> (r: Result<bool, Error>)
    ensures
        match r {
            Ok(b) => contains(range@, candidate@) == Ok::<bool, ErrorView>(b),
            Err(e) => contains(range@, candidate@) == Err::<bool, ErrorView>(e.deep_view()),
        },
{
    let (range_addr, range_prefix) = match parse_cidr(range) {
        Ok(v) => v,
        Err(e) => {
            return Err(e);
        },
    };
    let (cand_addr, cand_prefix) = match parse_cidr(candidate) {
        Ok(v) => v,
        Err(e) => {
            return Err(e);
        },
    };
    if cand_prefix < range_prefix {
        proof {
            lemma_within_shorter((cand_addr, cand_prefix), (range_addr, range_prefix));
        }
        return Ok(false);
    }
    proof {
        lemma_within_longer((cand_addr, cand_prefix), (range_addr, range_prefix));
        lemma_same_network(range_addr, cand_addr, range_prefix);
    }
    Ok(network_addr(range_addr, range_prefix) == network_addr(cand_addr, range_prefix))
}

/// A network lies within itself.
pub proof fn law_within_reflexive(c: (Ipv4Addr, u8))
    ensures
        within(c, c),
{
}

/// A network that lies within a second, which lies within a third, lies within the third.
pub proof fn law_within_transitive(a: (Ipv4Addr, u8), b: (Ipv4Addr, u8), c: (Ipv4Addr, u8))
    requires
        within(a, b),
        within(b, c),
    ensures
        within(a, c),
{
}

/// The first address of a network lies in it, and has itself as its network.
pub proof fn law_network_idempotent(a: Ipv4Addr, prefix_len: u8)
    requires
        prefix_len <= 32,
    ensures
        in_block(network(a, prefix_len).bits, a, prefix_len),
        network(network(a, prefix_len), prefix_len) == network(a, prefix_len),
{
    let p = block_size(prefix_len) as int;
    lemma_pow2_pos((32 - prefix_len) as nat);
    let x = a.bits as int;
    lemma_fundamental_div_mod(x, p);
    let q = x / p;
    assert(0 <= p * q && p * q == q * p) by (nonlinear_arith)
        requires
            p > 0,
            q >= 0,
    ;
    lemma_fundamental_div_mod_converse(p * q, p, q, 0);
}

/// A network lies within another exactly if its prefix is at least as long and the two addresses
/// agree in the other's prefix. Where one of the texts is none, its error is given, the range's
/// first.
pub proof fn law_contains(range: Seq<char>, candidate: Seq<char>)
    ensures
        cidr_of(range) matches Err(e) ==> contains(range, candidate) == Err::<bool, ErrorView>(e),
        cidr_of(range) is Ok && cidr_of(candidate) is Err ==> contains(range, candidate) == Err::<
            bool,
            ErrorView,
        >(cidr_of(candidate)->Err_0),
        cidr_of(range) matches Ok((r, n)) ==> cidr_of(candidate) matches Ok((c, m)) ==> contains(
            range,
            candidate,
        ) == Ok::<bool, ErrorView>(
            n <= m && r.bits as int / pow2((32 - n) as nat) as int == c.bits as int / pow2(
                (32 - n) as nat,
            ) as int,
        ),
{
    if let Ok((r, n)) = cidr_of(range) {
        if let Ok((c, m)) = cidr_of(candidate) {
            if n <= m {
                lemma_within_longer((c, m), (r, n));
            } else {
                lemma_within_shorter((c, m), (r, n));
            }
        }
    }
}

/// The first address of a network is the greatest multiple of the network's size that is not over
/// the address.
pub proof fn law_network(a: Ipv4Addr, prefix_len: u8)
    requires
        prefix_len <= 32,
    ensures
        network(a, prefix_len).bits <= a.bits,
        a.bits < network(a, prefix_len).bits + pow2((32 - prefix_len) as nat),
        network(a, prefix_len).bits as int % pow2((32 - prefix_len) as nat) as int == 0,
{
    let p = pow2((32 - prefix_len) as nat) as int;
    lemma_pow2_pos((32 - prefix_len) as nat);
    let x = a.bits as int;
    lemma_fundamental_div_mod(x, p);
    let q = x / p;
    assert(0 <= p * q && p * q == q * p) by (nonlinear_arith)
        requires
            p > 0,
            q >= 0,
    ;
    lemma_fundamental_div_mod_converse(p * q, p, q, 0);
}

} // verus!
