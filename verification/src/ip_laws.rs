//! What networks of addresses are, bit by bit.
use crate::ip;
use crate::ip::{IpAddress, IpNetwork};
use vstd::arithmetic::div_mod::{lemma_basic_div, lemma_div_denominator};
use vstd::arithmetic::power2::{lemma_pow2_pos, lemma_pow2_unfold, pow2};
use vstd::prelude::*;

verus! {

/// Two numbers agree without their low `m` bits exactly where they agree in each other bit.
proof fn lemma_high_parts(a: nat, b: nat, m: nat, w: nat)
    requires
        m <= w,
        a < pow2(w),
        b < pow2(w),
    ensures
        a / pow2(m) == b / pow2(m) <==> forall|k: nat|
            m <= k < w ==> (a / #[trigger] pow2(k)) % 2 == (b / pow2(k)) % 2,
    decreases w - m,
{
    lemma_pow2_pos(m);
    if m == w {
        lemma_basic_div(a as int, pow2(m) as int);
        lemma_basic_div(b as int, pow2(m) as int);
    } else {
        lemma_high_parts(a, b, m + 1, w);
        lemma_pow2_unfold(m + 1);
        lemma_div_denominator(a as int, pow2(m) as int, 2);
        lemma_div_denominator(b as int, pow2(m) as int, 2);
        let x = a / pow2(m);
        let y = b / pow2(m);
        assert(pow2(m + 1) == pow2(m) * 2);
        assert(a / pow2(m + 1) == x / 2);
        assert(b / pow2(m + 1) == y / 2);
        assert(x == y <==> x / 2 == y / 2 && x % 2 == y % 2);
        if x == y {
            assert forall|k: nat| m <= k < w implies (a / #[trigger] pow2(k)) % 2 == (b / pow2(k)) % 2 by {}
        }
    }
}

/// An IPv4 network holds exactly the IPv4 addresses that agree with its own in each of the first
/// `prefix` bits; no bit behind those counts.
pub proof fn law_v4_network_by_bits(a: u32, prefix: u8, b: u32)
    requires
        prefix <= 32,
    ensures
        (IpNetwork { address: IpAddress::V4(a), prefix }).includes(IpAddress::V4(b)) <==> forall|k: u32|
            32 - prefix <= k < 32 ==> (#[trigger] (a >> k)) & 1 == (b >> k) & 1,
{
    let m = (32 - prefix) as nat;
    vstd::arithmetic::power2::lemma2_to64();
    lemma_high_parts(a as nat, b as nat, m, 32);
    assert forall|k: u32| k < 32 implies (#[trigger] (a >> k)) & 1 == (a as nat / pow2(k as nat)) % 2 && (b >> k) & 1
        == (b as nat / pow2(k as nat)) % 2 by {
        vstd::bits::lemma_u32_shr_is_div(a, k);
        vstd::bits::lemma_u32_shr_is_div(b, k);
        let x = a >> k;
        let y = b >> k;
        assert(x & 1 == x % 2) by (bit_vector);
        assert(y & 1 == y % 2) by (bit_vector);
    }
    if forall|k: u32| 32 - prefix <= k < 32 ==> (#[trigger] (a >> k)) & 1 == (b >> k) & 1 {
        assert forall|k: nat| m <= k < 32 implies (a as nat / #[trigger] pow2(k)) % 2 == (b as nat / pow2(k)) % 2 by {
            let j = k as u32;
            assert((a >> j) & 1 == (b >> j) & 1);
        }
    } else {
        let j = choose|k: u32| 32 - prefix <= k < 32 && (#[trigger] (a >> k)) & 1 != (b >> k) & 1;
        assert((a as nat / pow2(j as nat)) % 2 != (b as nat / pow2(j as nat)) % 2);
    }
}

/// An IPv6 network holds exactly the IPv6 addresses that agree with its own in each of the first
/// `prefix` bits; no bit behind those counts.
pub proof fn law_v6_network_by_bits(a: u128, prefix: u8, b: u128)
    requires
        prefix <= 128,
    ensures
        (IpNetwork { address: IpAddress::V6(a), prefix }).includes(IpAddress::V6(b)) <==> forall|k: u128|
            128 - prefix <= k < 128 ==> (#[trigger] (a >> k)) & 1 == (b >> k) & 1,
{
    let m = (128 - prefix) as nat;
    vstd::arithmetic::power2::lemma2_to64();
    vstd::arithmetic::power2::lemma_pow2_adds(64, 64);
    assert(pow2(128) == 0x1_0000_0000_0000_0000 * 0x1_0000_0000_0000_0000);
    lemma_high_parts(a as nat, b as nat, m, 128);
    assert forall|k: u128| k < 128 implies (#[trigger] (a >> k)) & 1 == (a as nat / pow2(k as nat)) % 2 && (b >> k) & 1
        == (b as nat / pow2(k as nat)) % 2 by {
        vstd::bits::lemma_u128_shr_is_div(a, k);
        vstd::bits::lemma_u128_shr_is_div(b, k);
        let x = a >> k;
        let y = b >> k;
        assert(x & 1 == x % 2) by (bit_vector);
        assert(y & 1 == y % 2) by (bit_vector);
    }
    if forall|k: u128| 128 - prefix <= k < 128 ==> (#[trigger] (a >> k)) & 1 == (b >> k) & 1 {
        assert forall|k: nat| m <= k < 128 implies (a as nat / #[trigger] pow2(k)) % 2 == (b as nat / pow2(k)) % 2 by {
            let j = k as u128;
            assert((a >> j) & 1 == (b >> j) & 1);
        }
    } else {
        let j = choose|k: u128| 128 - prefix <= k < 128 && (#[trigger] (a >> k)) & 1 != (b >> k) & 1;
        assert((a as nat / pow2(j as nat)) % 2 != (b as nat / pow2(j as nat)) % 2);
    }
}

/// A network holds no address of the other family, and its prefix may be as long as its addresses:
/// 32 bits, or 128.
pub proof fn law_networks_keep_to_their_family(a: u32, b: u128, prefix: u8)
    ensures
        !(IpNetwork { address: IpAddress::V4(a), prefix }).includes(IpAddress::V6(b)),
        !(IpNetwork { address: IpAddress::V6(b), prefix }).includes(IpAddress::V4(a)),
        (IpNetwork { address: IpAddress::V4(a), prefix }).is_valid() <==> prefix <= 32,
        (IpNetwork { address: IpAddress::V6(b), prefix }).is_valid() <==> prefix <= 128,
{
}

/// A network holds its own address, and a longer prefix makes it no larger.
pub proof fn law_longer_prefixes_admit_less(address: IpAddress, short: u8, long: u8, ip: IpAddress)
    requires
        short <= long,
        (IpNetwork { address, prefix: long }).is_valid(),
    ensures
        (IpNetwork { address, prefix: long }).includes(address),
        (IpNetwork { address, prefix: long }).includes(ip) ==> (IpNetwork { address, prefix: short }).includes(ip),
{
    match (address, ip) {
        (IpAddress::V4(a), IpAddress::V4(b)) => {
            law_v4_network_by_bits(a, short, b);
            law_v4_network_by_bits(a, long, b);
            law_v4_network_by_bits(a, long, a);
        },
        (IpAddress::V6(a), IpAddress::V6(b)) => {
            law_v6_network_by_bits(a, short, b);
            law_v6_network_by_bits(a, long, b);
            law_v6_network_by_bits(a, long, a);
        },
        _ => {},
    }
}

/// Networks of single addresses, those with the longest prefix, hold their own address alone.
pub proof fn law_full_prefixes_are_single_addresses(a: u32, b: u32, c: u128, d: u128)
    ensures
        (IpNetwork { address: IpAddress::V4(a), prefix: 32 }).includes(IpAddress::V4(b)) <==> a == b,
        (IpNetwork { address: IpAddress::V6(c), prefix: 128 }).includes(IpAddress::V6(d)) <==> c == d,
{
    vstd::arithmetic::power2::lemma2_to64();
    assert(pow2(0) == 1);
    assert((32 - 32u8) as nat == 0 && (128 - 128u8) as nat == 0);
    assert(a as nat / 1 == a as nat && b as nat / 1 == b as nat);
    assert(c as nat / 1 == c as nat && d as nat / 1 == d as nat);
}

/// An entry that reads as a network admits the addresses in it and no other, whether or not it
/// reads as an address; one that reads as an address alone admits that address; one that reads as
/// neither admits nobody.
pub proof fn law_entries_admit_by_what_they_read_as(
    network: IpNetwork,
    single: Option<IpAddress>,
    address: IpAddress,
    ip: IpAddress,
)
    ensures
        ip::admits(Some(network), single, ip) <==> network.includes(ip),
        ip::admits(None, Some(address), ip) <==> address == ip,
        !ip::admits(None, None, ip),
{
}

}
