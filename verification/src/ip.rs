//! IP addresses and networks as plain numbers.
use vstd::prelude::*;

verus! {

/// An IP address as its family and the number that its bits write.
#[derive(Clone, Copy, Debug, PartialEq, Eq, Structural)]
pub enum IpAddress {
    V4(u32),
    V6(u128),
}

/// The addresses that share the first `prefix` bits of `address`.
#[derive(Clone, Copy, Debug, PartialEq, Eq, Structural)]
pub struct IpNetwork {
    pub address: IpAddress,
    pub prefix: u8,
}

impl IpAddress {
    /// How many bits an address of this family has.
    pub open spec fn width(self) -> nat {
        match self {
            IpAddress::V4(_) => 32,
            IpAddress::V6(_) => 128,
        }
    }

    /// The number that the bits write.
    pub open spec fn bits(self) -> nat {
        match self {
            IpAddress::V4(n) => n as nat,
            IpAddress::V6(n) => n as nat,
        }
    }
}

impl IpNetwork {
    /// Whether the prefix is no longer than an address.
    pub open spec fn is_valid(self) -> bool {
        self.prefix <= self.address.width()
    }

    /// Whether `ip` is of the network's family and has the same first `prefix` bits.
    pub open spec fn includes(self, ip: IpAddress) -> bool {
        let size = vstd::arithmetic::power2::pow2((self.address.width() - self.prefix) as nat);
        self.address.width() == ip.width() && self.address.bits() / size == ip.bits() / size
    }

    /// Whether `ip` belongs to the network.
    pub fn contains(&self, ip: IpAddress) -> (r: bool)
        requires
            self.is_valid(),
        ensures
            r == self.includes(ip),
    {
        match (self.address, ip) {
            (IpAddress::V4(a), IpAddress::V4(b)) => {
                if self.prefix == 0 {
                    proof {
                        vstd::arithmetic::power2::lemma2_to64();
                        vstd::arithmetic::div_mod::lemma_basic_div(a as int, vstd::arithmetic::power2::pow2(32) as int);
                        vstd::arithmetic::div_mod::lemma_basic_div(b as int, vstd::arithmetic::power2::pow2(32) as int);
                    }
                    true
                } else {
                    let shift: u32 = 32 - self.prefix as u32;
                    proof {
                        vstd::bits::lemma_u32_shr_is_div(a, shift);
                        vstd::bits::lemma_u32_shr_is_div(b, shift);
                    }
                    (a >> shift) == (b >> shift)
                }
            },
            (IpAddress::V6(a), IpAddress::V6(b)) => {
                if self.prefix == 0 {
                    proof {
                        vstd::arithmetic::power2::lemma2_to64();
                        vstd::arithmetic::power2::lemma_pow2_adds(64, 64);
                        assert(vstd::arithmetic::power2::pow2(128) == 0x1_0000_0000_0000_0000 * 0x1_0000_0000_0000_0000);
                        vstd::arithmetic::div_mod::lemma_basic_div(a as int, vstd::arithmetic::power2::pow2(128) as int);
                        vstd::arithmetic::div_mod::lemma_basic_div(b as int, vstd::arithmetic::power2::pow2(128) as int);
                    }
                    true
                } else {
                    let shift: u128 = 128 - self.prefix as u128;
                    proof {
                        vstd::bits::lemma_u128_shr_is_div(a, shift);
                        vstd::bits::lemma_u128_shr_is_div(b, shift);
                    }
                    (a >> shift) == (b >> shift)
                }
            },
            _ => false,
        }
    }
}

/// The address that a text writes, as the standard library's `IpAddr` reads it.
pub uninterp spec fn parsed_ip(text: Seq<char>) -> Option<IpAddress>;

/// The network that a text writes in CIDR notation, as `ipnet::IpNet` reads it.
pub uninterp spec fn parsed_network(text: Seq<char>) -> Option<IpNetwork>;

/// The text of an address, as the standard library shows it.
pub uninterp spec fn shown_ip(ip: IpAddress) -> Seq<char>;

/// Reads an address with the standard library's `FromStr` of `IpAddr`, the type that
/// `ipnet::IpNet::new` takes, and hands back its family and bits. The result depends on the text
/// alone; the grammar of addresses is not written out here.
#[verifier::external_body]
pub(crate) fn parse_ip(text: &str) -> (r: Option<IpAddress>)
    ensures
        r == parsed_ip(text@),
{
    match ipnet::IpNet::new(text.parse().ok()?, 0).ok()? {
        ipnet::IpNet::V4(net) => Some(IpAddress::V4(u32::from(net.addr()))),
        ipnet::IpNet::V6(net) => Some(IpAddress::V6(u128::from(net.addr()))),
    }
}

/// Shows an address with the standard library's `Display` of `Ipv4Addr` and `Ipv6Addr`, the types
/// of the addresses in `ipnet::Ipv4Net` and `ipnet::Ipv6Net`. The text depends on the address
/// alone; how it looks is not written out here.
#[verifier::external_body]
pub(crate) fn show_ip(ip: IpAddress) -> (r: String)
    ensures
        r@ == shown_ip(ip),
{
    match ip {
        IpAddress::V4(n) => ipnet::Ipv4Net::new_assert(n.into(), 0).addr().to_string(),
        IpAddress::V6(n) => ipnet::Ipv6Net::new_assert(n.into(), 0).addr().to_string(),
    }
}

/// Reads a network with the `FromStr` of `ipnet::IpNet` and hands back its address and prefix
/// length. The result depends on the text alone, and the prefix is never longer than an address
/// of the network's family. The grammar is not written out here.
#[verifier::external_body]
pub(crate) fn parse_network(text: &str) -> (r: Option<IpNetwork>)
    ensures
        r == parsed_network(text@),
        r matches Some(network) ==> network.is_valid(),
{
    match text.parse::<ipnet::IpNet>().ok()? {
        ipnet::IpNet::V4(net) => {
            Some(IpNetwork { address: IpAddress::V4(u32::from(net.addr())), prefix: net.prefix_len() })
        },
        ipnet::IpNet::V6(net) => {
            Some(IpNetwork { address: IpAddress::V6(u128::from(net.addr())), prefix: net.prefix_len() })
        },
    }
}

/// Whether a whitelist entry admits `ip`: the network that it writes includes the address, or it
/// writes no network and is that address.
pub open spec fn admits(
    network: Option<IpNetwork>,
    single: Option<IpAddress>,
    ip: IpAddress,
) -> bool {
    match network {
        Some(net) => net.includes(ip),
        None => single == Some(ip),
    }
}

/// Whether an entry, read as a network and as an address, admits `ip`.
pub fn entry_admits(
    network: Option<IpNetwork>,
    single: Option<IpAddress>,
    ip: IpAddress,
) -> (r: bool)
    requires
        network matches Some(net) ==> net.is_valid(),
    ensures
        r == admits(network, single, ip),
{
    match network {
        Some(net) => net.contains(ip),
        None => match single {
            Some(address) => address == ip,
            None => false,
        },
    }
}

}
