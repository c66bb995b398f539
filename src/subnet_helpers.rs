use vstd::prelude::*;
use vstd::arithmetic::power2::pow2;

use crate::errors::{AppErrors, AppFault};
use crate::models::Subnet;
use crate::text::{all_digits, decimal_text, digits_value, push_decimal};

verus! {

/// Whether `d` is a run of one to `max_len` digits whose value is below
/// `bound`; leading zeros are allowed.
pub open spec fn number_text(d: Seq<char>, max_len: nat, bound: nat) -> bool {
    0 < d.len() <= max_len && all_digits(d) && digits_value(d) < bound
}

/// Whether `s` is written `a.b.c.d/p` with the parts `parts`: four octets
/// of one to three digits below 256, and a prefix length of one or two
/// digits below 33.
pub open spec fn cidr_parts(s: Seq<char>, parts: Seq<Seq<char>>) -> bool {
    &&& parts.len() == 5
    &&& forall|i: int| 0 <= i < 4 ==> number_text(#[trigger] parts[i], 3, 256)
    &&& number_text(parts[4], 2, 33)
    &&& s == parts[0] + seq!['.'] + parts[1] + seq!['.'] + parts[2] + seq!['.'] + parts[3] + seq![
        '/',
    ] + parts[4]
}

/// What a CIDR text reads as: the address as a 32-bit integer, most
/// significant octet first, and the prefix length; nothing when the text is
/// not of that form.
pub open spec fn cidr_of(s: Seq<char>) -> Option<(u32, u8)> {
    if exists|parts: Seq<Seq<char>>| cidr_parts(s, parts) {
        let parts = choose|parts: Seq<Seq<char>>| cidr_parts(s, parts);
        Some(
            (
                (digits_value(parts[0]) * 0x1000000 + digits_value(parts[1]) * 0x10000
                    + digits_value(parts[2]) * 0x100 + digits_value(parts[3])) as u32,
                digits_value(parts[4]) as u8,
            ),
        )
    } else {
        None
    }
}

/// The number of addresses in a block with a prefix of `prefix_len` bits.
pub open spec fn block_size(prefix_len: u8) -> nat {
    pow2((32 - prefix_len) as nat)
}

/// The network address of `net`: its address with the host bits cleared.
pub open spec fn network_of(net: Subnet) -> int {
    net.addr as int - (net.addr as int) % (block_size(net.prefix_len) as int)
}

/// The broadcast address of `net`: its address with the host bits set.
pub open spec fn broadcast_of(net: Subnet) -> int {
    network_of(net) + block_size(net.prefix_len) - 1
}

/// The first host address of `net`; the network address is left out where
/// the prefix is shorter than 31 bits.
pub open spec fn first_host(net: Subnet) -> int {
    if net.prefix_len < 31 {
        network_of(net) + 1
    } else {
        network_of(net)
    }
}

/// The last host address of `net`; the broadcast address is left out where
/// the prefix is shorter than 31 bits.
pub open spec fn last_host(net: Subnet) -> int {
    if net.prefix_len < 31 {
        broadcast_of(net) - 1
    } else {
        broadcast_of(net)
    }
}

/// The number of host addresses of `net`.
pub open spec fn host_count(net: Subnet) -> nat {
    (last_host(net) - first_host(net) + 1) as nat
}

/// Relies on `<ipnet::Ipv4Net as FromStr>::from_str`: it reads the whole
/// text as four octets, each a greedy run of at most three digits below
/// 256, separated by `.`, then `/` and a greedy run of at most two digits
/// below 33, and keeps the address as written.
#[verifier::external_body]
fn read_ipv4_net(s: &str) -> (r: Option<Subnet>)
    ensures
        match r {
            Some(net) => cidr_of(s@) == Some((net.addr, net.prefix_len)) && net.prefix_len <= 32,
            None => cidr_of(s@) is None,
        },
{
    match s.parse::<ipnet::Ipv4Net>() {
        Ok(net) => Some(Subnet { addr: u32::from(net.addr()), prefix_len: net.prefix_len() }),
        Err(_) => None,
    }
}

/// Relies on `ipnet::Ipv4Net::hosts`: the range from the network address to
/// the broadcast address, both left out where the prefix is shorter than 31
/// bits; its `min` and `max` are its ends.
#[verifier::external_body]
fn host_bounds(net: Subnet) -> (r: (u32, u32))
    requires
        net.wf(),
    ensures
        r.0 == first_host(net),
        r.1 == last_host(net),
        r.0 <= r.1,
{
    let hosts = ipnet::Ipv4Net::new(net.addr.into(), net.prefix_len).unwrap().hosts();
    (
        u32::from(Iterator::min(hosts).unwrap()),
        u32::from(Iterator::max(hosts).unwrap()),
    )
}

/// Reads a subnet written in CIDR form, such as `172.16.0.0/16`.
pub fn parse_subnet(subnet: String) -> (r: Result<Subnet, AppErrors>)
    ensures
        match r {
            Ok(net) => cidr_of(subnet@) == Some((net.addr, net.prefix_len)) && net.wf(),
            Err(e) => cidr_of(subnet@) is None && e@ == AppFault::SubnetParse(subnet@),
        },
{
    match read_ipv4_net(subnet.as_str()) {
        Some(net) => Ok(net),
        None => Err(AppErrors::SubnetParseError { subnet }),
    }
}

/// The dotted-quad text of the address `addr`, most significant byte first.
pub open spec fn ipv4_text(addr: u32) -> Seq<char> {
    decimal_text(addr as nat / 0x1000000) + seq!['.'] + decimal_text(addr as nat / 0x10000 % 0x100)
        + seq!['.'] + decimal_text(addr as nat / 0x100 % 0x100) + seq!['.'] + decimal_text(
        addr as nat % 0x100,
    )
}

/// Appends the dotted-quad text of `addr` to `out`.
pub fn push_ipv4(out: &mut String, addr: u32)
    ensures
        final(out)@ == old(out)@ + ipv4_text(addr),
{
    let ghost start = out@;
    push_decimal(out, (addr / 0x1000000) as u64);
    out.append(".");
    push_decimal(out, (addr / 0x10000 % 0x100) as u64);
    out.append(".");
    push_decimal(out, (addr / 0x100 % 0x100) as u64);
    out.append(".");
    push_decimal(out, (addr % 0x100) as u64);
    proof {
        reveal_strlit(".");
    }
    assert(out@ =~= start + ipv4_text(addr));
}

impl Subnet {
    /// The CIDR text of the subnet: its address, a `/`, its prefix length.
    pub open spec fn text(self) -> Seq<char> {
        ipv4_text(self.addr) + seq!['/'] + decimal_text(self.prefix_len as nat)
    }

    /// The CIDR text of the subnet, such as `172.16.0.0/16`.
    pub fn to_string(&self) -> (r: String)
        ensures
            r@ == self.text(),
    {
        let mut out = String::new();
        push_ipv4(&mut out, self.addr);
        out.append("/");
        push_decimal(&mut out, self.prefix_len as u64);
        proof {
            reveal_strlit("/");
        }
        assert(out@ =~= self.text());
        out
    }

    /// The first and the last host address of the subnet.
    pub fn host_range(&self) -> (r: (u32, u32))
        requires
            self.wf(),
        ensures
            r.0 == first_host(*self),
            r.1 == last_host(*self),
            r.0 <= r.1,
    {
        host_bounds(*self)
    }

    /// The number of host addresses of the subnet.
    pub fn host_count(&self) -> (r: u64)
        requires
            self.wf(),
        ensures
            r == host_count(*self),
            1 <= r <= u32::MAX + 1,
    {
        let (first, last) = host_bounds(*self);
        (last - first) as u64 + 1
    }
}

} // verus!
