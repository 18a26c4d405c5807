//! Address checks used when resolving discovered devices: which of the
//! machine's addresses count, and whether a peer shares a /24 with one.
use vstd::prelude::*;
use crate::lan::{IpAddress, Ipv4Address, NetInterface, spec_is_valid_lan_ipv4, is_valid_lan_ipv4};

verus! {

/// An address worth keeping: a valid LAN IPv4 address, or an IPv6 address
/// that is not loopback (`::1`), unspecified (`::`) or multicast (`ff00::/8`).
pub open spec fn spec_is_valid_lan_ip(ip: IpAddress) -> bool {
    match ip {
        IpAddress::V4(v4) => spec_is_valid_lan_ipv4(v4),
        IpAddress::V6(v6) => {
            let loopback = v6.s0 == 0 && v6.s1 == 0 && v6.s2 == 0 && v6.s3 == 0 && v6.s4 == 0
                && v6.s5 == 0 && v6.s6 == 0 && v6.s7 == 1;
            let unspecified = v6.s0 == 0 && v6.s1 == 0 && v6.s2 == 0 && v6.s3 == 0 && v6.s4 == 0
                && v6.s5 == 0 && v6.s6 == 0 && v6.s7 == 0;
            let multicast = v6.s0 >= 0xff00;
            !loopback && !unspecified && !multicast
        },
    }
}

/// Whether an address is worth keeping (see `spec_is_valid_lan_ip`).
pub fn is_valid_lan_ip(ip: &IpAddress) -> (res: bool)
    ensures
        res == spec_is_valid_lan_ip(*ip),
{
    match ip {
        IpAddress::V4(v4) => is_valid_lan_ipv4(v4),
        IpAddress::V6(v6) => {
            let zero6 = v6.s0 == 0 && v6.s1 == 0 && v6.s2 == 0 && v6.s3 == 0 && v6.s4 == 0 && v6.s5
                == 0 && v6.s6 == 0;
            let loopback = zero6 && v6.s7 == 1;
            let unspecified = zero6 && v6.s7 == 0;
            let multicast = v6.s0 >= 0xff00;
            !loopback && !unspecified && !multicast
        },
    }
}

/// The addresses worth keeping among the interfaces, in order, of both
/// families, whatever the interface's name.
pub open spec fn spec_valid_local_ips(addrs: Seq<IpAddress>) -> Seq<IpAddress> {
    addrs.filter(|ip: IpAddress| spec_is_valid_lan_ip(ip))
}

/// The machine's addresses worth keeping (see `spec_is_valid_lan_ip`).
pub fn list_local_lan_ips(interfaces: &Vec<NetInterface>) -> (res: Vec<IpAddress>)
    ensures
        res@ == spec_valid_local_ips(Seq::new(interfaces@.len(), |i: int| interfaces@[i].addr)),
{
    let ghost addrs = Seq::new(interfaces@.len(), |i: int| interfaces@[i].addr);
    let mut out: Vec<IpAddress> = Vec::new();
    let mut i: usize = 0;
    while i < interfaces.len()
        invariant
            i <= interfaces@.len(),
            addrs == Seq::new(interfaces@.len(), |i: int| interfaces@[i].addr),
            out@ == spec_valid_local_ips(addrs.take(i as int)),
        decreases interfaces@.len() - i,
    {
        let ip = interfaces[i].addr;
        proof {
            reveal_with_fuel(Seq::filter, 1);
            assert(addrs.take(i + 1).drop_last() =~= addrs.take(i as int));
        }
        if is_valid_lan_ip(&ip) {
            out.push(ip);
        }
        i = i + 1;
    }
    assert(addrs.take(interfaces@.len() as int) =~= addrs);
    out
}

/// Whether two IPv4 addresses share their first three octets.
pub open spec fn spec_same_ipv4_subnet(a: Ipv4Address, b: Ipv4Address) -> bool {
    a.a == b.a && a.b == b.b && a.c == b.c
}

/// Whether two IPv4 addresses lie in the same /24 network.
pub fn same_ipv4_subnet(a: &Ipv4Address, b: &Ipv4Address) -> (res: bool)
    ensures
        res == spec_same_ipv4_subnet(*a, *b),
{
    a.a == b.a && a.b == b.b && a.c == b.c
}

/// An IPv4 target shares a /24 with one of the local IPv4 addresses; an
/// IPv6 target counts as local as soon as there is any local IPv6 address.
pub open spec fn spec_same_subnet_with_local(target: IpAddress, locals: Seq<IpAddress>) -> bool {
    match target {
        IpAddress::V4(t) => exists|i: int|
            0 <= i < locals.len() && (#[trigger] locals[i] matches IpAddress::V4(l)
                && spec_same_ipv4_subnet(l, t)),
        IpAddress::V6(_) => exists|i: int| 0 <= i < locals.len() && #[trigger] locals[i] is V6,
    }
}

/// Whether a peer address is on one of the local networks (see
/// `spec_same_subnet_with_local`); `locals` are the machine's addresses.
pub fn is_same_subnet_with_local(target: &IpAddress, locals: &Vec<IpAddress>) -> (res: bool)
    ensures
        res == spec_same_subnet_with_local(*target, locals@),
{
    let mut i: usize = 0;
    while i < locals.len()
        invariant
            i <= locals@.len(),
            forall|j: int|
                0 <= j < i ==> !(match *target {
                    IpAddress::V4(t) => #[trigger] locals@[j] matches IpAddress::V4(l)
                        && spec_same_ipv4_subnet(l, t),
                    IpAddress::V6(_) => locals@[j] is V6,
                }),
        decreases locals@.len() - i,
    {
        let hit = match (target, &locals[i]) {
            (IpAddress::V4(t), IpAddress::V4(l)) => same_ipv4_subnet(l, t),
            (IpAddress::V6(_), IpAddress::V6(_)) => true,
            _ => false,
        };
        if hit {
            return true;
        }
        i = i + 1;
    }
    false
}

/// The machine's IPv4 addresses that count are exactly those outside the
/// four refused ranges (loopback 127/8, link-local 169.254/16, 0.0.0.0 and
/// 172.16/12): such an address is kept in the local list when the machine
/// has it, and no refused one ever is.
pub proof fn lemma_local_ipv4_kept(addrs: Seq<IpAddress>, ip: Ipv4Address)
    ensures
        spec_is_valid_lan_ip(IpAddress::V4(ip)) <==> !(ip.a == 127 || (ip.a == 169 && ip.b == 254)
            || (ip.a == 0 && ip.b == 0 && ip.c == 0 && ip.d == 0) || (ip.a == 172 && 16 <= ip.b
            && ip.b < 32)),
        spec_valid_local_ips(addrs).contains(IpAddress::V4(ip)) <==> (addrs.contains(
            IpAddress::V4(ip),
        ) && !(ip.a == 127 || (ip.a == 169 && ip.b == 254) || (ip.a == 0 && ip.b == 0 && ip.c == 0
            && ip.d == 0) || (ip.a == 172 && 16 <= ip.b && ip.b < 32))),
{
    broadcast use vstd::seq_lib::group_filter_ensures;

    let pred = |x: IpAddress| spec_is_valid_lan_ip(x);
    let f = addrs.filter(pred);
    if f.contains(IpAddress::V4(ip)) {
        addrs.lemma_filter_contains_rev(pred, IpAddress::V4(ip));
        let k = choose|k: int| 0 <= k < f.len() && f[k] == IpAddress::V4(ip);
        assert(pred(f[k]));
    }
    if addrs.contains(IpAddress::V4(ip)) && spec_is_valid_lan_ip(IpAddress::V4(ip)) {
        let k = choose|k: int| 0 <= k < addrs.len() && addrs[k] == IpAddress::V4(ip);
        addrs.lemma_filter_contains(pred, k);
    }
}

} // verus!
