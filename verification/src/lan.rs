//! The machine's LAN addresses: which interfaces and IPv4 addresses count,
//! and how they are written out.
use vstd::prelude::*;
use vstd::string::StringExecFns;
use vstd::utf8::*;
use vstd::string::StringSliceAdditionalSpecFns;
use crate::text::{append_decimal, decimal_text, push_char};

verus! {

/// An IPv4 address by its four octets.
#[derive(Debug, Clone, Copy, PartialEq, Eq, Structural)]
pub struct Ipv4Address {
    pub a: u8,
    pub b: u8,
    pub c: u8,
    pub d: u8,
}

/// An IPv6 address by its eight 16-bit segments.
#[derive(Debug, Clone, Copy, PartialEq, Eq, Structural)]
pub struct Ipv6Address {
    pub s0: u16,
    pub s1: u16,
    pub s2: u16,
    pub s3: u16,
    pub s4: u16,
    pub s5: u16,
    pub s6: u16,
    pub s7: u16,
}

/// An IP address of either family.
#[derive(Debug, Clone, Copy, PartialEq, Eq, Structural)]
pub enum IpAddress {
    V4(Ipv4Address),
    V6(Ipv6Address),
}

/// A network interface of the machine and one of its addresses.
#[derive(Debug)]
pub struct NetInterface {
    pub name: String,
    pub addr: IpAddress,
}

/// The dotted-decimal text of an IPv4 address (`Ipv4Addr`'s `Display`).
pub open spec fn ipv4_text(ip: Ipv4Address) -> Seq<char> {
    decimal_text(ip.a as nat) + seq!['.'] + decimal_text(ip.b as nat) + seq!['.'] + decimal_text(
        ip.c as nat,
    ) + seq!['.'] + decimal_text(ip.d as nat)
}

/// Writes an IPv4 address in dotted-decimal form.
pub fn ipv4_to_string(ip: Ipv4Address) -> (res: String)
    ensures
        res@ == ipv4_text(ip),
{
    let mut s = String::new();
    append_decimal(&mut s, ip.a as u64);
    push_char(&mut s, '.');
    append_decimal(&mut s, ip.b as u64);
    push_char(&mut s, '.');
    append_decimal(&mut s, ip.c as u64);
    push_char(&mut s, '.');
    append_decimal(&mut s, ip.d as u64);
    assert(s@ =~= ipv4_text(ip));
    s
}

/// An IPv4 address that a LAN peer can reach: not loopback (127/8), not
/// link-local (169.254/16), not unspecified (0.0.0.0), and not in
/// 172.16/12, where Docker and Hyper-V put their virtual networks.
pub open spec fn spec_is_valid_lan_ipv4(ip: Ipv4Address) -> bool {
    &&& ip.a != 127
    &&& !(ip.a == 169 && ip.b == 254)
    &&& !(ip.a == 0 && ip.b == 0 && ip.c == 0 && ip.d == 0)
    &&& !(ip.a == 172 && 16 <= ip.b <= 31)
}

/// Whether an IPv4 address is one a LAN peer can reach (see
/// `spec_is_valid_lan_ipv4`).
pub fn is_valid_lan_ipv4(ip: &Ipv4Address) -> (res: bool)
    ensures
        res == spec_is_valid_lan_ipv4(*ip),
{
    let loopback = ip.a == 127;
    let link_local = ip.a == 169 && ip.b == 254;
    let unspecified = ip.a == 0 && ip.b == 0 && ip.c == 0 && ip.d == 0;
    !loopback && !link_local && !unspecified && !(ip.a == 172 && 16 <= ip.b && ip.b <= 31)
}

/// The LAN filter refuses exactly four ranges: loopback 127/8, link-local
/// 169.254/16, the unspecified 0.0.0.0 and 172.16/12; every other IPv4
/// address, 10/8 and 192.168/16 among them, is accepted.
pub proof fn lemma_lan_filter_ranges(ip: Ipv4Address)
    ensures
        spec_is_valid_lan_ipv4(ip) <==> !(ip.a == 127 || (ip.a == 169 && ip.b == 254) || (ip.a == 0
            && ip.b == 0 && ip.c == 0 && ip.d == 0) || (ip.a == 172 && 16 <= ip.b && ip.b < 32)),
        ip.a == 10 || (ip.a == 192 && ip.b == 168) ==> spec_is_valid_lan_ipv4(ip),
{
}

/// A physical interface with an IPv4 address contributes that address to
/// the LAN list exactly when it lies outside the four refused ranges.
pub proof fn lemma_lan_list_of_one_interface(name: Seq<char>, ip: Ipv4Address)
    requires
        spec_is_physical_interface(name),
    ensures
        spec_lan_ipv4s(seq![(name, IpAddress::V4(ip))]) == if !(ip.a == 127 || (ip.a == 169
            && ip.b == 254) || (ip.a == 0 && ip.b == 0 && ip.c == 0 && ip.d == 0) || (ip.a == 172
            && 16 <= ip.b && ip.b < 32)) {
            seq![ip]
        } else {
            seq![]
        },
{
    let ifs = seq![(name, IpAddress::V4(ip))];
    assert(ifs.drop_last() =~= Seq::<(Seq<char>, IpAddress)>::empty());
    assert(spec_lan_ipv4s(ifs.drop_last()) == Seq::<Ipv4Address>::empty());
    assert(seq![].push(ip) =~= seq![ip]);
}

/// What `str::to_lowercase` gives for a text.
pub uninterp spec fn lowercase(s: Seq<char>) -> Seq<char>;

/// `str::to_lowercase`: Unicode lowercasing of the text.
#[verifier::external_body]
fn str_to_lowercase(s: &str) -> (res: String)
    ensures
        res@ == lowercase(s@),
{
    s.to_lowercase()
}

/// Whether `needle` occurs as a contiguous run in `hay`.
pub open spec fn bytes_contain(hay: Seq<u8>, needle: Seq<u8>) -> bool {
    exists|i: int|
        0 <= i <= hay.len() - needle.len() && #[trigger] hay.subrange(i, i + needle.len()) == needle
}

/// Whether `needle` occurs as a contiguous run in `hay` (`str::contains`
/// with a string pattern, on the UTF-8 bytes).
pub fn contains_bytes(hay: &[u8], needle: &[u8]) -> (res: bool)
    ensures
        res == bytes_contain(hay@, needle@),
{
    if needle.len() > hay.len() {
        return false;
    }
    let hl = hay.len();
    let last = hl - needle.len();
    let mut i: usize = 0;
    loop
        invariant
            last == hay@.len() - needle@.len(),
            hl == hay@.len(),
            i <= last,
            forall|j: int| 0 <= j < i ==> #[trigger] hay@.subrange(j, j + needle@.len()) != needle@,
        decreases last - i,
    {
        let mut k: usize = 0;
        let mut matched = true;
        while k < needle.len()
            invariant
                i <= last,
                last == hay@.len() - needle@.len(),
                i + needle@.len() <= hay@.len(),
                hl == hay@.len(),
                k <= needle@.len(),
                matched ==> forall|m: int| 0 <= m < k ==> hay@[i + m] == needle@[m],
                !matched ==> hay@.subrange(i as int, i + needle@.len()) != needle@,
            decreases needle@.len() - k,
        {
            assert(i + k < hay@.len());
            if matched && hay[i + k] != needle[k] {
                matched = false;
                assert(hay@.subrange(i as int, i + needle@.len())[k as int] != needle@[k as int]);
            }
            k = k + 1;
        }
        if matched {
            assert(hay@.subrange(i as int, i + needle@.len()) =~= needle@);
            return true;
        }
        if i == last {
            assert forall|j: int| 0 <= j <= hay@.len() - needle@.len() implies #[trigger] hay@.subrange(
                j,
                j + needle@.len(),
            ) != needle@ by {}
            return false;
        }
        i = i + 1;
    }
}

/// Name fragments of virtual network adapters (VMware, Hyper-V, VirtualBox,
/// WSL, Docker, TAP, ISATAP, Teredo, the loopback pseudo-interface).
pub open spec fn virtual_keywords() -> Seq<Seq<char>> {
    seq![
        "vmware"@,
        "vethernet"@,
        "virtualbox"@,
        "wsl"@,
        "docker"@,
        "tap"@,
        "isatap"@,
        "teredo"@,
        "loopback pseudo"@,
    ]
}

/// Whether a (lowercased) name contains one of the virtual-adapter
/// keywords.
pub open spec fn has_virtual_keyword(lower: Seq<char>) -> bool {
    exists|k: int|
        0 <= k < virtual_keywords().len() && bytes_contain(
            encode_utf8(lower),
            encode_utf8(#[trigger] virtual_keywords()[k]),
        )
}

/// An interface is taken for a physical one unless its lowercased name
/// contains one of the virtual-adapter keywords.
pub open spec fn spec_is_physical_interface(name: Seq<char>) -> bool {
    !has_virtual_keyword(lowercase(name))
}

/// Whether an already lowercased interface name contains one of the
/// virtual-adapter keywords (see `virtual_keywords`).
pub fn names_virtual_adapter(lower: &str) -> (res: bool)
    ensures
        res == has_virtual_keyword(lower@),
{
    let lb = lower.as_bytes();
    let kws: [&str; 9] = [
        "vmware",
        "vethernet",
        "virtualbox",
        "wsl",
        "docker",
        "tap",
        "isatap",
        "teredo",
        "loopback pseudo",
    ];
    assert(kws@.len() == 9);
    let mut k: usize = 0;
    while k < 9
        invariant
            k <= 9,
            lb@ == encode_utf8(lower@),
            forall|j: int| 0 <= j < 9 ==> (#[trigger] kws@[j])@ == virtual_keywords()[j],
            forall|j: int|
                0 <= j < k ==> !bytes_contain(lb@, encode_utf8(#[trigger] virtual_keywords()[j])),
        decreases 9 - k,
    {
        if contains_bytes(lb, kws[k].as_bytes()) {
            return true;
        }
        k = k + 1;
    }
    false
}

/// Whether an interface name belongs to a physical adapter (see
/// `spec_is_physical_interface`).
pub fn is_physical_interface(name: &str) -> (res: bool)
    ensures
        res == spec_is_physical_interface(name@),
{
    let lower = str_to_lowercase(name);
    !names_virtual_adapter(lower.as_str())
}

/// The usable LAN IPv4 addresses among the machine's interfaces, in
/// interface order: IPv4 only, valid for the LAN, on a physical adapter.
pub open spec fn spec_lan_ipv4s(ifs: Seq<(Seq<char>, IpAddress)>) -> Seq<Ipv4Address>
    decreases ifs.len(),
{
    if ifs.len() == 0 {
        seq![]
    } else {
        let rest = spec_lan_ipv4s(ifs.drop_last());
        match ifs.last().1 {
            IpAddress::V4(v4) => if spec_is_valid_lan_ipv4(v4) && spec_is_physical_interface(
                ifs.last().0,
            ) {
                rest.push(v4)
            } else {
                rest
            },
            IpAddress::V6(_) => rest,
        }
    }
}

/// The name and address of each interface.
pub open spec fn interfaces_view(v: Seq<NetInterface>) -> Seq<(Seq<char>, IpAddress)> {
    Seq::new(v.len(), |i: int| (v[i].name@, v[i].addr))
}

/// The usable LAN IPv4 addresses among the interfaces (see
/// `spec_lan_ipv4s`).
pub fn list_local_lan_ips(interfaces: &Vec<NetInterface>) -> (res: Vec<Ipv4Address>)
    ensures
        res@ == spec_lan_ipv4s(interfaces_view(interfaces@)),
{
    let mut out: Vec<Ipv4Address> = Vec::new();
    let mut i: usize = 0;
    while i < interfaces.len()
        invariant
            i <= interfaces@.len(),
            out@ == spec_lan_ipv4s(interfaces_view(interfaces@).take(i as int)),
        decreases interfaces@.len() - i,
    {
        let itf = &interfaces[i];
        assert(interfaces_view(interfaces@).take(i + 1).drop_last() =~= interfaces_view(
            interfaces@,
        ).take(i as int));
        match itf.addr {
            IpAddress::V4(v4) => {
                if is_valid_lan_ipv4(&v4) && is_physical_interface(itf.name.as_str()) {
                    out.push(v4);
                }
            },
            IpAddress::V6(_) => {},
        }
        i = i + 1;
    }
    assert(interfaces_view(interfaces@).take(interfaces@.len() as int) =~= interfaces_view(
        interfaces@,
    ));
    out
}

/// The addresses written out, separated by commas.
pub open spec fn csv_text(ips: Seq<Ipv4Address>) -> Seq<char>
    decreases ips.len(),
{
    if ips.len() == 0 {
        seq![]
    } else if ips.len() == 1 {
        ipv4_text(ips[0])
    } else {
        csv_text(ips.drop_last()) + seq![','] + ipv4_text(ips.last())
    }
}

/// The preferred LAN address (`get_lan_ip`) opens the announced list
/// (`lan_ips_csv`): the comma-separated text starts with the first address.
pub proof fn lemma_preferred_ip_leads_list(ips: Seq<Ipv4Address>)
    requires
        ips.len() > 0,
    ensures
        ipv4_text(ips[0]).len() <= csv_text(ips).len(),
        csv_text(ips).take(ipv4_text(ips[0]).len() as int) == ipv4_text(ips[0]),
    decreases ips.len(),
{
    if ips.len() > 1 {
        let d = ips.drop_last();
        lemma_preferred_ip_leads_list(d);
        assert(d[0] == ips[0]);
        let k = ipv4_text(ips[0]).len() as int;
        assert(csv_text(ips).take(k) =~= csv_text(d).take(k));
    }
}

/// Every usable LAN IPv4 address, comma-separated (the form mDNS
/// registration takes), or `None` when there is none.
pub fn lan_ips_csv(interfaces: &Vec<NetInterface>) -> (res: Option<String>)
    ensures
        spec_lan_ipv4s(interfaces_view(interfaces@)).len() == 0 ==> res is None,
        spec_lan_ipv4s(interfaces_view(interfaces@)).len() > 0 ==> (res matches Some(s) && s@
            == csv_text(spec_lan_ipv4s(interfaces_view(interfaces@)))),
{
    let ips = list_local_lan_ips(interfaces);
    if ips.len() == 0 {
        return None;
    }
    let mut s = ipv4_to_string(ips[0]);
    let mut i: usize = 1;
    while i < ips.len()
        invariant
            1 <= i <= ips@.len(),
            s@ == csv_text(ips@.take(i as int)),
        decreases ips@.len() - i,
    {
        let t = ipv4_to_string(ips[i]);
        push_char(&mut s, ',');
        let mut k: usize = 0;
        let tb = t.as_str();
        proof {
            assert(ips@.take(i + 1).drop_last() =~= ips@.take(i as int));
        }
        let ghost before = s@;
        s.append(tb);
        assert(s@ =~= csv_text(ips@.take(i + 1)));
        i = i + 1;
    }
    assert(ips@.take(ips@.len() as int) =~= ips@);
    Some(s)
}

/// Why no LAN address could be given.
#[derive(Debug, Clone, Copy, PartialEq, Eq, Structural)]
pub enum LanError {
    /// No interface has a usable LAN IPv4 address.
    NoLanInterface,
}

/// The preferred LAN address: the first usable one.
pub fn get_lan_ip(interfaces: &Vec<NetInterface>) -> (res: Result<String, LanError>)
    ensures
        spec_lan_ipv4s(interfaces_view(interfaces@)).len() == 0 ==> res == Err::<String, LanError>(
            LanError::NoLanInterface,
        ),
        spec_lan_ipv4s(interfaces_view(interfaces@)).len() > 0 ==> (res matches Ok(s) && s@
            == ipv4_text(spec_lan_ipv4s(interfaces_view(interfaces@))[0])),
{
    let ips = list_local_lan_ips(interfaces);
    if ips.len() == 0 {
        Err(LanError::NoLanInterface)
    } else {
        Ok(ipv4_to_string(ips[0]))
    }
}

} // verus!
