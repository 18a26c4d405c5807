//! Device discovery: parsing what a peer announces, building what this
//! device announces, and the state of the discovery service.
use vstd::prelude::*;
use vstd::string::StringExecFns;
use vstd::utf8::*;
use vstd::string::{StrSliceExecFns, StringSliceAdditionalSpecFns};
use crate::lan::{ipv4_text, ipv4_to_string, IpAddress, Ipv4Address};
use crate::registry::{DeviceInfo, DeviceRegistry, DeviceView};
use crate::subnet::{is_same_subnet_with_local, spec_same_subnet_with_local};
use crate::text::{
    decimal_string, decimal_text, lemma_decimal_parse_roundtrip, parse_unsigned, parse_unsigned_bytes,
};

verus! {

/// The mDNS service type under which devices announce themselves.
pub const SERVICE_TYPE: &'static str = "_easy2send._tcp.local.";

/// What the user configured when starting discovery.
#[derive(Debug)]
pub struct DiscoveryConfig {
    /// Name announced for this device.
    pub device_name: String,
    /// Port of this device's transfer server; 0 to browse only.
    pub port: u16,
    /// `windows`, `macos` or `linux`.
    pub platform: String,
    /// Application version.
    pub version: String,
}

pub struct DiscoveryConfigView {
    pub device_name: Seq<char>,
    pub port: u16,
    pub platform: Seq<char>,
    pub version: Seq<char>,
}

impl View for DiscoveryConfig {
    type V = DiscoveryConfigView;

    open spec fn view(&self) -> DiscoveryConfigView {
        DiscoveryConfigView {
            device_name: self.device_name@,
            port: self.port,
            platform: self.platform@,
            version: self.version@,
        }
    }
}

impl DiscoveryConfig {
    /// A copy of this configuration.
    pub fn copy(&self) -> (res: DiscoveryConfig)
        ensures
            res@ == self@,
    {
        DiscoveryConfig {
            device_name: self.device_name.clone(),
            port: self.port,
            platform: self.platform.clone(),
            version: self.version.clone(),
        }
    }
}

// ---------- what a peer announces ----------

/// The parts of a resolved mDNS service that discovery reads: its TXT
/// properties (absent ones as `None`) and its IPv4 addresses.
#[derive(Debug)]
pub struct ResolvedService {
    pub device_id: Option<String>,
    pub device_name: Option<String>,
    pub platform: Option<String>,
    pub version: Option<String>,
    pub port: Option<String>,
    pub https: Option<String>,
    pub addresses_v4: Vec<Ipv4Address>,
}

pub open spec fn opt_view(o: Option<String>) -> Option<Seq<char>> {
    match o {
        Some(s) => Some(s@),
        None => None,
    }
}

pub struct ResolvedServiceView {
    pub device_id: Option<Seq<char>>,
    pub device_name: Option<Seq<char>>,
    pub platform: Option<Seq<char>>,
    pub version: Option<Seq<char>>,
    pub port: Option<Seq<char>>,
    pub https: Option<Seq<char>>,
    pub addresses_v4: Seq<Ipv4Address>,
}

impl View for ResolvedService {
    type V = ResolvedServiceView;

    open spec fn view(&self) -> ResolvedServiceView {
        ResolvedServiceView {
            device_id: opt_view(self.device_id),
            device_name: opt_view(self.device_name),
            platform: opt_view(self.platform),
            version: opt_view(self.version),
            port: opt_view(self.port),
            https: opt_view(self.https),
            addresses_v4: self.addresses_v4@,
        }
    }
}

/// The first address on one of the local networks, if any.
pub open spec fn first_local_address(addrs: Seq<Ipv4Address>, locals: Seq<IpAddress>) -> Option<
    Ipv4Address,
>
    decreases addrs.len(),
{
    if addrs.len() == 0 {
        None
    } else if spec_same_subnet_with_local(IpAddress::V4(addrs[0]), locals) {
        Some(addrs[0])
    } else {
        first_local_address(addrs.drop_first(), locals)
    }
}

/// The device a resolved service describes, or `None` when it is this
/// device, lacks `deviceId`, `deviceName`, `platform`, `version` or `port`,
/// has a port that does not parse as a `u16`, or has no IPv4 address on one
/// of the local networks. Its address is the first announced one on a local
/// network; all announced addresses are kept, in order, for retries.
/// `https` is true only when its value is exactly `true`.
pub open spec fn resolved_device(
    s: ResolvedServiceView,
    self_id: Option<Seq<char>>,
    locals: Seq<IpAddress>,
    now: u64,
) -> Option<DeviceView> {
    if s.device_id is None || (self_id is Some && self_id == s.device_id) || s.device_name is None
        || s.platform is None || s.version is None || s.port is None || parse_unsigned(
        encode_utf8(s.port.unwrap()),
        65535,
    ) is None || first_local_address(s.addresses_v4, locals) is None {
        None
    } else {
        Some(
            DeviceView {
                device_id: s.device_id.unwrap(),
                device_name: s.device_name.unwrap(),
                ip: ipv4_text(first_local_address(s.addresses_v4, locals).unwrap()),
                addresses: Seq::new(
                    s.addresses_v4.len(),
                    |i: int| ipv4_text(s.addresses_v4[i]),
                ),
                port: parse_unsigned(encode_utf8(s.port.unwrap()), 65535).unwrap() as u16,
                platform: s.platform.unwrap(),
                version: s.version.unwrap(),
                https: s.https == Some("true"@),
                last_seen: now,
            },
        )
    }
}

fn pick_address(addrs: &Vec<Ipv4Address>, locals: &Vec<IpAddress>) -> (res: Option<Ipv4Address>)
    ensures
        res == first_local_address(addrs@, locals@),
{
    let mut i: usize = 0;
    assert(addrs@.skip(0) =~= addrs@);
    while i < addrs.len()
        invariant
            i <= addrs@.len(),
            first_local_address(addrs@, locals@) == first_local_address(addrs@.skip(i as int), locals@),
        decreases addrs@.len() - i,
    {
        if is_same_subnet_with_local(&IpAddress::V4(addrs[i]), locals) {
            return Some(addrs[i]);
        }
        assert(addrs@.skip(i as int).drop_first() =~= addrs@.skip(i + 1));
        i = i + 1;
    }
    None
}

/// Reads a discovered service into a device record stamped `now` (see
/// `resolved_device`).
pub fn parse_resolved_service_at(
    service: &ResolvedService,
    self_device_id: Option<&str>,
    locals: &Vec<IpAddress>,
    now: u64,
) -> (res: Option<DeviceInfo>)
    ensures
        match resolved_device(
            service@,
            match self_device_id {
                Some(s) => Some(s@),
                None => None,
            },
            locals@,
            now,
        ) {
            Some(d) => res matches Some(r) && r@ == d,
            None => res is None,
        },
{
    let device_id = match &service.device_id {
        Some(v) => v.clone(),
        None => {
            return None;
        },
    };
    match self_device_id {
        Some(own) => {
            if crate::registry::str_eq(own, device_id.as_str()) {
                return None;
            }
        },
        None => {},
    }
    let device_name = match &service.device_name {
        Some(v) => v.clone(),
        None => {
            return None;
        },
    };
    let platform = match &service.platform {
        Some(v) => v.clone(),
        None => {
            return None;
        },
    };
    let version = match &service.version {
        Some(v) => v.clone(),
        None => {
            return None;
        },
    };
    let port = match &service.port {
        Some(v) => match parse_unsigned_bytes(v.as_str().as_bytes(), 65535) {
            Some(p) => p as u16,
            None => {
                return None;
            },
        },
        None => {
            return None;
        },
    };
    let https = match &service.https {
        Some(v) => crate::registry::str_eq(v.as_str(), "true"),
        None => false,
    };
    let chosen = match pick_address(&service.addresses_v4, locals) {
        Some(a) => a,
        None => {
            return None;
        },
    };
    let mut addresses: Vec<String> = Vec::new();
    let mut i: usize = 0;
    while i < service.addresses_v4.len()
        invariant
            i <= service.addresses_v4@.len(),
            addresses@.len() == i,
            forall|j: int| 0 <= j < i ==> #[trigger] addresses@[j]@ == ipv4_text(
                service.addresses_v4@[j],
            ),
        decreases service.addresses_v4@.len() - i,
    {
        addresses.push(ipv4_to_string(service.addresses_v4[i]));
        i = i + 1;
    }
    let ip = ipv4_to_string(chosen);
    let d = DeviceInfo {
        device_id,
        device_name,
        ip,
        addresses,
        port,
        platform,
        version,
        https,
        last_seen: now,
    };
    proof {
        let ghost sid = match self_device_id {
            Some(s) => Some(s@),
            None => None,
        };
        let ghost want = resolved_device(service@, sid, locals@, now);
        assert(want is Some);
        assert(d@.addresses =~= want.unwrap().addresses);
    }
    Some(d)
}

/// Reads a discovered service into a device record stamped with the
/// current time (see `resolved_device`).
pub fn parse_resolved_service(
    service: &ResolvedService,
    self_device_id: Option<&str>,
    locals: &Vec<IpAddress>,
) -> (res: Option<DeviceInfo>)
    ensures
        match resolved_device(
            service@,
            match self_device_id {
                Some(s) => Some(s@),
                None => None,
            },
            locals@,
            0,
        ) {
            Some(d) => res matches Some(r) && r@ == (DeviceView { last_seen: r@.last_seen, ..d }),
            None => res is None,
        },
{
    let now = crate::clock::current_unix_ms();
    parse_resolved_service_at(service, self_device_id, locals, now)
}

// ---------- what this device announces ----------

/// The first eight bytes of a device id when they end on a character
/// boundary (`str::get(..8)`), else the whole id.
pub open spec fn short_id(id: Seq<char>) -> Seq<char> {
    if is_char_boundary(encode_utf8(id), 8) {
        decode_utf8(encode_utf8(id).subrange(0, 8))
    } else {
        id
    }
}

fn short_id_of(device_id: &str) -> (res: &str)
    ensures
        res@ == short_id(device_id@),
{
    proof {
        encode_utf8_valid_utf8(device_id@);
    }
    if device_id.is_char_boundary(8) {
        let (head, _) = device_id.split_at(8);
        proof {
            encode_utf8_decode_utf8(head@);
        }
        head
    } else {
        device_id
    }
}

/// The announced instance name: `<device name>-<short id>`.
pub open spec fn instance_name(device_id: Seq<char>, device_name: Seq<char>) -> Seq<char> {
    device_name + "-"@ + short_id(device_id)
}

/// The announced host name: `easy2send-<short id>.local.`.
pub open spec fn host_name(device_id: Seq<char>) -> Seq<char> {
    "easy2send-"@ + short_id(device_id) + ".local."@
}

/// The instance name this device announces (see `instance_name`).
pub fn service_instance_name(device_id: &str, device_name: &str) -> (res: String)
    ensures
        res@ == instance_name(device_id@, device_name@),
{
    let mut s = String::new();
    s.append(device_name);
    s.append("-");
    s.append(short_id_of(device_id));
    assert(s@ =~= instance_name(device_id@, device_name@));
    s
}

/// The host name this device announces (see `host_name`).
pub fn service_host_name(device_id: &str) -> (res: String)
    ensures
        res@ == host_name(device_id@),
{
    let mut s = String::new();
    s.append("easy2send-");
    s.append(short_id_of(device_id));
    s.append(".local.");
    assert(s@ =~= host_name(device_id@));
    s
}

/// The TXT properties this device announces, all as text.
pub open spec fn txt_properties(
    device_id: Seq<char>,
    device_name: Seq<char>,
    port: u16,
    platform: Seq<char>,
    version: Seq<char>,
) -> Seq<(Seq<char>, Seq<char>)> {
    seq![
        ("deviceId"@, device_id),
        ("deviceName"@, device_name),
        ("platform"@, platform),
        ("version"@, version),
        ("port"@, decimal_text(port as nat)),
        ("https"@, "false"@),
    ]
}

pub open spec fn pairs_view(v: Seq<(String, String)>) -> Seq<(Seq<char>, Seq<char>)> {
    Seq::new(v.len(), |i: int| (v[i].0@, v[i].1@))
}

fn owned(s: &str) -> (res: String)
    ensures
        res@ == s@,
{
    let mut r = String::new();
    r.append(s);
    assert(r@ =~= s@);
    r
}

/// The TXT properties this device announces (see `txt_properties`).
pub fn service_properties(
    device_id: &str,
    device_name: &str,
    port: u16,
    platform: &str,
    version: &str,
) -> (res: Vec<(String, String)>)
    ensures
        pairs_view(res@) == txt_properties(device_id@, device_name@, port, platform@, version@),
{
    let mut v: Vec<(String, String)> = Vec::new();
    v.push((owned("deviceId"), owned(device_id)));
    v.push((owned("deviceName"), owned(device_name)));
    v.push((owned("platform"), owned(platform)));
    v.push((owned("version"), owned(version)));
    v.push((owned("port"), decimal_string(port as u64)));
    v.push((owned("https"), owned("false")));
    assert(pairs_view(v@) =~= txt_properties(device_id@, device_name@, port, platform@, version@));
    v
}

/// The value of the first TXT property with this key, as a peer looks it
/// up.
pub open spec fn txt_value(props: Seq<(Seq<char>, Seq<char>)>, key: Seq<char>) -> Option<Seq<char>>
    decreases props.len(),
{
    if props.len() == 0 {
        None
    } else if props[0].0 == key {
        Some(props[0].1)
    } else {
        txt_value(props.drop_first(), key)
    }
}

/// The service a peer resolves from TXT properties and IPv4 addresses.
pub open spec fn service_from_txt(props: Seq<(Seq<char>, Seq<char>)>, addrs: Seq<Ipv4Address>) -> ResolvedServiceView {
    ResolvedServiceView {
        device_id: txt_value(props, "deviceId"@),
        device_name: txt_value(props, "deviceName"@),
        platform: txt_value(props, "platform"@),
        version: txt_value(props, "version"@),
        port: txt_value(props, "port"@),
        https: txt_value(props, "https"@),
        addresses_v4: addrs,
    }
}

/// What a peer reads back from this device's announcement is this device:
/// a service that carries the announced TXT properties and at least one
/// IPv4 address on one of the peer's local networks resolves to a record
/// with the announced id, name, port, platform and version, HTTPS off, the
/// addresses in order and the first local one among them; unless the peer
/// is this device itself, which never lists its own service.
pub proof fn lemma_announcement_resolves(
    device_id: Seq<char>,
    device_name: Seq<char>,
    port: u16,
    platform: Seq<char>,
    version: Seq<char>,
    addrs: Seq<Ipv4Address>,
    self_id: Option<Seq<char>>,
    locals: Seq<IpAddress>,
    now: u64,
)
    requires
        first_local_address(addrs, locals) is Some,
    ensures
        ({
            let s = service_from_txt(
                txt_properties(device_id, device_name, port, platform, version),
                addrs,
            );
            if self_id == Some(device_id) {
                resolved_device(s, self_id, locals, now) is None
            } else {
                resolved_device(s, self_id, locals, now) == Some(
                    DeviceView {
                        device_id,
                        device_name,
                        ip: ipv4_text(first_local_address(addrs, locals).unwrap()),
                        addresses: Seq::new(addrs.len(), |i: int| ipv4_text(addrs[i])),
                        port,
                        platform,
                        version,
                        https: false,
                        last_seen: now,
                    },
                )
            }
        }),
{
    reveal_strlit("deviceId");
    reveal_strlit("deviceName");
    reveal_strlit("platform");
    reveal_strlit("version");
    reveal_strlit("port");
    reveal_strlit("https");
    reveal_strlit("false");
    reveal_strlit("true");
    let props = txt_properties(device_id, device_name, port, platform, version);
    reveal_with_fuel(txt_value, 7);
    let keys: Seq<Seq<char>> = seq!["deviceId"@, "deviceName"@, "platform"@, "version"@, "port"@, "https"@];
    assert forall|i: int, j: int| 0 <= i < j < 6 implies keys[i] != keys[j] by {
        if keys[i].len() == keys[j].len() {
            assert(keys[i][0] != keys[j][0]);
        }
    }
    assert forall|i: int| 0 <= i < 6 implies #[trigger] props[i].0 == keys[i] by {}
    assert forall|k: int| 0 <= k < 6 implies #[trigger] props.skip(k)[0] == props[k] by {}
    assert(props.drop_first() =~= props.skip(1));
    assert(props.skip(1).drop_first() =~= props.skip(2));
    assert(props.skip(2).drop_first() =~= props.skip(3));
    assert(props.skip(3).drop_first() =~= props.skip(4));
    assert(props.skip(4).drop_first() =~= props.skip(5));
    assert(txt_value(props, "deviceId"@) == Some(device_id));
    assert(txt_value(props, "deviceName"@) == Some(device_name));
    assert(txt_value(props, "platform"@) == Some(platform));
    assert(txt_value(props, "version"@) == Some(version));
    assert(txt_value(props, "port"@) == Some(decimal_text(port as nat)));
    assert(txt_value(props, "https"@) == Some("false"@));
    lemma_decimal_parse_roundtrip(port as nat, 65535);
    assert("false"@.len() != "true"@.len());
}

#[verifier::external_type_specification]
#[verifier::external_body]
pub struct ExServiceInfo(mdns_sd::ServiceInfo);

#[verifier::external_type_specification]
#[verifier::external_body]
pub struct ExMdnsError(mdns_sd::Error);

/// Whether mdns-sd reads a text as a list of IP addresses (`AsIpAddrs` for
/// `&str`: empty, or comma-separated addresses that each parse after
/// trimming).
pub uninterp spec fn mdns_addresses_parse(ip: Seq<char>) -> bool;

/// Whether every TXT key is printable ASCII without `=`, as mdns-sd requires.
pub open spec fn txt_keys_ok(props: Seq<(Seq<char>, Seq<char>)>) -> bool {
    forall|i: int|
        0 <= i < props.len() ==> is_ascii_chars(#[trigger] props[i].0) && !props[i].0.contains('=')
}

/// What this device hands to mDNS when it announces itself: the service
/// type, instance name, host name, address list, port and TXT properties.
#[derive(Debug)]
pub struct ServiceAnnouncement {
    pub service_type: String,
    pub instance: String,
    pub host: String,
    pub addresses: String,
    pub port: u16,
    pub properties: Vec<(String, String)>,
}

/// Whether an announcement is this device's: the service type
/// `SERVICE_TYPE`, instance `instance_name`, host `host_name`, the given
/// addresses and port, and the TXT properties `txt_properties`.
pub open spec fn announces(
    a: ServiceAnnouncement,
    device_id: Seq<char>,
    device_name: Seq<char>,
    ip: Seq<char>,
    port: u16,
    platform: Seq<char>,
    version: Seq<char>,
) -> bool {
    &&& a.service_type@ == SERVICE_TYPE@
    &&& a.instance@ == instance_name(device_id, device_name)
    &&& a.host@ == host_name(device_id)
    &&& a.addresses@ == ip
    &&& a.port == port
    &&& pairs_view(a.properties@) == txt_properties(device_id, device_name, port, platform, version)
}

/// `mdns_sd::ServiceInfo::new` on the announcement's type, instance, host,
/// addresses, port and TXT properties; the announcement is handed back
/// beside the built service. It fails when the address text does not
/// parse, and succeeds when it parses and every TXT key is ASCII without
/// `=` (keys repeated up to case are dropped before that check, so a bad
/// repeated key may pass; nothing more is stated of such lists).
#[verifier::external_body]
fn new_service_info(ann: ServiceAnnouncement) -> (res: Result<(mdns_sd::ServiceInfo, ServiceAnnouncement), mdns_sd::Error>)
    ensures
        res is Ok ==> mdns_addresses_parse(ann.addresses@),
        mdns_addresses_parse(ann.addresses@) && txt_keys_ok(pairs_view(ann.properties@)) ==> res is Ok,
        res matches Ok((_, a)) ==> a == ann,
{
    let built = mdns_sd::ServiceInfo::new(
        ann.service_type.as_str(),
        ann.instance.as_str(),
        ann.host.as_str(),
        ann.addresses.as_str(),
        ann.port,
        ann.properties.as_slice(),
    );
    match built {
        Ok(info) => Ok((info, ann)),
        Err(e) => Err(e),
    }
}

/// Why this device's service could not be built.
#[derive(Debug, Clone, Copy, PartialEq, Eq, Structural)]
pub enum ServiceError {
    /// The address list did not parse.
    BadAddresses,
}

/// The mDNS service this device announces, with what was handed to mDNS
/// for it (see `announces`). Fails exactly when the address list does not
/// parse.
pub fn build_service_info(
    device_id: &str,
    device_name: &str,
    ip: &str,
    port: u16,
    platform: &str,
    version: &str,
) -> (res: Result<(mdns_sd::ServiceInfo, ServiceAnnouncement), ServiceError>)
    ensures
        res is Ok <==> mdns_addresses_parse(ip@),
        res matches Ok((_, a)) ==> announces(a, device_id@, device_name@, ip@, port, platform@, version@),
{
    let instance = service_instance_name(device_id, device_name);
    let host = service_host_name(device_id);
    let props = service_properties(device_id, device_name, port, platform, version);
    proof {
        reveal_strlit("deviceId");
        reveal_strlit("deviceName");
        reveal_strlit("platform");
        reveal_strlit("version");
        reveal_strlit("port");
        reveal_strlit("https");
        let p = pairs_view(props@);
        assert forall|i: int| 0 <= i < p.len() implies is_ascii_chars(#[trigger] p[i].0)
            && !p[i].0.contains('=') by {
            if p[i].0.contains('=') {
                let j = choose|j: int| 0 <= j < p[i].0.len() && p[i].0[j] == '=';
            }
        }
    }
    let ann = ServiceAnnouncement {
        service_type: owned(SERVICE_TYPE),
        instance,
        host,
        addresses: owned(ip),
        port,
        properties: props,
    };
    match new_service_info(ann) {
        Ok(built) => Ok(built),
        Err(_) => Err(ServiceError::BadAddresses),
    }
}

/// A device name can be announced when it is 1 to 32 characters long and
/// has no `.` (which would break the instance name).
pub open spec fn spec_is_valid_device_name(name: Seq<char>) -> bool {
    name.len() > 0 && name.len() <= 32 && !encode_utf8(name).contains(46u8)
}

/// Whether a device name can be announced (see `spec_is_valid_device_name`).
pub fn is_valid_device_name(name: &str) -> (res: bool)
    ensures
        res == spec_is_valid_device_name(name@),
{
    if name.is_empty() || name.unicode_len() > 32 {
        return false;
    }
    let b = name.as_bytes();
    let mut i: usize = 0;
    while i < b.len()
        invariant
            i <= b@.len(),
            b@ == encode_utf8(name@),
            forall|j: int| 0 <= j < i ==> b@[j] != 46u8,
        decreases b@.len() - i,
    {
        if b[i] == 46 {
            return false;
        }
        i = i + 1;
    }
    true
}


/// A byte 46 (`.`) occurs in a character's UTF-8 encoding only when the
/// character is `.`: every byte of a multi-byte encoding is 0x80 or more.
proof fn lemma_scalar_dot_byte(c: char)
    ensures
        encode_scalar(c as u32).contains(46u8) <==> c == '.',
{
    let u = c as u32;
    broadcast use char_is_scalar, char_u32_cast;

    let e = encode_scalar(u);
    if has_width_1_encoding(u) {
        assert(e =~= seq![(u & 0x7f) as u8]);
        assert(u <= 0x7f ==> (((u & 0x7f) as u8 == 46u8) <==> u == 46u32)) by (bit_vector);
        assert('.' as u32 == 46u32);
        if e.contains(46u8) {
            assert(e[0] == 46u8);
            assert(u as char == c);
        }
        if c == '.' {
            assert(e[0] == 46u8);
        }
    } else {
        assert(u >= 0x80);
        assert(c != '.');
        assert((0xC0u8 | ((u >> 6u32) & 0x1Fu32) as u8) >= 0x80u8) by (bit_vector);
        assert((0xE0u8 | ((u >> 12u32) & 0x0Fu32) as u8) >= 0x80u8) by (bit_vector);
        assert((0xF0u8 | ((u >> 18u32) & 0x7u32) as u8) >= 0x80u8) by (bit_vector);
        assert((0x80u8 | (u & 0x3Fu32) as u8) >= 0x80u8) by (bit_vector);
        assert((0x80u8 | ((u >> 6u32) & 0x3Fu32) as u8) >= 0x80u8) by (bit_vector);
        assert((0x80u8 | ((u >> 12u32) & 0x3Fu32) as u8) >= 0x80u8) by (bit_vector);
        assert forall|k: int| 0 <= k < e.len() implies e[k] != 46u8 by {}
    }
}

/// A text's UTF-8 encoding holds the byte of `.` exactly when the text
/// holds `.`.
proof fn lemma_utf8_dot_byte(name: Seq<char>)
    ensures
        encode_utf8(name).contains(46u8) <==> name.contains('.'),
    decreases name.len(),
{
    if name.len() > 0 {
        let head = encode_scalar(name[0] as u32);
        let rest = name.drop_first();
        lemma_utf8_dot_byte(rest);
        lemma_scalar_dot_byte(name[0]);
        let e = encode_utf8(name);
        assert(e == head + encode_utf8(rest));
        if e.contains(46u8) {
            let k = choose|k: int| 0 <= k < e.len() && e[k] == 46u8;
            if k < head.len() {
                assert(head[k] == 46u8);
                assert(name[0] == '.');
            } else {
                assert(encode_utf8(rest)[k - head.len()] == 46u8);
                let j = choose|j: int| 0 <= j < rest.len() && rest[j] == '.';
                assert(name[j + 1] == '.');
            }
        }
        if name.contains('.') {
            let j = choose|j: int| 0 <= j < name.len() && name[j] == '.';
            if j == 0 {
                let k = choose|k: int| 0 <= k < head.len() && head[k] == 46u8;
                assert(e[k] == 46u8);
            } else {
                assert(rest[j - 1] == '.');
                let k = choose|k: int| 0 <= k < encode_utf8(rest).len() && encode_utf8(rest)[k]
                    == 46u8;
                assert(e[head.len() + k] == 46u8);
            }
        }
    }
}

/// A device name is refused only when it is empty, longer than 32
/// characters, or holds a `.`; any other name, spaces and all, is accepted.
pub proof fn lemma_device_name_rule(name: Seq<char>)
    ensures
        spec_is_valid_device_name(name) <==> (1 <= name.len() <= 32 && forall|i: int|
            0 <= i < name.len() ==> name[i] != '.'),
{
    lemma_utf8_dot_byte(name);
}
} // verus!
