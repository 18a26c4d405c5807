use easy2send::clock::{current_unix_ms, should_emit, should_emit_after, unix_ms_from, EMIT_INTERVAL_NS};
use easy2send::device_id::{resolve_device_id, stored_device_id};
use easy2send::discovery::{
    build_service_info, is_valid_device_name, parse_resolved_service, parse_resolved_service_at,
    service_host_name, service_instance_name, service_properties, DiscoveryConfig,
    ResolvedService, ServiceError, SERVICE_TYPE,
};
use easy2send::lan::{
    contains_bytes, get_lan_ip, ipv4_to_string, is_physical_interface, is_valid_lan_ipv4,
    lan_ips_csv, list_local_lan_ips, names_virtual_adapter, IpAddress, Ipv4Address, Ipv6Address,
    LanError, NetInterface,
};
use easy2send::session::{
    connect_candidates, manual_peer_info, BrowseAction, DiscoveryState, PingAction, RenamePlan,
    SessionError, StartPlan,
};
use easy2send::subnet::{is_same_subnet_with_local, is_valid_lan_ip, same_ipv4_subnet};
use easy2send::registry::DeviceInfo;

fn v4(a: u8, b: u8, c: u8, d: u8) -> Ipv4Address {
    Ipv4Address { a, b, c, d }
}

fn v6(s0: u16, s7: u16) -> Ipv6Address {
    Ipv6Address { s0, s1: 0, s2: 0, s3: 0, s4: 0, s5: 0, s6: 0, s7 }
}

fn iface(name: &str, ip: IpAddress) -> NetInterface {
    NetInterface { name: name.to_string(), addr: ip }
}

#[test]
fn ipv4_text() {
    assert_eq!(ipv4_to_string(v4(192, 168, 1, 20)), "192.168.1.20");
    assert_eq!(ipv4_to_string(v4(0, 0, 0, 0)), "0.0.0.0");
    assert_eq!(ipv4_to_string(v4(255, 255, 255, 255)), "255.255.255.255");
}

#[test]
fn lan_ipv4_filter() {
    assert!(is_valid_lan_ipv4(&v4(192, 168, 1, 2)));
    assert!(is_valid_lan_ipv4(&v4(10, 0, 0, 5)));
    assert!(!is_valid_lan_ipv4(&v4(127, 0, 0, 1)));
    assert!(!is_valid_lan_ipv4(&v4(169, 254, 3, 4)));
    assert!(!is_valid_lan_ipv4(&v4(0, 0, 0, 0)));
    assert!(!is_valid_lan_ipv4(&v4(172, 16, 0, 1)));
    assert!(!is_valid_lan_ipv4(&v4(172, 31, 255, 1)));
    assert!(is_valid_lan_ipv4(&v4(172, 32, 0, 1)));
    assert!(is_valid_lan_ipv4(&v4(172, 15, 0, 1)));
}

#[test]
fn physical_interfaces() {
    assert!(is_physical_interface("Ethernet"));
    assert!(is_physical_interface("Wi-Fi"));
    assert!(is_physical_interface("wlan0"));
    assert!(!is_physical_interface("vEthernet (WSL)"));
    assert!(!is_physical_interface("VMware Network Adapter VMnet8"));
    assert!(!is_physical_interface("VirtualBox Host-Only Network"));
    assert!(!is_physical_interface("docker0"));
    assert!(!is_physical_interface("Teredo Tunneling Pseudo-Interface"));
    assert!(!is_physical_interface("Loopback Pseudo-Interface 1"));
    // "tap" matches inside longer names too, as the substring test does
    assert!(!is_physical_interface("Laptap"));
}

#[test]
fn virtual_keywords_on_lowercase_names() {
    assert!(names_virtual_adapter("vethernet (wsl)"));
    assert!(names_virtual_adapter("isatap.{abc}"));
    assert!(!names_virtual_adapter("ethernet 2"));
    // the scan itself does not lowercase: that is done before it
    assert!(!names_virtual_adapter("VMware"));
    assert!(!is_physical_interface("VMware"));
}

#[test]
fn byte_substring() {
    assert!(contains_bytes(b"hello world", b"lo w"));
    assert!(contains_bytes(b"abc", b""));
    assert!(!contains_bytes(b"abc", b"abcd"));
    assert!(!contains_bytes(b"abc", b"ac"));
}

fn machine() -> Vec<NetInterface> {
    vec![
        iface("lo", IpAddress::V4(v4(127, 0, 0, 1))),
        iface("vEthernet (WSL)", IpAddress::V4(v4(192, 168, 50, 1))),
        iface("Ethernet", IpAddress::V4(v4(192, 168, 1, 20))),
        iface("Ethernet", IpAddress::V6(v6(0xfe80, 1))),
        iface("Wi-Fi", IpAddress::V4(v4(10, 0, 0, 7))),
        iface("docker0", IpAddress::V4(v4(172, 17, 0, 1))),
    ]
}

#[test]
fn lan_addresses_of_machine() {
    assert_eq!(lan_ips_csv(&machine()), Some("192.168.1.20,10.0.0.7".to_string()));
    assert_eq!(get_lan_ip(&machine()), Ok("192.168.1.20".to_string()));
    let none = vec![iface("lo", IpAddress::V4(v4(127, 0, 0, 1)))];
    assert_eq!(lan_ips_csv(&none), None);
    assert_eq!(get_lan_ip(&none), Err(LanError::NoLanInterface));
    assert_eq!(get_lan_ip(&Vec::new()), Err(LanError::NoLanInterface));
}

#[test]
fn local_addresses_of_both_families() {
    let ips = easy2send::subnet::list_local_lan_ips(&machine());
    assert_eq!(
        ips,
        vec![
            IpAddress::V4(v4(192, 168, 50, 1)),
            IpAddress::V4(v4(192, 168, 1, 20)),
            IpAddress::V6(v6(0xfe80, 1)),
            IpAddress::V4(v4(10, 0, 0, 7)),
        ]
    );
    assert_eq!(list_local_lan_ips(&machine()), vec![v4(192, 168, 1, 20), v4(10, 0, 0, 7)]);
    assert!(!is_valid_lan_ip(&IpAddress::V6(v6(0, 1))));
    assert!(!is_valid_lan_ip(&IpAddress::V6(v6(0, 0))));
    assert!(!is_valid_lan_ip(&IpAddress::V6(v6(0xff02, 1))));
}

#[test]
fn subnet_checks() {
    assert!(same_ipv4_subnet(&v4(192, 168, 1, 2), &v4(192, 168, 1, 250)));
    assert!(!same_ipv4_subnet(&v4(192, 168, 1, 2), &v4(192, 168, 2, 2)));
    let locals = vec![IpAddress::V4(v4(10, 0, 0, 7)), IpAddress::V6(v6(0xfe80, 1))];
    assert!(is_same_subnet_with_local(&IpAddress::V4(v4(10, 0, 0, 99)), &locals));
    assert!(!is_same_subnet_with_local(&IpAddress::V4(v4(10, 0, 1, 99)), &locals));
    // an IPv6 peer counts as local as soon as the machine has an IPv6 address
    assert!(is_same_subnet_with_local(&IpAddress::V6(v6(0xfe80, 9)), &locals));
    let only_v4 = vec![IpAddress::V4(v4(10, 0, 0, 7))];
    assert!(!is_same_subnet_with_local(&IpAddress::V6(v6(0xfe80, 9)), &only_v4));
}

fn service(id: &str, port: &str, addrs: Vec<Ipv4Address>) -> ResolvedService {
    ResolvedService {
        device_id: Some(id.to_string()),
        device_name: Some("Peer".to_string()),
        platform: Some("macos".to_string()),
        version: Some("2.0.0".to_string()),
        port: Some(port.to_string()),
        https: Some("true".to_string()),
        addresses_v4: addrs,
    }
}

#[test]
fn resolved_service_prefers_local_subnet() {
    let locals = vec![IpAddress::V4(v4(192, 168, 1, 20))];
    let s = service("peer", "53317", vec![v4(10, 9, 9, 9), v4(192, 168, 1, 33)]);
    let d = parse_resolved_service_at(&s, Some("me"), &locals, 1234).unwrap();
    assert_eq!(d.device_id, "peer");
    assert_eq!(d.device_name, "Peer");
    assert_eq!(d.ip, "192.168.1.33");
    assert_eq!(d.addresses, vec!["10.9.9.9".to_string(), "192.168.1.33".to_string()]);
    assert_eq!(d.port, 53317);
    assert_eq!(d.platform, "macos");
    assert_eq!(d.version, "2.0.0");
    assert!(d.https);
    assert_eq!(d.last_seen, 1234);
}

#[test]
fn resolved_service_without_a_local_address_is_unusable() {
    let s = service("peer", "+80", vec![v4(10, 9, 9, 9), v4(172, 20, 0, 1)]);
    assert!(parse_resolved_service_at(&s, None, &Vec::new(), 0).is_none());
    let locals = vec![IpAddress::V4(v4(192, 168, 1, 20))];
    assert!(parse_resolved_service_at(&s, None, &locals, 0).is_none());
    let near = vec![IpAddress::V4(v4(172, 20, 0, 50))];
    let d = parse_resolved_service_at(&s, None, &near, 0).unwrap();
    assert_eq!(d.ip, "172.20.0.1");
    assert_eq!(d.port, 80);
}

#[test]
fn resolved_service_refusals() {
    let locals = vec![IpAddress::V4(v4(1, 2, 3, 100))];
    assert!(parse_resolved_service_at(&service("me", "1", vec![v4(1, 2, 3, 4)]), Some("me"), &locals, 0).is_none());
    assert!(parse_resolved_service_at(&service("p", "65536", vec![v4(1, 2, 3, 4)]), None, &locals, 0).is_none());
    assert!(parse_resolved_service_at(&service("p", "x", vec![v4(1, 2, 3, 4)]), None, &locals, 0).is_none());
    assert!(parse_resolved_service_at(&service("p", "1", Vec::new()), None, &locals, 0).is_none());
    assert!(parse_resolved_service_at(&service("p", "1", vec![v4(1, 2, 4, 4)]), None, &locals, 0).is_none());
    let mut no_name = service("p", "1", vec![v4(1, 2, 3, 4)]);
    no_name.device_name = None;
    assert!(parse_resolved_service_at(&no_name, None, &locals, 0).is_none());
    let mut plain = service("p", "1", vec![v4(1, 2, 3, 4)]);
    plain.https = Some("TRUE".to_string());
    assert!(!parse_resolved_service_at(&plain, None, &locals, 0).unwrap().https);
    plain.https = None;
    let d = parse_resolved_service(&plain, None, &locals).unwrap();
    assert!(!d.https);
    assert!(d.last_seen > 0);
}

#[test]
fn announced_names() {
    assert_eq!(SERVICE_TYPE, "_easy2send._tcp.local.");
    let id = "0b8f3c2e-1111-4222-8333-444455556666";
    assert_eq!(service_instance_name(id, "书房"), "书房-0b8f3c2e");
    assert_eq!(service_host_name(id), "easy2send-0b8f3c2e.local.");
    assert_eq!(service_host_name("short"), "easy2send-short.local.");
    // the eighth byte falls inside a character: the whole id is used
    assert_eq!(service_host_name("abcdefg中"), "easy2send-abcdefg中.local.");
}

#[test]
fn announced_properties() {
    let p = service_properties("id1", "Desk", 5000, "linux", "1.0");
    let want: Vec<(String, String)> = vec![
        ("deviceId", "id1"),
        ("deviceName", "Desk"),
        ("platform", "linux"),
        ("version", "1.0"),
        ("port", "5000"),
        ("https", "false"),
    ]
    .into_iter()
    .map(|(a, b)| (a.to_string(), b.to_string()))
    .collect();
    assert_eq!(p, want);
}

#[test]
fn service_info_depends_on_addresses() {
    let (ok, announced) =
        build_service_info("id1", "Desk", "192.168.1.20,10.0.0.7", 5000, "linux", "1.0").unwrap();
    assert_eq!(ok.get_fullname(), "Desk-id1._easy2send._tcp.local.");
    assert_eq!(ok.get_hostname(), "easy2send-id1.local.");
    assert_eq!(ok.get_port(), 5000);
    assert_eq!(ok.get_property_val_str("port"), Some("5000"));
    assert_eq!(ok.get_property_val_str("platform"), Some("linux"));
    assert_eq!(ok.get_property_val_str("version"), Some("1.0"));
    assert_eq!(ok.get_property_val_str("deviceName"), Some("Desk"));
    assert_eq!(announced.instance, "Desk-id1");
    assert_eq!(announced.host, "easy2send-id1.local.");
    assert_eq!(announced.service_type, SERVICE_TYPE);
    assert_eq!(announced.addresses, "192.168.1.20,10.0.0.7");
    assert_eq!(announced.port, 5000);
    assert_eq!(announced.properties[2], ("platform".to_string(), "linux".to_string()));
    assert_eq!(
        build_service_info("id1", "Desk", "not-an-ip", 5000, "linux", "1.0").unwrap_err(),
        ServiceError::BadAddresses
    );
}

#[test]
fn device_name_rules() {
    assert!(is_valid_device_name("Desk"));
    assert!(is_valid_device_name("客厅电脑"));
    assert!(is_valid_device_name(&"a".repeat(32)));
    assert!(!is_valid_device_name(&"a".repeat(33)));
    assert!(!is_valid_device_name(""));
    assert!(!is_valid_device_name("my.pc"));
    // the length counts characters, not bytes
    assert!(is_valid_device_name("设备设备设备设备设备设"));
    assert!(is_valid_device_name(&"客".repeat(32)));
    assert!(!is_valid_device_name(&"客".repeat(33)));
}

fn config(name: &str, port: u16) -> DiscoveryConfig {
    DiscoveryConfig {
        device_name: name.to_string(),
        port,
        platform: "linux".to_string(),
        version: "1.0".to_string(),
    }
}

#[test]
fn start_plans() {
    let mut st = DiscoveryState::new();
    assert!(matches!(st.start_plan(5000), StartPlan::Start));
    st.finish_start(None, "me".to_string(), config("Desk", 0));
    assert!(matches!(st.start_plan(0), StartPlan::AlreadyRunning));
    match st.start_plan(5000) {
        StartPlan::Register { device_id } => assert_eq!(device_id, "me"),
        _ => panic!("expected a registration"),
    }
    st.finish_register(Some("Desk-me._easy2send._tcp.local.".to_string()), config("Desk", 5000));
    assert!(matches!(st.start_plan(5000), StartPlan::AlreadyRunning));
    assert!(st.is_own_service("Desk-me._easy2send._tcp.local."));
    assert!(!st.is_own_service("Other._easy2send._tcp.local."));
    assert_eq!(st.ping_reply_name(), "Desk");
    assert_eq!(st.take_registration(), Some("Desk-me._easy2send._tcp.local.".to_string()));
    assert!(st.last_config.is_none());
    assert_eq!(st.ping_reply_name(), "");
    assert_eq!(st.take_registration(), None);
    st.stop();
    assert!(!st.daemon_running);
    assert!(st.self_device_id.is_none());
}

#[test]
fn start_without_id() {
    let mut st = DiscoveryState::new();
    st.daemon_running = true;
    assert!(matches!(st.start_plan(1), StartPlan::MissingDeviceId));
}

#[test]
fn rename_plans() {
    let mut st = DiscoveryState::new();
    assert_eq!(st.rename_plan("bad.name").unwrap_err(), SessionError::InvalidName);
    assert!(matches!(st.rename_plan("New"), Ok(RenamePlan::LocalOnly)));
    st.finish_start(Some("Old-me".to_string()), "me".to_string(), config("Old", 5000));
    match st.rename_plan("New").unwrap() {
        RenamePlan::Reregister { old_fullname, device_id, port, platform, version } => {
            assert_eq!(old_fullname, "Old-me");
            assert_eq!(device_id, "me");
            assert_eq!(port, 5000);
            assert_eq!(platform, "linux");
            assert_eq!(version, "1.0");
        }
        _ => panic!("expected a re-registration"),
    }
    st.apply_rename("New".to_string(), Some("New-me".to_string()));
    assert_eq!(st.registered_fullname.as_deref(), Some("New-me"));
    assert_eq!(st.last_config.as_ref().unwrap().device_name, "New");
}

fn peer() -> DeviceInfo {
    DeviceInfo {
        device_id: "peer".to_string(),
        device_name: "Peer".to_string(),
        ip: "10.0.0.9".to_string(),
        addresses: vec!["192.168.1.9".to_string(), "10.0.0.9".to_string(), "192.168.1.9".to_string()],
        port: 7000,
        platform: "macos".to_string(),
        version: "1.0".to_string(),
        https: false,
        last_seen: 5,
    }
}

#[test]
fn connect_candidates_preferred_first_without_repeats() {
    assert_eq!(
        connect_candidates(&peer()),
        vec!["10.0.0.9".to_string(), "192.168.1.9".to_string()]
    );
}

#[test]
fn connect_plans() {
    let mut st = DiscoveryState::new();
    st.devices.upsert_device("svc".to_string(), peer());
    assert_eq!(st.connect_plan("nobody").unwrap_err(), SessionError::DeviceNotFound);
    assert_eq!(st.connect_plan("peer").unwrap_err(), SessionError::NotStarted);
    assert_eq!(st.own_handshake().unwrap_err(), SessionError::NotStarted);
    st.last_config = Some(config("Desk", 5000));
    assert_eq!(st.connect_plan("peer").unwrap_err(), SessionError::NoDeviceId);
    st.self_device_id = Some("me".to_string());
    let (d, h) = st.connect_plan("peer").unwrap();
    assert_eq!(d.ip, "10.0.0.9");
    assert_eq!(h.device_id, "me");
    assert_eq!(h.device_name, "Desk");
    assert_eq!(h.server_port, 5000);
}

#[test]
fn registration_choices() {
    assert!(matches!(DiscoveryState::registration(&config("Desk", 0), "me", None), Ok(None)));
    assert_eq!(
        DiscoveryState::registration(&config("Desk", 5000), "me", None).unwrap_err(),
        SessionError::NoLanInterface
    );
    match DiscoveryState::registration(&config("Desk", 5000), "me", Some("192.168.1.2")) {
        Ok(Some((info, announced))) => {
            assert_eq!(info.get_fullname(), "Desk-me._easy2send._tcp.local.");
            assert_eq!(announced.instance, "Desk-me");
            assert_eq!(announced.properties[1], ("deviceName".to_string(), "Desk".to_string()));
            assert_eq!(announced.properties[0], ("deviceId".to_string(), "me".to_string()));
        }
        other => panic!("expected a service, got {:?}", other.map(|o| o.map(|(_, a)| a))),
    }
    assert_eq!(
        DiscoveryState::registration(&config("Desk", 5000), "me", Some("x.y")).unwrap_err(),
        SessionError::BadService
    );
}

#[test]
fn manual_peer_record() {
    let d = manual_peer_info("10.0.0.5", 6000, None, 99);
    assert_eq!(d.device_name, "未知设备(10.0.0.5)");
    assert_eq!(d.device_id, "");
    assert_eq!(d.ip, "10.0.0.5");
    assert_eq!(d.addresses, vec!["10.0.0.5".to_string()]);
    assert_eq!(d.port, 6000);
    assert_eq!(d.last_seen, 99);
    let named = manual_peer_info("10.0.0.5", 6000, Some("Kitchen".to_string()), 1);
    assert_eq!(named.device_name, "Kitchen");
}

#[test]
fn device_id_file() {
    let id = "0b8f3c2e-1111-4222-8333-444455556666";
    assert_eq!(stored_device_id(&format!("  {}\n", id)), Some(id.to_string()));
    assert_eq!(stored_device_id("garbage"), None);
    // the other forms uuid reads
    assert!(stored_device_id("0b8f3c2e11114222833344445555666A").is_some());
    assert!(stored_device_id("{0b8f3c2e-1111-4222-8333-444455556666}").is_some());
    assert!(stored_device_id("URN:uuid:0b8f3c2e-1111-4222-8333-444455556666").is_some());
    assert_eq!(stored_device_id("0b8f3c2e-1111-4222-8333-44445555666g"), None);
    assert_eq!(stored_device_id("\u{3000}0b8f3c2e-1111-4222-8333-444455556666\u{a0}"), Some(id.to_string()));
    assert_eq!(resolve_device_id(Some(id)), (id.to_string(), false));
    let (fresh, must_write) = resolve_device_id(Some("garbage"));
    assert!(must_write);
    assert!(stored_device_id(&fresh).is_some());
    let (fresh2, must_write2) = resolve_device_id(None);
    assert!(must_write2);
    assert_ne!(fresh, fresh2);
    // once written back, the id is read again unchanged and not rewritten
    assert_eq!(resolve_device_id(Some(&fresh2)), (fresh2.clone(), false));
    assert_eq!(resolve_device_id(Some(&format!("{}\n", fresh2))), (fresh2, false));
}

#[test]
fn clock_helpers() {
    assert_eq!(EMIT_INTERVAL_NS, 100_000_000);
    assert!(should_emit_after(100_000_000, false));
    assert!(!should_emit_after(99_999_999, false));
    assert!(should_emit_after(0, true));
    assert_eq!(unix_ms_from(None), 0);
    assert_eq!(unix_ms_from(Some(1_700_000_000_000)), 1_700_000_000_000);
    assert_eq!(unix_ms_from(Some(u64::MAX as u128 + 5)), 4);
    assert!(current_unix_ms() > 1_600_000_000_000);
    let now = std::time::Instant::now();
    assert!(should_emit(&now, true));
}

#[test]
fn browse_events_update_the_registry() {
    let mut st = DiscoveryState::new();
    st.finish_start(Some("Me-me._easy2send._tcp.local.".to_string()), "me".to_string(), config("Me", 5000));
    let locals = vec![IpAddress::V4(v4(192, 168, 1, 20))];
    let own = service("me", "5000", vec![v4(192, 168, 1, 20)]);
    assert!(matches!(
        st.on_service_resolved_at("Me-me._easy2send._tcp.local.".to_string(), &own, &locals, 1),
        BrowseAction::OwnService
    ));
    // the own id is refused under another name too
    assert!(matches!(
        st.on_service_resolved_at("Other".to_string(), &own, &locals, 1),
        BrowseAction::Unusable
    ));
    let p = service("peer", "7000", vec![v4(192, 168, 1, 33)]);
    match st.on_service_resolved_at("Peer-peer".to_string(), &p, &locals, 2) {
        BrowseAction::Online(d) => {
            assert_eq!(d.device_id, "peer");
            assert_eq!(d.last_seen, 2);
        }
        other => panic!("expected online, got {:?}", other),
    }
    assert!(matches!(
        st.on_service_resolved_at("Peer-peer".to_string(), &p, &locals, 3),
        BrowseAction::Refreshed
    ));
    assert_eq!(st.devices.get_device("peer").unwrap().last_seen, 3);
    let moved = service("peer", "7001", vec![v4(192, 168, 1, 33)]);
    assert!(matches!(
        st.on_service_resolved_at("Peer-peer".to_string(), &moved, &locals, 4),
        BrowseAction::Updated(_)
    ));
    assert_eq!(st.on_service_removed("Peer-peer"), Some("peer".to_string()));
    assert!(st.devices.get_device("peer").is_none());
    assert_eq!(st.on_service_removed("Peer-peer"), None);
}

#[test]
fn heartbeat_results() {
    let mut st = DiscoveryState::new();
    st.devices.upsert_device("svc".to_string(), peer());
    assert!(matches!(st.on_ping_result("peer", 10, Some(None)), PingAction::Alive));
    assert_eq!(st.devices.get_device("peer").unwrap().last_seen, 10);
    match st.on_ping_result("peer", 11, Some(Some("Renamed".to_string()))) {
        PingAction::Renamed(d) => assert_eq!(d.device_name, "Renamed"),
        other => panic!("expected a rename, got {:?}", other),
    }
    assert!(matches!(st.on_ping_result("peer", 12, Some(Some("Renamed".to_string()))), PingAction::Alive));
    assert!(matches!(st.on_ping_result("peer", 13, None), PingAction::Offline { was_known: true }));
    assert!(st.devices.get_device("peer").is_none());
    assert!(matches!(st.on_ping_result("peer", 14, None), PingAction::Offline { was_known: false }));
}
