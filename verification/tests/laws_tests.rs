use easy2send::paths::wire_relative_path;
use easy2send::protocol::{decode_entry_header, encode_entry_header, ENTRY_FILE};
use easy2send::transfer::{plan_folder_entry, EntryAction};
use easy2send::discovery::{parse_resolved_service_at, service_properties, ResolvedService};
use easy2send::lan::{get_lan_ip, lan_ips_csv, IpAddress, Ipv4Address, NetInterface};
use easy2send::paths::{normalize, PathComponent};
use easy2send::protocol::decode_task_id;
use easy2send::task_id::{bytes_to_task_id_hex, task_id_from_words};
use easy2send::text::{decimal_string, parse_unsigned_bytes};
use easy2send::transfer::task_send_prefix;

#[test]
fn task_id_is_the_same_on_both_ends() {
    for (a, b) in [(0u64, 0u64), (u64::MAX, 1), (0x0123_4567_89ab_cdef, 42)] {
        let id = task_id_from_words(a, b);
        let wire = task_send_prefix(false, &id);
        let (bytes, _) = decode_task_id(&wire[1..]).unwrap();
        assert_eq!(bytes_to_task_id_hex(&bytes), id);
    }
}

#[test]
fn normalizing_twice_changes_nothing() {
    let p = vec![
        PathComponent::Normal("a".to_string()),
        PathComponent::ParentDir,
        PathComponent::ParentDir,
        PathComponent::RootDir,
        PathComponent::CurDir,
        PathComponent::Normal("b".to_string()),
        PathComponent::Normal("c".to_string()),
        PathComponent::ParentDir,
    ];
    let once = normalize(&p);
    let twice = normalize(&once);
    assert_eq!(format!("{:?}", once), format!("{:?}", twice));
    assert_eq!(once.len(), 2);
}

#[test]
fn announced_properties_resolve_to_this_device() {
    let props = service_properties("dev-1", "Study", 53317, "windows", "1.4.2");
    let get = |k: &str| props.iter().find(|(key, _)| key == k).map(|(_, v)| v.clone());
    let s = ResolvedService {
        device_id: get("deviceId"),
        device_name: get("deviceName"),
        platform: get("platform"),
        version: get("version"),
        port: get("port"),
        https: get("https"),
        addresses_v4: vec![Ipv4Address { a: 192, b: 168, c: 0, d: 8 }],
    };
    let locals = vec![IpAddress::V4(Ipv4Address { a: 192, b: 168, c: 0, d: 20 })];
    let d = parse_resolved_service_at(&s, Some("another"), &locals, 77).unwrap();
    assert_eq!(d.device_id, "dev-1");
    assert_eq!(d.device_name, "Study");
    assert_eq!(d.port, 53317);
    assert_eq!(d.platform, "windows");
    assert_eq!(d.version, "1.4.2");
    assert!(!d.https);
    assert_eq!(d.ip, "192.168.0.8");
    assert!(parse_resolved_service_at(&s, Some("dev-1"), &locals, 77).is_none());
}

#[test]
fn preferred_ip_opens_the_announced_list() {
    let ifs = vec![
        NetInterface { name: "eth0".to_string(), addr: IpAddress::V4(Ipv4Address { a: 10, b: 1, c: 2, d: 3 }) },
        NetInterface { name: "wlan0".to_string(), addr: IpAddress::V4(Ipv4Address { a: 192, b: 168, c: 9, d: 9 }) },
    ];
    let first = get_lan_ip(&ifs).unwrap();
    let all = lan_ips_csv(&ifs).unwrap();
    assert!(all.starts_with(&first));
    assert_eq!(all, "10.1.2.3,192.168.9.9");
}

#[test]
fn decimal_text_parses_back() {
    for n in [0u64, 9, 10, 65535, 1_000_000, u64::MAX] {
        assert_eq!(parse_unsigned_bytes(decimal_string(n).as_bytes(), u64::MAX), Some(n));
    }
    assert_eq!(parse_unsigned_bytes(decimal_string(65536).as_bytes(), 65535), None);
}

#[test]
fn lowercase_hex_id_reads_back_unchanged() {
    let hex = "0123456789abcdef0f1e2d3c4b5a6978";
    let bytes = easy2send::task_id::task_id_hex_to_bytes(hex);
    assert_eq!(bytes_to_task_id_hex(&bytes), hex);
}

#[test]
fn folder_entry_lands_where_it_came_from() {
    let n = |s: &str| PathComponent::Normal(s.to_string());
    let base = vec![PathComponent::RootDir, n("home")];
    let entry = vec![PathComponent::RootDir, n("home"), n("photos"), n("a.jpg")];
    let wire = wire_relative_path(&base, &entry).unwrap();
    let bytes = encode_entry_header(ENTRY_FILE, &wire);
    let (h, _) = decode_entry_header(&bytes).unwrap();
    let mut first = None;
    match plan_folder_entry("/save", h.kind, &h.path, &mut first).unwrap() {
        EntryAction::WriteFile(p) => {
            let names: Vec<String> = p
                .iter()
                .map(|c| match c {
                    PathComponent::Normal(x) => x.clone(),
                    _ => "/".to_string(),
                })
                .collect();
            assert_eq!(names, vec!["/", "save", "photos", "a.jpg"]);
        }
        _ => panic!("expected a file"),
    }
}
