use easy2send::registry::{clone_strings, str_eq, DeviceInfo, DeviceRegistry, UpsertResult};

fn dev(id: &str, name: &str, ip: &str, port: u16, seen: u64) -> DeviceInfo {
    DeviceInfo {
        device_id: id.to_string(),
        device_name: name.to_string(),
        ip: ip.to_string(),
        addresses: vec![ip.to_string()],
        port,
        platform: "linux".to_string(),
        version: "1.0.0".to_string(),
        https: false,
        last_seen: seen,
    }
}

#[test]
fn upsert_adds_then_refreshes_then_updates() {
    let mut r = DeviceRegistry::new();
    assert_eq!(r.upsert_device("A._easy2send._tcp.local.".to_string(), dev("a", "Alpha", "10.0.0.2", 5000, 1)), UpsertResult::Added);
    assert_eq!(r.upsert_device("A._easy2send._tcp.local.".to_string(), dev("a", "Alpha", "10.0.0.2", 5000, 9)), UpsertResult::NoChange);
    let d = r.get_device("a").unwrap();
    assert_eq!(d.last_seen, 9);
    assert_eq!(r.upsert_device("A._easy2send._tcp.local.".to_string(), dev("a", "Alpha", "10.0.0.3", 5000, 10)), UpsertResult::Updated);
    assert_eq!(r.get_device("a").unwrap().ip, "10.0.0.3");
    assert_eq!(r.upsert_device("A2".to_string(), dev("a", "Alpha2", "10.0.0.3", 5000, 11)), UpsertResult::Updated);
    assert_eq!(r.upsert_device("A3".to_string(), dev("a", "Alpha2", "10.0.0.3", 5001, 12)), UpsertResult::Updated);
}

#[test]
fn no_change_keeps_known_addresses() {
    let mut r = DeviceRegistry::new();
    r.upsert_device("n".to_string(), dev("a", "Alpha", "10.0.0.2", 5000, 1));
    let mut again = dev("a", "Alpha", "10.0.0.2", 5000, 2);
    again.addresses = vec!["10.0.0.2".to_string(), "192.168.1.2".to_string()];
    assert_eq!(r.upsert_device("n".to_string(), again), UpsertResult::NoChange);
    assert_eq!(r.get_device("a").unwrap().addresses, vec!["10.0.0.2".to_string()]);
}

#[test]
fn announce_then_withdraw_forgets_device() {
    let mut r = DeviceRegistry::new();
    r.upsert_device("svc-a".to_string(), dev("a", "Alpha", "10.0.0.2", 5000, 1));
    r.upsert_device("svc-b".to_string(), dev("b", "Beta", "10.0.0.3", 5000, 1));
    assert_eq!(r.device_id_for_name("svc-a"), Some("a".to_string()));
    assert!(r.remove_device_by_fullname("svc-a"));
    assert!(r.get_device("a").is_none());
    assert!(r.device_id_for_name("svc-a").is_none());
    assert!(r.get_device("b").is_some());
    assert!(!r.remove_device_by_fullname("svc-a"));
    assert!(!r.remove_device_by_fullname("unknown"));
}

#[test]
fn remove_device_drops_every_name_for_it() {
    let mut r = DeviceRegistry::new();
    r.upsert_device("old-name".to_string(), dev("a", "Alpha", "10.0.0.2", 5000, 1));
    r.upsert_device("new-name".to_string(), dev("a", "Alpha", "10.0.0.2", 5000, 2));
    assert!(r.remove_device("a"));
    assert!(r.device_id_for_name("old-name").is_none());
    assert!(r.device_id_for_name("new-name").is_none());
    assert!(!r.remove_device("a"));
}

#[test]
fn list_is_sorted_by_name() {
    let mut r = DeviceRegistry::new();
    r.upsert_device("1".to_string(), dev("x", "zeta", "10.0.0.1", 1, 1));
    r.upsert_device("2".to_string(), dev("y", "Alpha", "10.0.0.2", 1, 1));
    r.upsert_device("3".to_string(), dev("z", "beta", "10.0.0.3", 1, 1));
    r.upsert_device("4".to_string(), dev("w", "客厅", "10.0.0.4", 1, 1));
    let names: Vec<String> = r.list_devices().into_iter().map(|d| d.device_name).collect();
    assert_eq!(names, vec!["Alpha", "beta", "zeta", "客厅"]);
}

#[test]
fn timed_out_lists_stale_devices_once() {
    let mut r = DeviceRegistry::new();
    r.upsert_device("1".to_string(), dev("old", "Old", "10.0.0.1", 4000, 1_000));
    r.upsert_device("2".to_string(), dev("new", "New", "10.0.0.2", 4001, 20_000));
    let stale = r.timed_out(20_000, 15_000);
    assert_eq!(stale, vec![("old".to_string(), "10.0.0.1".to_string(), 4000)]);
    assert!(r.timed_out(16_000, 15_000).is_empty());
    // a clock that went backwards counts as no time passed
    assert!(r.timed_out(0, 0).is_empty());
}

#[test]
fn ping_success_refreshes_and_renames() {
    let mut r = DeviceRegistry::new();
    r.upsert_device("1".to_string(), dev("a", "Alpha", "10.0.0.1", 4000, 1));
    assert!(r.record_ping_success("a", 50, Some("Alpha".to_string())).is_none());
    assert_eq!(r.get_device("a").unwrap().last_seen, 50);
    let renamed = r.record_ping_success("a", 60, Some("Omega".to_string())).unwrap();
    assert_eq!(renamed.device_name, "Omega");
    assert_eq!(renamed.last_seen, 60);
    assert_eq!(r.get_device("a").unwrap().device_name, "Omega");
    assert!(r.record_ping_success("a", 70, None).is_none());
    assert_eq!(r.get_device("a").unwrap().last_seen, 70);
    assert!(r.record_ping_success("nobody", 70, Some("x".to_string())).is_none());
    assert!(r.get_device("nobody").is_none());
}

#[test]
fn clear_forgets_everything() {
    let mut r = DeviceRegistry::new();
    r.upsert_device("1".to_string(), dev("a", "Alpha", "10.0.0.1", 4000, 1));
    r.clear();
    assert!(r.list_devices().is_empty());
    assert!(r.device_id_for_name("1").is_none());
}

#[test]
fn device_copies_and_string_helpers() {
    let d = dev("a", "Alpha", "10.0.0.1", 4000, 1);
    let c = d.copy();
    assert_eq!(c.device_id, "a");
    assert_eq!(c.addresses, d.addresses);
    assert_eq!(clone_strings(&vec!["x".to_string()]), vec!["x".to_string()]);
    assert!(str_eq("abc", "abc"));
    assert!(!str_eq("abc", "abd"));
    let moved = d.with_ip("192.168.0.9");
    assert_eq!(moved.ip, "192.168.0.9");
    assert_eq!(moved.addresses, vec!["10.0.0.1".to_string()]);
}
