use easy2send::paths::PathComponent;
use easy2send::ports::{first_free_port, port_candidates, PortError};
use easy2send::protocol::{CHUNK_SIZE, ENTRY_DIR, ENTRY_FILE, MODE_BATCH, MODE_FILE, MODE_FOLDER};
use easy2send::task_id::task_id_from_words;
use easy2send::transfer::{
    batch_sub_task_id, build_transfer_task_seeds, folder_display_name, next_chunk_len,
    plan_batch_send, plan_folder_entry, sibling_order, task_send_prefix, top_level_name,
    EntryAction, ReceiveError, SeedError,
};

fn strings(v: &[&str]) -> Vec<String> {
    v.iter().map(|s| s.to_string()).collect()
}

#[test]
fn seeds_keep_existing_paths_in_order() {
    let paths = strings(&["/a/one.txt", "/missing", "/b/photos"]);
    let exists = vec![true, false, true];
    let words = vec![(1, 2), (3, 4), (5, 6)];
    let seeds = build_transfer_task_seeds("10.0.0.2:5000", &paths, &exists, &words).unwrap();
    assert_eq!(seeds.len(), 2);
    assert_eq!(seeds[0].path, "/a/one.txt");
    assert_eq!(seeds[0].name, "one.txt");
    assert_eq!(seeds[0].task_id, task_id_from_words(1, 2));
    assert_eq!(seeds[1].path, "/b/photos");
    assert_eq!(seeds[1].name, "photos");
    assert_eq!(seeds[1].task_id, task_id_from_words(5, 6));
}

#[test]
fn seeds_fail_when_nothing_exists() {
    let paths = strings(&["/x", "/y"]);
    let err = build_transfer_task_seeds("", &paths, &vec![false, false], &vec![(0, 0), (0, 0)])
        .unwrap_err();
    assert_eq!(err, SeedError::NoValidPath);
    assert_eq!(err.message(), "没有有效的文件路径");
    assert!(build_transfer_task_seeds("", &Vec::new(), &Vec::new(), &Vec::new()).is_err());
}

#[test]
fn seed_name_is_empty_for_root() {
    let seeds =
        build_transfer_task_seeds("", &strings(&["/"]), &vec![true], &vec![(7, 7)]).unwrap();
    assert_eq!(seeds[0].name, "");
}

#[test]
fn batch_plan_header_and_modes() {
    let paths = strings(&["/f.txt", "/gone", "/dir"]);
    let plan = plan_batch_send(&paths, &vec![true, false, true], &vec![false, false, true]).unwrap();
    assert_eq!(plan.header, vec![MODE_BATCH, 0, 0, 0, 2]);
    assert_eq!(plan.entries.len(), 2);
    assert_eq!(plan.entries[0], ("/f.txt".to_string(), MODE_FILE));
    assert_eq!(plan.entries[1], ("/dir".to_string(), MODE_FOLDER));
    let none = plan_batch_send(&paths, &vec![false, false, false], &vec![false, false, false]);
    assert_eq!(none.unwrap_err(), SeedError::NoValidPath);
}

#[test]
fn batch_sub_task_ids_count_from_one() {
    assert_eq!(batch_sub_task_id("abc", 0), "abc-1");
    assert_eq!(batch_sub_task_id("abc", 9), "abc-10");
    assert_eq!(batch_sub_task_id("", u32::MAX), "-4294967296");
}

#[test]
fn top_level_name_is_text_before_first_slash() {
    assert_eq!(top_level_name("photos/2024/a.jpg"), "photos");
    assert_eq!(top_level_name("single"), "single");
    assert_eq!(top_level_name("/lead"), "");
    assert_eq!(top_level_name(""), "");
    assert_eq!(top_level_name("相册/一月"), "相册");
}

#[test]
fn chunk_length_is_capped() {
    assert_eq!(next_chunk_len(10), 10);
    assert_eq!(next_chunk_len(0), 0);
    assert_eq!(next_chunk_len(u64::MAX), CHUNK_SIZE);
    assert_eq!(next_chunk_len(CHUNK_SIZE as u64), CHUNK_SIZE);
    assert_eq!(next_chunk_len(CHUNK_SIZE as u64 - 1), CHUNK_SIZE - 1);
}

fn names(v: &[PathComponent]) -> Vec<String> {
    v.iter()
        .map(|c| match c {
            PathComponent::Normal(x) => x.clone(),
            PathComponent::RootDir => "/".to_string(),
            _ => "?".to_string(),
        })
        .collect()
}

#[test]
fn folder_entries_map_under_save_dir() {
    let mut first = None;
    let a = plan_folder_entry("/save", ENTRY_DIR, "photos", &mut first).unwrap();
    match a {
        EntryAction::CreateDir(p) => assert_eq!(names(&p), vec!["/", "save", "photos"]),
        _ => panic!("expected a directory"),
    }
    assert_eq!(first.as_deref(), Some("photos"));
    let b = plan_folder_entry("/save", ENTRY_FILE, "other/x.jpg", &mut first).unwrap();
    match b {
        EntryAction::WriteFile(p) => assert_eq!(names(&p), vec!["/", "save", "other", "x.jpg"]),
        _ => panic!("expected a file"),
    }
    assert_eq!(first.as_deref(), Some("photos"));
    assert_eq!(folder_display_name(&first), "photos");
    assert_eq!(folder_display_name(&None), "文件夹");
}

#[test]
fn folder_entry_refuses_traversal_and_unknown_kind() {
    let mut first = None;
    let e = plan_folder_entry("/save", ENTRY_FILE, "../../etc/passwd", &mut first).unwrap_err();
    match &e {
        ReceiveError::IllegalPath(p) => assert_eq!(p, "../../etc/passwd"),
        _ => panic!("expected an illegal path"),
    }
    assert_eq!(e.message(), "非法路径，已拒绝: ../../etc/passwd");
    assert_eq!(first.as_deref(), Some(".."));
    let k = plan_folder_entry("/save", 7, "ok.txt", &mut first).unwrap_err();
    assert!(matches!(k, ReceiveError::UnknownEntryKind(7)));
    assert_eq!(k.message(), "未知的条目类型: 7");
}

#[test]
fn task_prefix_from_hex_id() {
    let p = task_send_prefix(true, "000102030405060708090a0b0c0d0e0f");
    assert_eq!(p, vec![5, 0, 1, 2, 3, 4, 5, 6, 7, 8, 9, 10, 11, 12, 13, 14, 15]);
    let f = task_send_prefix(false, "ffffffffffffffffffffffffffffffff");
    assert_eq!(f[0], 4);
    assert_eq!(f[1], 0xff);
    assert_eq!(f.len(), 17);
}

#[test]
fn port_ranges() {
    assert_eq!(port_candidates(5000, 5003).unwrap(), vec![5000, 5001, 5002, 5003]);
    assert_eq!(port_candidates(7, 7).unwrap(), vec![7]);
    assert_eq!(port_candidates(65534, 65535).unwrap(), vec![65534, 65535]);
    assert_eq!(port_candidates(9, 8), Err(PortError::InvalidRange));
    assert_eq!(first_free_port(&vec![5002, 5003]), Ok(5002));
    assert_eq!(first_free_port(&Vec::new()), Err(PortError::NoFreePort));
}

#[test]
fn folder_entries_listed_by_name_bytes() {
    let keys: Vec<Vec<u8>> = vec![b"b".to_vec(), b"a".to_vec(), b"ab".to_vec(), Vec::new(), b"a0".to_vec()];
    assert_eq!(sibling_order(&keys), vec![3, 1, 4, 2, 0]);
    let upper: Vec<Vec<u8>> = vec![b"a.txt".to_vec(), b"B.txt".to_vec(), "é".as_bytes().to_vec()];
    assert_eq!(sibling_order(&upper), vec![1, 0, 2]);
    assert!(sibling_order(&Vec::new()).is_empty());
}
