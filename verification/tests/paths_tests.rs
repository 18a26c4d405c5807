use easy2send::notify::{is_dev_build_path, running_from_target_dir, NOTIFICATION_CLICKED_EVENT};
use easy2send::paths::{
    file_name, normalize, parent, safe_join, safe_join_components, starts_with,
    wire_relative_path, PathComponent, PathError,
};

fn n(s: &str) -> PathComponent {
    PathComponent::Normal(s.to_string())
}

fn names(v: &[PathComponent]) -> Vec<String> {
    v.iter()
        .map(|c| match c {
            PathComponent::Prefix(p) => format!("prefix:{}", p),
            PathComponent::RootDir => "/".to_string(),
            PathComponent::CurDir => ".".to_string(),
            PathComponent::ParentDir => "..".to_string(),
            PathComponent::Normal(x) => x.clone(),
        })
        .collect()
}

#[test]
fn normalize_folds_dots() {
    let p = vec![
        PathComponent::RootDir,
        n("a"),
        PathComponent::CurDir,
        n("b"),
        PathComponent::ParentDir,
        n("c"),
    ];
    assert_eq!(names(&normalize(&p)), vec!["/", "a", "c"]);
}

#[test]
fn normalize_never_climbs_above_root() {
    let p = vec![PathComponent::RootDir, PathComponent::ParentDir, PathComponent::ParentDir, n("x")];
    assert_eq!(names(&normalize(&p)), vec!["/", "x"]);
    let rel = vec![PathComponent::ParentDir, n("y")];
    assert_eq!(names(&normalize(&rel)), vec!["y"]);
}

#[test]
fn normalize_root_resets_path() {
    let p = vec![n("a"), PathComponent::RootDir, n("b")];
    assert_eq!(names(&normalize(&p)), vec!["/", "b"]);
}

#[test]
fn starts_with_is_componentwise() {
    let a = vec![PathComponent::RootDir, n("save"), n("x")];
    let b = vec![PathComponent::RootDir, n("save")];
    let c = vec![PathComponent::RootDir, n("sav")];
    assert!(starts_with(&a, &b));
    assert!(!starts_with(&a, &c));
    assert!(!starts_with(&b, &a));
}

#[test]
fn safe_join_accepts_names_inside_base() {
    let p = safe_join("/save", "sub/x.txt").unwrap();
    assert_eq!(names(&p), vec!["/", "save", "sub", "x.txt"]);
}

#[test]
fn safe_join_folds_harmless_dots() {
    let p = safe_join("/save", "a/./b/../c.txt").unwrap();
    assert_eq!(names(&p), vec!["/", "save", "a", "c.txt"]);
}

#[test]
fn safe_join_resolves_parent_segments_inside_base() {
    let p = safe_join("/data/recv", "a/../b").unwrap();
    assert_eq!(names(&p), vec!["/", "data", "recv", "b"]);
    let q = safe_join("/data/recv", "./x/y/..").unwrap();
    assert_eq!(names(&q), vec!["/", "data", "recv", "x"]);
    let r = safe_join("/data/./recv", "z").unwrap();
    assert_eq!(names(&r), vec!["/", "data", "recv", "z"]);
}

#[test]
fn safe_join_refuses_traversal() {
    assert_eq!(safe_join("/save", "a/../../etc/passwd").unwrap_err(), PathError::OutsideBase);
    assert_eq!(safe_join("/save", "../x").unwrap_err(), PathError::OutsideBase);
}

#[test]
fn safe_join_refuses_absolute_name() {
    assert_eq!(safe_join("/save", "/etc/passwd").unwrap_err(), PathError::OutsideBase);
}

#[test]
fn safe_join_components_exact() {
    let base = vec![PathComponent::RootDir, n("d")];
    let rel = vec![n("a"), PathComponent::ParentDir, n("b")];
    let p = safe_join_components(&base, &rel).unwrap();
    assert_eq!(names(&p), vec!["/", "d", "b"]);
    let up = vec![PathComponent::ParentDir];
    assert_eq!(safe_join_components(&base, &up).unwrap_err(), PathError::OutsideBase);
}

#[test]
fn file_name_and_parent() {
    let p = vec![PathComponent::RootDir, n("home"), n("a.txt")];
    assert_eq!(file_name(&p), Some("a.txt".to_string()));
    assert_eq!(names(&parent(&p).unwrap()), vec!["/", "home"]);
    let root = vec![PathComponent::RootDir];
    assert_eq!(file_name(&root), None);
    assert!(parent(&root).is_none());
    let up = vec![n("a"), PathComponent::ParentDir];
    assert_eq!(file_name(&up), None);
    assert!(parent(&Vec::new()).is_none());
}

#[test]
fn wire_relative_path_strips_base_and_uses_slashes() {
    let base = vec![PathComponent::RootDir, n("home")];
    let entry = vec![PathComponent::RootDir, n("home"), n("docs"), n("a\\b.txt")];
    assert_eq!(wire_relative_path(&base, &entry), Some("docs/a/b.txt".to_string()));
    let other = vec![PathComponent::RootDir, n("tmp")];
    assert_eq!(wire_relative_path(&base, &other), None);
    assert_eq!(wire_relative_path(&base, &base), Some(String::new()));
}

#[test]
fn dev_build_detection() {
    let dev = vec![PathComponent::RootDir, n("proj"), n("target"), n("debug"), n("app")];
    assert!(is_dev_build_path(&dev));
    let rel = vec![PathComponent::RootDir, n("target"), n("release"), n("app")];
    assert!(is_dev_build_path(&rel));
    let installed = vec![PathComponent::RootDir, n("opt"), n("easy2send"), n("app")];
    assert!(!is_dev_build_path(&installed));
    let only_debug = vec![PathComponent::RootDir, n("debug"), n("app")];
    assert!(!is_dev_build_path(&only_debug));
    assert!(running_from_target_dir("/home/u/proj/target/debug/easy2send"));
    assert!(!running_from_target_dir("/usr/bin/easy2send"));
    assert_eq!(NOTIFICATION_CLICKED_EVENT, "notification-clicked");
}
