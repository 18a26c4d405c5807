use easy2send::upload::{
    bearer_token, check_upload, check_upload_at, declared_file_size, pair_phone, pair_phone_at,
    upload_request_from, upload_target, UploadRejection, BEARER_PREFIX, UNKNOWN_FILE_NAME,
};
use easy2send::webupload::{
    new_token, WebUploadState, MAX_SESSIONS, PAIR_TOKEN_TTL_NS, SESSION_TTL_NS,
};

const MIN: u64 = 60_000_000_000;

#[test]
fn lifetimes() {
    assert_eq!(PAIR_TOKEN_TTL_NS, 5 * MIN);
    assert_eq!(SESSION_TTL_NS, 30 * MIN);
    assert_eq!(MAX_SESSIONS, 3);
}

#[test]
fn pair_token_is_single_use() {
    let mut st = WebUploadState::new("/save".to_string());
    assert_eq!(st.create_pair_token_at("tok".to_string(), 0), "tok");
    assert!(st.validate_and_consume_pair_token_at("tok", MIN));
    assert!(!st.validate_and_consume_pair_token_at("tok", MIN));
}

#[test]
fn wrong_pair_token_uses_it_up() {
    let mut st = WebUploadState::new("/save".to_string());
    st.create_pair_token_at("tok".to_string(), 0);
    assert!(!st.validate_and_consume_pair_token_at("other", 1));
    assert!(!st.validate_and_consume_pair_token_at("tok", 2));
}

#[test]
fn pair_token_expires_after_five_minutes() {
    let mut st = WebUploadState::new("/save".to_string());
    st.create_pair_token_at("tok".to_string(), 100);
    assert!(!st.validate_and_consume_pair_token_at("tok", 100 + 5 * MIN));
    st.create_pair_token_at("tok".to_string(), 100);
    assert!(st.validate_and_consume_pair_token_at("tok", 100 + 5 * MIN - 1));
}

#[test]
fn new_pair_token_replaces_old_one() {
    let mut st = WebUploadState::new("/save".to_string());
    st.create_pair_token_at("a".to_string(), 0);
    st.create_pair_token_at("b".to_string(), 0);
    assert!(!st.validate_and_consume_pair_token_at("a", 1));
}

#[test]
fn session_is_renewed_by_use() {
    let mut st = WebUploadState::new("/save".to_string());
    st.create_session_at("s".to_string(), 0);
    assert!(st.validate_session_at("s", 29 * MIN));
    // the use at 29 minutes renews it
    assert!(st.validate_session_at("s", 58 * MIN));
    assert!(!st.validate_session_at("unknown", 58 * MIN));
}

#[test]
fn expired_session_is_dropped() {
    let mut st = WebUploadState::new("/save".to_string());
    st.create_session_at("s".to_string(), 0);
    assert!(!st.validate_session_at("s", 30 * MIN));
    assert!(!st.validate_session_at("s", 0));
}

#[test]
fn expired_sessions_pruned_when_many() {
    let mut st = WebUploadState::new("/save".to_string());
    st.create_session_at("a".to_string(), 0);
    st.create_session_at("b".to_string(), 0);
    st.create_session_at("c".to_string(), 20 * MIN);
    // three sessions: the expired ones go before "d" is added
    st.create_session_at("d".to_string(), 31 * MIN);
    assert!(!st.validate_session_at("a", 0));
    assert!(st.validate_session_at("c", 31 * MIN));
    assert!(st.validate_session_at("d", 31 * MIN));
}

#[test]
fn at_most_three_sessions_evicting_the_least_recent() {
    let mut st = WebUploadState::new("/save".to_string());
    st.create_session_at("a".to_string(), 1);
    st.create_session_at("b".to_string(), 3);
    st.create_session_at("c".to_string(), 2);
    // all three fresh: the least recently used one ("a") makes room
    st.create_session_at("d".to_string(), 4);
    assert!(!st.validate_session_at("a", 5));
    assert!(st.validate_session_at("b", 5));
    assert!(st.validate_session_at("c", 5));
    assert!(st.validate_session_at("d", 5));
}

#[test]
fn new_tokens_are_uuids() {
    let t = new_token();
    assert_eq!(t.len(), 36);
    assert_eq!(t.trim(), t);
    assert!(easy2send::device_id::stored_device_id(&t).is_some());
    let b = t.as_bytes();
    for (i, c) in b.iter().enumerate() {
        if i == 8 || i == 13 || i == 18 || i == 23 {
            assert_eq!(*c, b'-');
        } else {
            assert!(c.is_ascii_digit() || (b'a'..=b'f').contains(c));
        }
    }
    assert_eq!(b[14], b'4');
    assert!(matches!(b[19], b'8' | b'9' | b'a' | b'b'));
}

#[test]
fn real_clock_flow() {
    let mut st = WebUploadState::new("/save".to_string());
    assert_eq!(st.save_dir(), "/save");
    let tok = st.create_pair_token();
    assert!(!tok.is_empty());
    assert!(st.validate_and_consume_pair_token(&tok));
    let s = st.create_session();
    assert!(st.validate_session(&s));
    assert_ne!(new_token(), new_token());
}

#[test]
fn pairing_opens_a_session() {
    let mut st = WebUploadState::new("/save".to_string());
    st.create_pair_token_at("p".to_string(), 0);
    let s = pair_phone_at(&mut st, "p", "sess".to_string(), 10).unwrap();
    assert_eq!(s, "sess");
    assert!(st.validate_session_at("sess", 11));
    let again = pair_phone_at(&mut st, "p", "sess2".to_string(), 12).unwrap_err();
    assert!(matches!(again, UploadRejection::InvalidPairToken));
    assert_eq!(again.status(), 401);
    assert_eq!(again.message(), "无效或已过期的配对 token");
    assert!(!st.validate_session_at("sess2", 13));
}

#[test]
fn pairing_with_real_clock() {
    let mut st = WebUploadState::new("/save".to_string());
    assert!(matches!(pair_phone(&mut st, "x"), Err(UploadRejection::InvalidPairToken)));
    let t = st.create_pair_token();
    let s = pair_phone(&mut st, &t).unwrap();
    assert!(st.validate_session(&s));
}

#[test]
fn bearer_header() {
    assert_eq!(BEARER_PREFIX, "Bearer ");
    assert_eq!(bearer_token(Some("Bearer abc")), Some("abc".to_string()));
    assert_eq!(bearer_token(Some("Bearer ")), Some(String::new()));
    assert_eq!(bearer_token(Some("bearer abc")), None);
    assert_eq!(bearer_token(Some("Basic abc")), None);
    assert_eq!(bearer_token(None), None);
}

#[test]
fn declared_size_header() {
    assert_eq!(declared_file_size(Some("1048576")), 1048576);
    assert_eq!(declared_file_size(Some("+12")), 12);
    assert_eq!(declared_file_size(Some("abc")), 0);
    assert_eq!(declared_file_size(Some("-5")), 0);
    assert_eq!(declared_file_size(Some("18446744073709551616")), 0);
    assert_eq!(declared_file_size(None), 0);
}

fn state_with_session() -> WebUploadState {
    let mut st = WebUploadState::new("/save".to_string());
    st.create_session_at("s".to_string(), 0);
    st
}

const CT: &str = "multipart/form-data; boundary=----XYZ";

#[test]
fn upload_accepted() {
    let mut st = state_with_session();
    let r = check_upload_at(&mut st, Some("Bearer s"), Some("42"), Some(CT), 5).unwrap();
    assert_eq!(r.total_size, 42);
    assert_eq!(r.boundary, "----XYZ");
}

#[test]
fn upload_without_authorization() {
    let mut st = state_with_session();
    let e = check_upload_at(&mut st, None, Some("1"), Some(CT), 5).unwrap_err();
    assert!(matches!(e, UploadRejection::MissingAuthorization));
    assert_eq!(e.status(), 401);
    assert_eq!(e.message(), "缺少 Authorization 头");
    let e2 = check_upload_at(&mut st, Some("Token s"), None, Some(CT), 5).unwrap_err();
    assert!(matches!(e2, UploadRejection::MissingAuthorization));
}

#[test]
fn upload_with_expired_session() {
    let mut st = state_with_session();
    let e = check_upload_at(&mut st, Some("Bearer s"), None, Some(CT), 31 * MIN).unwrap_err();
    assert!(matches!(e, UploadRejection::InvalidSession));
    assert_eq!(e.status(), 401);
    assert_eq!(e.message(), "session 无效或已过期");
}

#[test]
fn upload_without_content_type() {
    let mut st = state_with_session();
    let e = check_upload_at(&mut st, Some("Bearer s"), None, None, 1).unwrap_err();
    assert!(matches!(e, UploadRejection::MissingContentType));
    assert_eq!(e.status(), 400);
    assert_eq!(e.message(), "缺少 Content-Type");
}

#[test]
fn upload_with_bad_boundary() {
    let mut st = state_with_session();
    let e = check_upload_at(&mut st, Some("Bearer s"), None, Some("text/plain"), 1).unwrap_err();
    assert!(matches!(e, UploadRejection::BadBoundary(_)));
    assert_eq!(e.status(), 400);
    assert!(e.message().starts_with("解析 boundary 失败: "));
    let e2 = check_upload_at(&mut st, Some("Bearer s"), None, Some("multipart/form-data"), 2)
        .unwrap_err();
    assert!(matches!(e2, UploadRejection::BadBoundary(_)));
}

#[test]
fn upload_with_real_clock() {
    let mut st = WebUploadState::new("/save".to_string());
    let s = st.create_session();
    let ok = check_upload(&mut st, Some(&format!("Bearer {}", s)), Some("3"), Some(CT)).unwrap();
    assert_eq!(ok.total_size, 3);
    assert!(matches!(
        check_upload(&mut st, Some("Bearer nope"), None, Some(CT)),
        Err(UploadRejection::InvalidSession)
    ));
}

#[test]
fn upload_request_from_parser_answer() {
    let ok = upload_request_from(9, Ok("b".to_string())).unwrap();
    assert_eq!(ok.total_size, 9);
    assert_eq!(ok.boundary, "b");
    match upload_request_from(9, Err("why".to_string())) {
        Err(UploadRejection::BadBoundary(m)) => assert_eq!(m, "why"),
        _ => panic!("expected a refusal"),
    }
}

#[test]
fn upload_target_names() {
    let (name, path) = upload_target("/save", Some("a.txt")).unwrap();
    assert_eq!(name, "a.txt");
    assert_eq!(path.len(), 3);
    let (unknown, _) = upload_target("/save", None).unwrap();
    assert_eq!(unknown, UNKNOWN_FILE_NAME);
    let e = upload_target("/save", Some("../evil.sh")).unwrap_err();
    assert!(matches!(&e, UploadRejection::IllegalFileName(n) if n == "../evil.sh"));
    assert_eq!(e.status(), 400);
    assert_eq!(e.message(), "非法文件名: 非法路径，已拒绝: ../evil.sh");
}
