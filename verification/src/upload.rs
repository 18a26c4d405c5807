//! The decisions of the phone-upload endpoints: who may pair, who may
//! upload, how the request headers are read, and where the uploaded file
//! goes.
use vstd::prelude::*;
use vstd::string::{StrSliceExecFns, StringExecFns};
use crate::paths::{has_no_dots, parts_of, safe_join, safe_join_outcome, PathComponent};
use crate::text::{parse_unsigned, parse_unsigned_bytes};
use crate::webupload::{
    pair_token_accepts, session_accepts, session_opened, sessions_after_validate,
    WebUploadState,
};
use vstd::string::StringSliceAdditionalSpecFns;

verus! {

/// What an `Authorization` header starts with when it carries a session.
pub const BEARER_PREFIX: &'static str = "Bearer ";

/// The name an uploaded file gets when its form field has none.
pub const UNKNOWN_FILE_NAME: &'static str = "unknown";

/// Why a pairing or upload request is refused.
#[derive(Debug)]
pub enum UploadRejection {
    /// The pairing token is unknown, used or expired.
    InvalidPairToken,
    /// No `Authorization: Bearer ...` header.
    MissingAuthorization,
    /// The session is unknown or expired.
    InvalidSession,
    /// No `Content-Type` header.
    MissingContentType,
    /// The `Content-Type` header gives no multipart boundary; the text is
    /// the parser's reason.
    BadBoundary(String),
    /// The file name would leave the save directory.
    IllegalFileName(String),
}

/// The HTTP status answered for a refusal.
pub open spec fn rejection_status(r: UploadRejection) -> u16 {
    match r {
        UploadRejection::InvalidPairToken => 401,
        UploadRejection::MissingAuthorization => 401,
        UploadRejection::InvalidSession => 401,
        _ => 400,
    }
}

impl UploadRejection {
    /// The HTTP status answered for the refusal.
    pub fn status(&self) -> (res: u16)
        ensures
            res == rejection_status(*self),
    {
        match self {
            UploadRejection::InvalidPairToken => 401,
            UploadRejection::MissingAuthorization => 401,
            UploadRejection::InvalidSession => 401,
            _ => 400,
        }
    }

    /// The text answered for the refusal.
    pub fn message(&self) -> (res: String)
        ensures
            match self {
                UploadRejection::InvalidPairToken => res@ == "无效或已过期的配对 token"@,
                UploadRejection::MissingAuthorization => res@ == "缺少 Authorization 头"@,
                UploadRejection::InvalidSession => res@ == "session 无效或已过期"@,
                UploadRejection::MissingContentType => res@ == "缺少 Content-Type"@,
                UploadRejection::BadBoundary(e) => res@ == "解析 boundary 失败: "@ + e@,
                UploadRejection::IllegalFileName(n) => res@ == "非法文件名: 非法路径，已拒绝: "@
                    + n@,
            },
    {
        match self {
            UploadRejection::InvalidPairToken => "无效或已过期的配对 token".to_owned(),
            UploadRejection::MissingAuthorization => "缺少 Authorization 头".to_owned(),
            UploadRejection::InvalidSession => "session 无效或已过期".to_owned(),
            UploadRejection::MissingContentType => "缺少 Content-Type".to_owned(),
            UploadRejection::BadBoundary(e) => {
                let mut s = "解析 boundary 失败: ".to_owned();
                s.append(e.as_str());
                s
            },
            UploadRejection::IllegalFileName(n) => {
                let mut s = "非法文件名: 非法路径，已拒绝: ".to_owned();
                s.append(n.as_str());
                s
            },
        }
    }
}

/// Pairs a phone at `now`: the pairing token is used up whatever `token`
/// is, and when `token` matches it and it has not expired the session
/// `session` is opened and returned.
pub fn pair_phone_at(state: &mut WebUploadState, token: &str, session: String, now: u64) -> (res:
    Result<String, UploadRejection>)
    requires
        old(state).wf(),
    ensures
        final(state).wf(),
        final(state).dir() == old(state).dir(),
        final(state).pair() is None,
        pair_token_accepts(old(state).pair(), token@, now) ==> {
            &&& res matches Ok(s) && s@ == session@
            &&& session_opened(old(state).sessions(), session@, now, final(state).sessions())
        },
        !pair_token_accepts(old(state).pair(), token@, now) ==> {
            &&& res matches Err(UploadRejection::InvalidPairToken)
            &&& final(state).sessions() == old(state).sessions()
        },
{
    if !state.validate_and_consume_pair_token_at(token, now) {
        return Err(UploadRejection::InvalidPairToken);
    }
    Ok(state.create_session_at(session, now))
}

/// Pairs a phone now (see `pair_phone_at`): the pairing token is used up;
/// whether it is accepted is decided at the clock reading of the check, and
/// on success a session with a fresh random token is opened at a later
/// reading and returned.
pub fn pair_phone(state: &mut WebUploadState, token: &str) -> (res: Result<String, UploadRejection>)
    requires
        old(state).wf(),
    ensures
        final(state).wf(),
        final(state).dir() == old(state).dir(),
        final(state).pair() is None,
        res matches Ok(s) ==> final(state).sessions().contains_key(s@) && (old(state).pair() matches Some(
            (t, _),
        ) && t == token@),
        res is Err ==> (res matches Err(UploadRejection::InvalidPairToken) && final(state).sessions()
            == old(state).sessions()),
        old(state).pair() is None ==> res is Err,
        exists|now: u64| (res is Ok) == pair_token_accepts(old(state).pair(), token@, now),
        res is Ok ==> exists|now: u64|
            session_opened(old(state).sessions(), res->Ok_0@, now, final(state).sessions()),
{
    if !state.validate_and_consume_pair_token(token) {
        return Err(UploadRejection::InvalidPairToken);
    }
    let ghost mid = state.sessions();
    let session = state.create_session();
    let res = Ok(session);
    proof {
        let now = choose|now: u64| session_opened(mid, res->Ok_0@, now, state.sessions());
        assert(session_opened(old(state).sessions(), res->Ok_0@, now, state.sessions()));
    }
    res
}

/// What follows `prefix` when `s` starts with it (as `str::strip_prefix`
/// gives it).
fn strip_prefix_str<'a>(s: &'a str, prefix: &str) -> (res: Option<&'a str>)
    ensures
        match res {
            Some(r) => s@ == prefix@ + r@,
            None => !(prefix@.len() <= s@.len() && s@.take(prefix@.len() as int) == prefix@),
        },
{
    let n = prefix.unicode_len();
    let m = s.unicode_len();
    if n > m {
        return None;
    }
    let mut i: usize = 0;
    while i < n
        invariant
            i <= n <= m,
            n == prefix@.len(),
            m == s@.len(),
            forall|j: int| 0 <= j < i ==> s@[j] == prefix@[j],
        decreases n - i,
    {
        if s.get_char(i) != prefix.get_char(i) {
            assert(s@.take(n as int)[i as int] != prefix@[i as int]);
            return None;
        }
        i = i + 1;
    }
    let rest = s.substring_char(n, m);
    assert(s@ =~= prefix@ + rest@);
    Some(rest)
}

/// The session token an `Authorization` header carries: what follows
/// `Bearer `.
pub open spec fn bearer_of(header: Option<Seq<char>>) -> Option<Seq<char>> {
    match header {
        Some(h) => {
            let p = BEARER_PREFIX@;
            if p.len() <= h.len() && h.take(p.len() as int) == p {
                Some(h.skip(p.len() as int))
            } else {
                None
            }
        },
        None => None,
    }
}

/// The view of an optional string.
pub open spec fn opt_view(o: Option<&str>) -> Option<Seq<char>> {
    match o {
        Some(s) => Some(s@),
        None => None,
    }
}

/// Reads the session token from an `Authorization` header (see `bearer_of`).
pub fn bearer_token(authorization: Option<&str>) -> (res: Option<String>)
    ensures
        match bearer_of(opt_view(authorization)) {
            Some(t) => res matches Some(r) && r@ == t,
            None => res is None,
        },
{
    match authorization {
        None => None,
        Some(h) => match strip_prefix_str(h, BEARER_PREFIX) {
            Some(r) => {
                proof {
                    let p = BEARER_PREFIX@;
                    assert(h@.take(p.len() as int) =~= p);
                    assert(h@.skip(p.len() as int) =~= r@);
                }
                Some(r.to_owned())
            },
            None => None,
        },
    }
}

/// The size a request declares in `X-File-Size`: the header read as an
/// unsigned 64-bit decimal, and zero when it is missing or not a number.
pub open spec fn declared_size_of(header: Option<Seq<u8>>) -> u64 {
    match header {
        Some(b) => match parse_unsigned(b, u64::MAX as nat) {
            Some(v) => v as u64,
            None => 0,
        },
        None => 0,
    }
}

/// The bytes of an optional string.
pub open spec fn opt_bytes(o: Option<&str>) -> Option<Seq<u8>> {
    match o {
        Some(s) => Some(s.spec_bytes()),
        None => None,
    }
}

/// Reads the `X-File-Size` header (see `declared_size_of`).
pub fn declared_file_size(header: Option<&str>) -> (res: u64)
    ensures
        res == declared_size_of(opt_bytes(header)),
{
    match header {
        None => 0,
        Some(s) => match parse_unsigned_bytes(s.as_bytes(), u64::MAX) {
            Some(v) => v,
            None => 0,
        },
    }
}

/// The multipart boundary that `multer::parse_boundary` reads from a
/// `Content-Type` value, when it finds one.
pub uninterp spec fn multer_boundary(content_type: Seq<char>) -> Option<Seq<char>>;

/// `multer::parse_boundary`: the boundary parameter of a
/// `multipart/form-data` content type. Its result is a function of the text
/// alone (named by `multer_boundary`); the reason given on failure is the
/// error's display text, of which nothing is stated.
#[verifier::external_body]
fn parse_boundary(content_type: &str) -> (res: Result<String, String>)
    ensures
        match multer_boundary(content_type@) {
            Some(b) => res matches Ok(r) && r@ == b,
            None => res is Err,
        },
{
    multer::parse_boundary(content_type).map_err(|e| e.to_string())
}

/// An upload request that was let through: the size it declares and the
/// boundary its multipart body uses.
#[derive(Debug)]
pub struct UploadRequest {
    pub total_size: u64,
    pub boundary: String,
}

/// The request that goes on once the boundary parser has answered: the
/// boundary it found, or a refusal with its reason.
pub fn upload_request_from(total_size: u64, boundary: Result<String, String>) -> (res: Result<
    UploadRequest,
    UploadRejection,
>)
    ensures
        match boundary {
            Ok(b) => res matches Ok(r) && r.boundary == b && r.total_size == total_size,
            Err(e) => res matches Err(UploadRejection::BadBoundary(m)) && m == e,
        },
{
    match boundary {
        Ok(b) => Ok(UploadRequest { total_size, boundary: b }),
        Err(e) => Err(UploadRejection::BadBoundary(e)),
    }
}

/// The decision on an upload request at `now` and the sessions after it:
/// without a bearer token it is refused and nothing changes; otherwise the
/// token's session is checked (and its use recorded), then the content
/// type's boundary is read.
pub open spec fn upload_check_outcome(
    before: Map<Seq<char>, u64>,
    authorization: Option<Seq<char>>,
    file_size: Option<Seq<u8>>,
    content_type: Option<Seq<char>>,
    now: u64,
    res: Result<UploadRequest, UploadRejection>,
    after: Map<Seq<char>, u64>,
) -> bool {
    match bearer_of(authorization) {
        None => {
            &&& res matches Err(UploadRejection::MissingAuthorization)
            &&& after == before
        },
        Some(tok) => {
            &&& after == sessions_after_validate(before, tok, now)
            &&& if !session_accepts(before, tok, now) {
                res matches Err(UploadRejection::InvalidSession)
            } else {
                match content_type {
                    None => res matches Err(UploadRejection::MissingContentType),
                    Some(ct) => match multer_boundary(ct) {
                        None => res matches Err(UploadRejection::BadBoundary(_)),
                        Some(b) => res matches Ok(r) && r.boundary@ == b && r.total_size
                            == declared_size_of(file_size),
                    },
                }
            }
        },
    }
}

/// Decides on an upload request at `now` from its `Authorization`,
/// `X-File-Size` and `Content-Type` headers: the session is checked first
/// (and its use recorded), then the body's boundary is read.
pub fn check_upload_at(
    state: &mut WebUploadState,
    authorization: Option<&str>,
    file_size: Option<&str>,
    content_type: Option<&str>,
    now: u64,
) -> (res: Result<UploadRequest, UploadRejection>)
    requires
        old(state).wf(),
    ensures
        final(state).wf(),
        final(state).dir() == old(state).dir(),
        final(state).pair() == old(state).pair(),
        upload_check_outcome(
            old(state).sessions(),
            opt_view(authorization),
            opt_bytes(file_size),
            opt_view(content_type),
            now,
            res,
            final(state).sessions(),
        ),
{
    let token = match bearer_token(authorization) {
        Some(t) => t,
        None => {
            return Err(UploadRejection::MissingAuthorization);
        },
    };
    if !state.validate_session_at(token.as_str(), now) {
        return Err(UploadRejection::InvalidSession);
    }
    let total_size = declared_file_size(file_size);
    let ct = match content_type {
        Some(c) => c,
        None => {
            return Err(UploadRejection::MissingContentType);
        },
    };
    upload_request_from(total_size, parse_boundary(ct))
}

/// Decides on an upload request now: the decision and the sessions after it
/// are those of `check_upload_at` at the clock reading the session check
/// took (see `upload_check_outcome`).
pub fn check_upload(
    state: &mut WebUploadState,
    authorization: Option<&str>,
    file_size: Option<&str>,
    content_type: Option<&str>,
) -> (res: Result<UploadRequest, UploadRejection>)
    requires
        old(state).wf(),
    ensures
        final(state).wf(),
        final(state).dir() == old(state).dir(),
        final(state).pair() == old(state).pair(),
        exists|now: u64|
            upload_check_outcome(
                old(state).sessions(),
                opt_view(authorization),
                opt_bytes(file_size),
                opt_view(content_type),
                now,
                res,
                final(state).sessions(),
            ),
{
    let ghost before = old(state).sessions();
    let token = match bearer_token(authorization) {
        Some(t) => t,
        None => {
            let res = Err(UploadRejection::MissingAuthorization);
            assert(upload_check_outcome(
                before,
                opt_view(authorization),
                opt_bytes(file_size),
                opt_view(content_type),
                0,
                res,
                state.sessions(),
            ));
            return res;
        },
    };
    let accepted = state.validate_session(token.as_str());
    let ghost now = choose|now: u64|
        #![trigger session_accepts(before, token@, now)]
        accepted == session_accepts(before, token@, now) && state.sessions()
            == sessions_after_validate(before, token@, now);
    let res = if !accepted {
        Err(UploadRejection::InvalidSession)
    } else {
        let total_size = declared_file_size(file_size);
        match content_type {
            Some(ct) => upload_request_from(total_size, parse_boundary(ct)),
            None => Err(UploadRejection::MissingContentType),
        }
    };
    assert(upload_check_outcome(
        before,
        opt_view(authorization),
        opt_bytes(file_size),
        opt_view(content_type),
        now,
        res,
        state.sessions(),
    ));
    res
}

/// Where an uploaded file goes: its field's file name (or `unknown`) joined
/// onto the save directory without leaving it. Returns the name and the
/// path.
pub fn upload_target(save_dir: &str, field_file_name: Option<&str>) -> (res: Result<
    (String, Vec<PathComponent>),
    UploadRejection,
>)
    ensures
        res matches Ok((n, p)) ==> has_no_dots(parts_of(p@)) && n@ == match field_file_name {
            Some(f) => f@,
            None => UNKNOWN_FILE_NAME@,
        },
        res matches Err(e) ==> e matches UploadRejection::IllegalFileName(n) && n@ == match field_file_name {
            Some(f) => f@,
            None => UNKNOWN_FILE_NAME@,
        },
        safe_join_outcome(
            save_dir@,
            match field_file_name {
                Some(f) => f@,
                None => UNKNOWN_FILE_NAME@,
            },
            match res {
                Ok((_, v)) => Some(parts_of(v@)),
                Err(_) => None,
            },
        ),
{
    let name: &str = match field_file_name {
        Some(f) => f,
        None => UNKNOWN_FILE_NAME,
    };
    match safe_join(save_dir, name) {
        Ok(p) => Ok((name.to_owned(), p)),
        Err(_) => Err(UploadRejection::IllegalFileName(name.to_owned())),
    }
}

} // verus!
