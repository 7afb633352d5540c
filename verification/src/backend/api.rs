//! What the backend's HTTP routes answer: health, sessions, host keys,
//! encodings, unknown paths, and the CORS policy of the configuration.

use vstd::prelude::*;

use crate::backend::config::{default_allow_origins, Config};
use crate::backend::errors::ApiError;
use crate::backend::security::{backend_cors, cors_from_allowlist, lemma_star_allows_any};
use crate::cors::{CorsPolicy, OriginRuleView};
use crate::text::{kept_items, list_items, split_pieces, trim, trim_end, trim_start};

verus! {

/// The CORS policy of a configuration: the one `cors_from_allowlist` gives
/// for its origin allowlist. An entry stands for every origin when it is `*`
/// or `any` in any ASCII case; no other characters have `a`, `n` or `y` as
/// their lowercase form, so an entry whose lowercase form is `any` is
/// exactly such an entry.
pub fn build_cors(config: &Config) -> (p: CorsPolicy)
    ensures
        p@ == backend_cors(config.allow_origins.deep_view()),
{
    cors_from_allowlist(config.allow_origins.as_slice())
}

/// The status that `GET /health` reports.
pub fn health_status() -> (s: &'static str)
    ensures
        s@ == "ok"@,
{
    "ok"
}

/// Body of `POST /api/session`.
#[derive(Debug)]
pub struct CreateSessionRequest {
    pub host: String,
    pub port: Option<u16>,
    pub username: Option<String>,
}

/// Answer of `POST /api/session`.
#[derive(Debug)]
pub struct CreateSessionResponse {
    pub id: String,
    pub message: Option<String>,
}

pub const STATUS_CREATED: u16 = 201;

pub const STATUS_NO_CONTENT: u16 = 204;

pub const STATUS_NOT_FOUND: u16 = 404;

/// `POST /api/session`: a new session, answered with status 201.
pub fn create_session(req: &CreateSessionRequest) -> (r: (u16, CreateSessionResponse))
    ensures
        r.0 == STATUS_CREATED,
        r.1.id@ == "sess_stub_1"@,
        r.1.message matches Some(m) && m@ == "session created (stub)"@,
{
    let resp = CreateSessionResponse {
        id: "sess_stub_1".to_owned(),
        message: Some("session created (stub)".to_owned()),
    };
    (STATUS_CREATED, resp)
}

/// Body of `POST /api/session/:id/accept-hostkey`.
#[derive(Debug)]
pub struct AcceptHostKeyRequest {
    pub accept: bool,
    pub fingerprint: Option<String>,
}

/// `POST /api/session/:id/accept-hostkey`: accepted, with status 204 and no
/// body.
pub fn accept_hostkey(id: &str, req: &AcceptHostKeyRequest) -> (status: u16)
    ensures
        status == STATUS_NO_CONTENT,
{
    STATUS_NO_CONTENT
}

/// Answer of `GET /api/encodings`.
#[derive(Debug)]
pub struct EncodingsResponse {
    pub encodings: Vec<&'static str>,
}

/// The character encodings that sessions offer, in this order.
pub open spec fn backend_encodings() -> Seq<Seq<char>> {
    seq!["utf-8"@, "gbk"@, "gb2312"@, "big5"@, "shift_jis"@, "euc-jp"@, "iso-8859-1"@]
}

/// `GET /api/encodings`.
pub fn list_encodings() -> (r: EncodingsResponse)
    ensures
        r.encodings.deep_view() == backend_encodings(),
{
    let mut v: Vec<&'static str> = Vec::new();
    v.push("utf-8");
    v.push("gbk");
    v.push("gb2312");
    v.push("big5");
    v.push("shift_jis");
    v.push("euc-jp");
    v.push("iso-8859-1");
    assert(v.deep_view() =~= backend_encodings());
    EncodingsResponse { encodings: v }
}

/// The error that answers a path no route matches: 404, "not found".
pub fn handler_404() -> (e: ApiError)
    ensures
        e.status == STATUS_NOT_FOUND,
        e.message@ == "not found"@,
{
    ApiError::new(STATUS_NOT_FOUND, "not found")
}

/// Where `APP_ALLOW_ORIGINS` is unset, the backend allows every origin.
pub proof fn lemma_unset_allowlist_allows_any()
    ensures
        backend_cors(list_items(default_allow_origins(), false)).origins == OriginRuleView::Any,
{
    let s = default_allow_origins();
    let e = Seq::<char>::empty();
    assert(s.drop_last() =~= e);
    assert(split_pieces(e, false) =~= seq![e]);
    assert(split_pieces(s, false) =~= seq![seq!['*']]);
    let pieces = split_pieces(s, false);
    assert(pieces.drop_last() =~= Seq::<Seq<char>>::empty());
    assert(trim_start(seq!['*']) == seq!['*']);
    assert(trim_end(seq!['*']) == seq!['*']);
    assert(pieces.last() == seq!['*']);
    assert(trim(seq!['*']) == seq!['*']);
    assert(kept_items(Seq::<Seq<char>>::empty()) == Seq::<Seq<char>>::empty());
    assert(kept_items(pieces) == Seq::<Seq<char>>::empty().push(seq!['*']));
    assert(kept_items(pieces) =~= seq![seq!['*']]);
    lemma_star_allows_any(list_items(s, false));
}

} // verus!
