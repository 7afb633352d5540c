//! What the web terminal's HTTP API answers.

use vstd::prelude::*;

use crate::webssh::ssh::{is_random_uuid, new_random_uuid};

verus! {

/// Shared state of the routes (none yet).
#[derive(Clone, Copy, Debug, Default)]
pub struct AppState;

/// Body of `POST /api/session`.
#[derive(Debug)]
pub struct CreateSessionRequest {
    pub host: Option<String>,
    pub port: Option<u16>,
    pub username: Option<String>,
    pub password: Option<String>,
}

/// Answer of `POST /api/session`: the new session's UUID (as a 128-bit
/// value) and whether its host key must be confirmed.
#[derive(Debug)]
pub struct CreateSessionResponse {
    pub id: u128,
    pub hostkey_required: bool,
}

/// Answer of `POST /api/session/:id/accept-hostkey`.
#[derive(Debug)]
pub struct AcceptHostKeyResponse {
    pub accepted: bool,
}

/// `POST /api/session`: a new session with a fresh random UUID, whose host
/// key need not be confirmed.
pub fn create_session(payload: &CreateSessionRequest) -> (r: CreateSessionResponse)
    ensures
        is_random_uuid(r.id),
        !r.hostkey_required,
{
    let id = new_random_uuid();
    create_session_with_id(payload, id)
}

/// The answer to `POST /api/session` once the session's UUID is drawn: it
/// carries exactly that id, whatever the request holds, and needs no host
/// key confirmation.
pub fn create_session_with_id(payload: &CreateSessionRequest, id: u128) -> (r: CreateSessionResponse)
    ensures
        r.id == id,
        !r.hostkey_required,
{
    CreateSessionResponse { id, hostkey_required: false }
}

/// `POST /api/session/:id/accept-hostkey`: the host key is accepted.
pub fn accept_hostkey(id: u128) -> (r: AcceptHostKeyResponse)
    ensures
        r.accepted,
{
    AcceptHostKeyResponse { accepted: true }
}

/// The character encodings that sessions offer, in this order.
pub open spec fn webssh_encodings() -> Seq<Seq<char>> {
    seq!["utf-8"@, "utf-16"@, "iso-8859-1"@, "windows-1252"@]
}

/// `GET /api/encodings`.
pub fn list_encodings() -> (v: Vec<&'static str>)
    ensures
        v.deep_view() == webssh_encodings(),
{
    let mut v: Vec<&'static str> = Vec::new();
    v.push("utf-8");
    v.push("utf-16");
    v.push("iso-8859-1");
    v.push("windows-1252");
    assert(v.deep_view() =~= webssh_encodings());
    v
}

} // verus!
