use webssh::backend::api::{
    accept_hostkey, create_session, handler_404, health_status, list_encodings, AcceptHostKeyRequest,
    CreateSessionRequest,
};
use webssh::backend::errors::{ApiError, AppErrorKind};
use webssh::backend::ws::welcome;
use webssh::frame::WsFrame;
use webssh::webssh::http as web;
use webssh::webssh::ssh::SshSessionHandle;

fn is_v4(id: u128) -> bool {
    (id >> 76) & 0xf == 4 && (id >> 62) & 0x3 == 2
}

#[test]
fn health_is_ok() {
    assert_eq!(health_status(), "ok");
}

#[test]
fn backend_create_session() {
    let req = CreateSessionRequest { host: "h".to_string(), port: Some(22), username: None };
    let (status, resp) = create_session(&req);
    assert_eq!(status, 201);
    assert_eq!(resp.id, "sess_stub_1");
    assert_eq!(resp.message.as_deref(), Some("session created (stub)"));
}

#[test]
fn backend_accept_hostkey() {
    let req = AcceptHostKeyRequest { accept: true, fingerprint: None };
    assert_eq!(accept_hostkey("sess_stub_1", &req), 204);
}

#[test]
fn backend_encodings() {
    assert_eq!(
        list_encodings().encodings,
        vec!["utf-8", "gbk", "gb2312", "big5", "shift_jis", "euc-jp", "iso-8859-1"]
    );
}

#[test]
fn not_found_error() {
    let e = handler_404();
    assert_eq!(e.status, 404);
    assert_eq!(e.message, "not found");
    assert!(!e.is_server_error());
    assert_eq!(e.payload().error, "not found");
}

#[test]
fn api_error_constructors() {
    let e = ApiError::new(400, "bad");
    assert_eq!(e.status, 400);
    assert_eq!(e.message, "bad");
    assert!(!e.is_server_error());
    let e = ApiError::internal("boom");
    assert_eq!(e.status, 500);
    assert_eq!(e.message, "boom");
    assert!(e.is_server_error());
    assert!(ApiError::new(503, "x").is_server_error());
    assert!(!ApiError::new(499, "x").is_server_error());
}

#[test]
fn app_error_kind_messages() {
    assert_eq!(AppErrorKind::BadRequest("x".into()).to_string(), "bad request: x");
    assert_eq!(AppErrorKind::NotFound("y".into()).to_string(), "not found: y");
    assert_eq!(AppErrorKind::Internal("z".into()).to_string(), "internal error: z");
}

#[test]
fn backend_welcome() {
    assert!(matches!(welcome(), WsFrame::Text(t) if t == "welcome"));
}

#[test]
fn webssh_create_session_gives_random_ids() {
    let req = web::CreateSessionRequest { host: None, port: None, username: None, password: None };
    let a = web::create_session(&req);
    let b = web::create_session(&req);
    assert!(!a.hostkey_required);
    assert!(is_v4(a.id));
    assert!(is_v4(b.id));
    assert_ne!(a.id, b.id);
}

#[test]
fn webssh_accept_and_encodings() {
    assert!(web::accept_hostkey(42).accepted);
    assert_eq!(web::list_encodings(), vec!["utf-8", "utf-16", "iso-8859-1", "windows-1252"]);
}

#[test]
fn ssh_handle_has_random_id() {
    let h = SshSessionHandle::new();
    assert!(is_v4(h.id));
    assert_ne!(h.id, SshSessionHandle::new().id);
}

#[test]
fn webssh_session_answer_carries_the_drawn_id() {
    let with_password =
        web::CreateSessionRequest { host: Some("h".into()), port: Some(22), username: None, password: Some("pw".into()) };
    let empty = web::CreateSessionRequest { host: None, port: None, username: None, password: None };
    let id: u128 = 0x1234_5678_9abc_4def_8123_4567_89ab_cdef;
    let a = web::create_session_with_id(&with_password, id);
    let b = web::create_session_with_id(&empty, id);
    assert_eq!(a.id, id);
    assert_eq!(b.id, id);
    assert!(!a.hostkey_required && !b.hostkey_required);
    assert_eq!(SshSessionHandle::from_id(id).id, id);
}
