use webssh::frame::WsFrame;
use webssh::webssh::ws::{echo_step, greeting, reversed, EchoAction, EchoEvent, EchoSession};

fn text(s: &str) -> WsFrame {
    WsFrame::Text(s.to_string())
}

#[test]
fn greeting_text() {
    assert!(matches!(greeting(), WsFrame::Text(t) if t == "connected (echo server stub)"));
}

#[test]
fn ping_text_gets_pong() {
    let s = echo_step(text("ping"));
    assert!(matches!(s.reply, Some(WsFrame::Text(t)) if t == "pong"));
    assert!(!s.close);
}

#[test]
fn other_text_is_echoed() {
    let s = echo_step(text("hello"));
    assert!(matches!(s.reply, Some(WsFrame::Text(t)) if t == "echo: hello"));
    let s = echo_step(text("Ping"));
    assert!(matches!(s.reply, Some(WsFrame::Text(t)) if t == "echo: Ping"));
    let s = echo_step(text(""));
    assert!(matches!(s.reply, Some(WsFrame::Text(t)) if t == "echo: "));
}

#[test]
fn binary_is_reversed_and_twice_is_identity() {
    let s = echo_step(WsFrame::Binary(vec![1, 2, 3]));
    let r = match s.reply {
        Some(WsFrame::Binary(b)) => b,
        _ => panic!("expected binary"),
    };
    assert_eq!(r, vec![3, 2, 1]);
    let s2 = echo_step(WsFrame::Binary(r));
    assert!(matches!(s2.reply, Some(WsFrame::Binary(b)) if b == vec![1, 2, 3]));
    assert_eq!(reversed(&vec![]), Vec::<u8>::new());
}

#[test]
fn ping_frame_gets_pong_with_payload() {
    let s = echo_step(WsFrame::Ping(vec![9, 8]));
    assert!(matches!(s.reply, Some(WsFrame::Pong(v)) if v == vec![9, 8]));
    assert!(!s.close);
}

#[test]
fn pong_is_ignored_and_close_ends() {
    let s = echo_step(WsFrame::Pong(vec![1]));
    assert!(s.reply.is_none());
    assert!(!s.close);
    let s = echo_step(WsFrame::Close);
    assert!(s.reply.is_none());
    assert!(s.close);
}

fn is_text(a: &EchoAction, want: &str) -> bool {
    matches!(a, EchoAction::Send(WsFrame::Text(t)) if t == want)
}

#[test]
fn echo_session_runs_until_close() {
    let (mut s, hello) = EchoSession::start();
    assert!(matches!(hello, WsFrame::Text(t) if t == "connected (echo server stub)"));
    assert!(matches!(s.step(EchoEvent::Greeted(true)), EchoAction::Read));
    assert!(is_text(&s.step(EchoEvent::Frame(text("ping"))), "pong"));
    assert!(matches!(s.step(EchoEvent::ReplySent(true)), EchoAction::PauseThenRead));
    assert!(is_text(&s.step(EchoEvent::Frame(text("hi"))), "echo: hi"));
    // A failed reply send is ignored.
    assert!(matches!(s.step(EchoEvent::ReplySent(false)), EchoAction::PauseThenRead));
    assert!(matches!(s.step(EchoEvent::Frame(WsFrame::Pong(vec![1]))), EchoAction::PauseThenRead));
    assert!(matches!(
        s.step(EchoEvent::Frame(WsFrame::Binary(vec![1, 2]))),
        EchoAction::Send(WsFrame::Binary(b)) if b == vec![2, 1]
    ));
    assert!(matches!(s.step(EchoEvent::ReplySent(true)), EchoAction::PauseThenRead));
    assert!(matches!(s.step(EchoEvent::Frame(WsFrame::Close)), EchoAction::Stop));
    assert!(matches!(s.step(EchoEvent::Frame(text("late"))), EchoAction::Stop));
}

#[test]
fn echo_session_stops_on_failed_greeting_error_or_end() {
    let (mut s, _) = EchoSession::start();
    assert!(matches!(s.step(EchoEvent::Greeted(false)), EchoAction::Stop));

    let (mut s, _) = EchoSession::start();
    s.step(EchoEvent::Greeted(true));
    assert!(matches!(s.step(EchoEvent::StreamError), EchoAction::Stop));

    let (mut s, _) = EchoSession::start();
    s.step(EchoEvent::Greeted(true));
    assert!(matches!(s.step(EchoEvent::StreamEnd), EchoAction::Stop));
}
