//! The websocket echo protocol: the server greets, then answers each frame
//! until the client closes.

use vstd::prelude::*;

use crate::frame::{frame_option_view, WsFrame, WsFrameView};
use crate::text::str_equals;

verus! {

/// The reply to a frame: text `ping` gets `pong`, other text is echoed
/// after `echo: `, binary data comes back reversed, a ping gets a pong with
/// the same payload; pongs and closes get no reply.
pub open spec fn echo_reply(f: WsFrameView) -> Option<WsFrameView> {
    match f {
        WsFrameView::Text(t) => if t == "ping"@ {
            Some(WsFrameView::Text("pong"@))
        } else {
            Some(WsFrameView::Text("echo: "@ + t))
        },
        WsFrameView::Binary(b) => Some(WsFrameView::Binary(b.reverse())),
        WsFrameView::Ping(v) => Some(WsFrameView::Pong(v)),
        WsFrameView::Pong(_) => None,
        WsFrameView::Close => None,
    }
}

/// What the server does with one received frame.
#[derive(Debug)]
pub struct EchoStep {
    /// The frame to send back, if any.
    pub reply: Option<WsFrame>,
    /// Whether the session ends.
    pub close: bool,
}

/// The frame the server sends first.
pub fn greeting() -> (f: WsFrame)
    ensures
        f@ == WsFrameView::Text("connected (echo server stub)"@),
{
    WsFrame::Text("connected (echo server stub)".to_owned())
}

/// `b` in reverse order.
pub fn reversed(b: &Vec<u8>) -> (r: Vec<u8>)
    ensures
        r@ == b@.reverse(),
{
    let n = b.len();
    let mut r: Vec<u8> = Vec::new();
    let mut i: usize = 0;
    while i < n
        invariant
            i <= n,
            n == b@.len(),
            r@.len() == i,
            forall|j: int| 0 <= j < i ==> r@[j] == b@[n - 1 - j],
        decreases n - i,
    {
        r.push(b[n - 1 - i]);
        i += 1;
    }
    assert(r@ =~= b@.reverse());
    r
}

/// Answers one frame received from the client.
pub fn echo_step(frame: WsFrame) -> (s: EchoStep)
    ensures
        frame_option_view(s.reply) == echo_reply(frame@),
        s.close == (frame@ is Close),
{
    match frame {
        WsFrame::Text(t) => {
            if str_equals(t.as_str(), "ping") {
                EchoStep { reply: Some(WsFrame::Text("pong".to_owned())), close: false }
            } else {
                let mut r = "echo: ".to_owned();
                r.append(t.as_str());
                EchoStep { reply: Some(WsFrame::Text(r)), close: false }
            }
        },
        WsFrame::Binary(b) => {
            EchoStep { reply: Some(WsFrame::Binary(reversed(&b))), close: false }
        },
        WsFrame::Ping(v) => EchoStep { reply: Some(WsFrame::Pong(v)), close: false },
        WsFrame::Pong(_) => EchoStep { reply: None, close: false },
        WsFrame::Close => EchoStep { reply: None, close: true },
    }
}

/// Echoing the echo of binary data gives back the data.
pub proof fn lemma_binary_echo_involution(b: Seq<u8>)
    ensures
        echo_reply(WsFrameView::Binary(b)) == Some(WsFrameView::Binary(b.reverse())),
        echo_reply(WsFrameView::Binary(b.reverse())) == Some(WsFrameView::Binary(b)),
{
    assert(b.reverse().reverse() =~= b);
}

/// A ping is answered by a pong that carries the same payload.
pub proof fn lemma_ping_gets_pong(v: Seq<u8>)
    ensures
        echo_reply(WsFrameView::Ping(v)) == Some(WsFrameView::Pong(v)),
{
}

/// The frames sent in reply to one received frame: none or one.
pub open spec fn reply_frames(f: WsFrameView) -> Seq<WsFrameView> {
    match echo_reply(f) {
        Some(r) => seq![r],
        None => seq![],
    }
}

/// The replies to a stream of received frames, in order, up to the first
/// close, which ends the session: nothing after it is answered.
pub open spec fn replies_until_close(ms: Seq<WsFrameView>) -> Seq<WsFrameView>
    decreases ms.len(),
{
    if ms.len() == 0 {
        seq![]
    } else if ms[0] is Close {
        seq![]
    } else {
        reply_frames(ms[0]) + replies_until_close(ms.drop_first())
    }
}

/// The first frame of every session.
pub open spec fn greeting_frame() -> WsFrameView {
    WsFrameView::Text("connected (echo server stub)"@)
}

/// Everything the server sends over a session in which it receives `ms`:
/// the greeting, then the reply to each frame up to the first close.
pub open spec fn echo_session_sends(ms: Seq<WsFrameView>) -> Seq<WsFrameView> {
    seq![greeting_frame()] + replies_until_close(ms)
}

/// No frame of `ms` is a close.
pub open spec fn no_close(ms: Seq<WsFrameView>) -> bool {
    forall|i: int| 0 <= i < ms.len() ==> !(#[trigger] ms[i] is Close)
}

proof fn lemma_replies_step(ms: Seq<WsFrameView>, m: WsFrameView)
    requires
        no_close(ms),
    ensures
        replies_until_close(ms.push(m)) == replies_until_close(ms) + reply_frames(m),
    decreases ms.len(),
{
    if ms.len() == 0 {
        let e = Seq::<WsFrameView>::empty();
        assert(ms.push(m).drop_first() =~= e);
        assert(replies_until_close(e) == e);
        assert(reply_frames(m) + e =~= reply_frames(m));
        assert(e + reply_frames(m) =~= reply_frames(m));
    } else {
        assert(!(ms[0] is Close));
        let d = ms.drop_first();
        assert(no_close(d)) by {
            assert forall|i: int| 0 <= i < d.len() implies !(#[trigger] d[i] is Close) by {
                assert(d[i] == ms[i + 1]);
            }
        }
        lemma_replies_step(d, m);
        assert(ms.push(m).drop_first() =~= d.push(m));
        assert(ms.push(m)[0] == ms[0]);
        assert(reply_frames(ms[0]) + (replies_until_close(d) + reply_frames(m)) =~= reply_frames(
            ms[0],
        ) + replies_until_close(d) + reply_frames(m));
    }
}

proof fn lemma_replies_after_close(ms: Seq<WsFrameView>, rest: Seq<WsFrameView>)
    requires
        no_close(ms),
    ensures
        replies_until_close(ms.push(WsFrameView::Close) + rest) == replies_until_close(ms),
    decreases ms.len(),
{
    let s = ms.push(WsFrameView::Close) + rest;
    if ms.len() == 0 {
        assert(s[0] == WsFrameView::Close);
    } else {
        assert(!(ms[0] is Close));
        let d = ms.drop_first();
        assert(no_close(d)) by {
            assert forall|i: int| 0 <= i < d.len() implies !(#[trigger] d[i] is Close) by {
                assert(d[i] == ms[i + 1]);
            }
        }
        lemma_replies_after_close(d, rest);
        assert(s.drop_first() =~= d.push(WsFrameView::Close) + rest);
        assert(s[0] == ms[0]);
    }
}

/// The sends of a session grow, frame by frame, by the replies of
/// `echo_step`: receiving `m` after frames without a close adds the reply
/// to `m`; once a close is received, nothing received later changes what
/// is sent.
pub proof fn lemma_echo_session_step(ms: Seq<WsFrameView>, m: WsFrameView, rest: Seq<WsFrameView>)
    requires
        no_close(ms),
    ensures
        echo_session_sends(ms.push(m)) == echo_session_sends(ms) + reply_frames(m),
        echo_session_sends(ms.push(WsFrameView::Close) + rest) == echo_session_sends(ms),
{
    lemma_replies_step(ms, m);
    lemma_replies_after_close(ms, rest);
    assert(seq![greeting_frame()] + (replies_until_close(ms) + reply_frames(m)) =~= seq![
        greeting_frame(),
    ] + replies_until_close(ms) + reply_frames(m));
}

/// Where an echo session stands.
#[derive(PartialEq, Eq, Structural, Clone, Copy, Debug)]
pub enum Phase {
    /// The greeting is being sent.
    Greeting,
    /// The next frame is awaited.
    Reading,
    /// A reply is being sent.
    Replying,
    /// The session is over.
    Stopped,
}

/// What happens on the socket of an echo session.
#[derive(Debug)]
pub enum EchoEvent {
    /// The greeting was sent (`true`) or could not be sent (`false`).
    Greeted(bool),
    /// A frame was received.
    Frame(WsFrame),
    /// A reply was sent (`true`) or could not be sent (`false`).
    ReplySent(bool),
    /// Reading the next frame failed.
    StreamError,
    /// The client's stream ended.
    StreamEnd,
}

pub enum EchoEventView {
    Greeted(bool),
    Frame(WsFrameView),
    ReplySent(bool),
    StreamError,
    StreamEnd,
}

impl View for EchoEvent {
    type V = EchoEventView;

    open spec fn view(&self) -> EchoEventView {
        match self {
            EchoEvent::Greeted(ok) => EchoEventView::Greeted(*ok),
            EchoEvent::Frame(f) => EchoEventView::Frame(f@),
            EchoEvent::ReplySent(ok) => EchoEventView::ReplySent(*ok),
            EchoEvent::StreamError => EchoEventView::StreamError,
            EchoEvent::StreamEnd => EchoEventView::StreamEnd,
        }
    }
}

/// What the socket loop does next.
#[derive(Debug)]
pub enum EchoAction {
    /// Send this frame.
    Send(WsFrame),
    /// Read the next frame.
    Read,
    /// Wait a moment (a short back-off), then read the next frame.
    PauseThenRead,
    /// End the session.
    Stop,
}

pub enum EchoActionView {
    Send(WsFrameView),
    Read,
    PauseThenRead,
    Stop,
}

impl View for EchoAction {
    type V = EchoActionView;

    open spec fn view(&self) -> EchoActionView {
        match self {
            EchoAction::Send(f) => EchoActionView::Send(f@),
            EchoAction::Read => EchoActionView::Read,
            EchoAction::PauseThenRead => EchoActionView::PauseThenRead,
            EchoAction::Stop => EchoActionView::Stop,
        }
    }
}

/// The next phase and action of an echo session:
/// - once the greeting is sent, read; if it could not be sent, stop;
/// - on a close frame, stop; on another frame, send its reply if it has one,
///   else back off and read;
/// - once a reply is sent, or could not be sent (which is ignored), back off
///   and read;
/// - on a stream error or the stream's end, stop;
/// - any event that cannot occur in the phase ends the session.
pub open spec fn echo_next(phase: Phase, ev: EchoEventView) -> (Phase, EchoActionView) {
    match (phase, ev) {
        (Phase::Greeting, EchoEventView::Greeted(ok)) => if ok {
            (Phase::Reading, EchoActionView::Read)
        } else {
            (Phase::Stopped, EchoActionView::Stop)
        },
        (Phase::Reading, EchoEventView::Frame(f)) => if f is Close {
            (Phase::Stopped, EchoActionView::Stop)
        } else {
            match echo_reply(f) {
                Some(r) => (Phase::Replying, EchoActionView::Send(r)),
                None => (Phase::Reading, EchoActionView::PauseThenRead),
            }
        },
        (Phase::Replying, EchoEventView::ReplySent(_)) => (
            Phase::Reading,
            EchoActionView::PauseThenRead,
        ),
        (Phase::Reading, EchoEventView::StreamError) => (Phase::Stopped, EchoActionView::Stop),
        (Phase::Reading, EchoEventView::StreamEnd) => (Phase::Stopped, EchoActionView::Stop),
        _ => (Phase::Stopped, EchoActionView::Stop),
    }
}

/// The actions of a session in `phase` over a sequence of events.
pub open spec fn echo_run(phase: Phase, evs: Seq<EchoEventView>) -> Seq<EchoActionView>
    decreases evs.len(),
{
    if evs.len() == 0 {
        seq![]
    } else {
        let (p, a) = echo_next(phase, evs[0]);
        seq![a] + echo_run(p, evs.drop_first())
    }
}

/// The events of one received frame that is not a close: the frame, then,
/// where it has a reply, the outcome `ok` of sending it.
pub open spec fn frame_events(m: WsFrameView, ok: bool) -> Seq<EchoEventView> {
    if echo_reply(m) is Some {
        seq![EchoEventView::Frame(m), EchoEventView::ReplySent(ok)]
    } else {
        seq![EchoEventView::Frame(m)]
    }
}

/// The events of received frames `ms`, with `oks[i]` the outcome of sending
/// the reply to `ms[i]`.
pub open spec fn frames_events(ms: Seq<WsFrameView>, oks: Seq<bool>) -> Seq<EchoEventView>
    decreases ms.len(),
{
    if ms.len() == 0 {
        seq![]
    } else {
        frame_events(ms[0], oks[0]) + frames_events(ms.drop_first(), oks.drop_first())
    }
}

/// The actions for one received frame that is not a close: send its reply,
/// if it has one, then back off and read.
pub open spec fn frame_actions(m: WsFrameView) -> Seq<EchoActionView> {
    match echo_reply(m) {
        Some(r) => seq![EchoActionView::Send(r), EchoActionView::PauseThenRead],
        None => seq![EchoActionView::PauseThenRead],
    }
}

pub open spec fn frames_actions(ms: Seq<WsFrameView>) -> Seq<EchoActionView>
    decreases ms.len(),
{
    if ms.len() == 0 {
        seq![]
    } else {
        frame_actions(ms[0]) + frames_actions(ms.drop_first())
    }
}

/// The frames that a sequence of actions sends, in order.
pub open spec fn sent_frames(acts: Seq<EchoActionView>) -> Seq<WsFrameView>
    decreases acts.len(),
{
    if acts.len() == 0 {
        seq![]
    } else {
        let rest = sent_frames(acts.drop_first());
        match acts[0] {
            EchoActionView::Send(f) => seq![f] + rest,
            _ => rest,
        }
    }
}

/// An event that ends the reading of the stream: a close frame, a read
/// error, or the stream's end.
pub open spec fn ends_stream(ev: EchoEventView) -> bool {
    ||| ev is StreamError
    ||| ev is StreamEnd
    ||| (ev matches EchoEventView::Frame(f) && f is Close)
}

proof fn lemma_sent_frames_cons(a: EchoActionView, rest: Seq<EchoActionView>)
    ensures
        sent_frames(seq![a] + rest) == (match a {
            EchoActionView::Send(f) => seq![f],
            _ => Seq::<WsFrameView>::empty(),
        }) + sent_frames(rest),
{
    let s = seq![a] + rest;
    assert(s[0] == a);
    assert(s.drop_first() =~= rest);
    match a {
        EchoActionView::Send(f) => {},
        _ => {
            assert(Seq::<WsFrameView>::empty() + sent_frames(rest) =~= sent_frames(rest));
        },
    }
}

proof fn lemma_sent_frames_empty()
    ensures
        sent_frames(Seq::<EchoActionView>::empty()) == Seq::<WsFrameView>::empty(),
{
}

proof fn lemma_run_concat_frame(m: WsFrameView, ok: bool, rest: Seq<EchoEventView>)
    requires
        !(m is Close),
    ensures
        echo_run(Phase::Reading, frame_events(m, ok) + rest) == frame_actions(m) + echo_run(
            Phase::Reading,
            rest,
        ),
{
    let evs = frame_events(m, ok) + rest;
    assert(evs[0] == EchoEventView::Frame(m));
    match echo_reply(m) {
        Some(r) => {
            let d = evs.drop_first();
            assert(d[0] == EchoEventView::ReplySent(ok));
            assert(d.drop_first() =~= rest);
            assert(echo_run(Phase::Replying, d) == seq![EchoActionView::PauseThenRead] + echo_run(
                Phase::Reading,
                rest,
            ));
            assert(seq![EchoActionView::Send(r)] + (seq![EchoActionView::PauseThenRead] + echo_run(
                Phase::Reading,
                rest,
            )) =~= frame_actions(m) + echo_run(Phase::Reading, rest));
        },
        None => {
            assert(evs.drop_first() =~= rest);
        },
    }
}

/// Over a whole stream: after the greeting, a session that receives the
/// frames `ms` (none a close), sending each reply with outcome `oks[i]`,
/// then meets `last` (a close, a read error or the stream's end) sends each
/// reply right after its frame and before the next read, backs off and
/// reads after each frame, and stops at `last`, reading nothing more.
pub proof fn lemma_echo_stream(ms: Seq<WsFrameView>, oks: Seq<bool>, last: EchoEventView)
    requires
        no_close(ms),
        oks.len() == ms.len(),
        ends_stream(last),
    ensures
        echo_run(Phase::Reading, frames_events(ms, oks).push(last)) == frames_actions(ms).push(
            EchoActionView::Stop,
        ),
    decreases ms.len(),
{
    if ms.len() == 0 {
        let evs = frames_events(ms, oks).push(last);
        assert(evs =~= seq![last]);
        assert(evs[0] == last);
        assert(evs.drop_first() =~= Seq::<EchoEventView>::empty());
        assert(echo_next(Phase::Reading, last).1 == EchoActionView::Stop);
        assert(echo_run(Phase::Stopped, Seq::<EchoEventView>::empty()) == Seq::<EchoActionView>::empty());
        assert(echo_run(Phase::Reading, evs) == seq![EchoActionView::Stop] + Seq::<EchoActionView>::empty());
        assert(frames_actions(ms) == Seq::<EchoActionView>::empty());
        assert(frames_actions(ms).push(EchoActionView::Stop) =~= seq![EchoActionView::Stop]);
    } else {
        let d = ms.drop_first();
        assert(no_close(d)) by {
            assert forall|i: int| 0 <= i < d.len() implies !(#[trigger] d[i] is Close) by {
                assert(d[i] == ms[i + 1]);
            }
        }
        assert(!(ms[0] is Close));
        lemma_echo_stream(d, oks.drop_first(), last);
        let tail = frames_events(d, oks.drop_first()).push(last);
        assert(frames_events(ms, oks).push(last) =~= frame_events(ms[0], oks[0]) + tail);
        lemma_run_concat_frame(ms[0], oks[0], tail);
        assert(frame_actions(ms[0]) + frames_actions(d).push(EchoActionView::Stop)
            =~= frames_actions(ms).push(EchoActionView::Stop));
    }
}

proof fn lemma_sent_frames_concat(a: Seq<EchoActionView>, b: Seq<EchoActionView>)
    ensures
        sent_frames(a + b) == sent_frames(a) + sent_frames(b),
    decreases a.len(),
{
    if a.len() == 0 {
        assert(a + b =~= b);
        assert(sent_frames(a) + sent_frames(b) =~= sent_frames(b));
    } else {
        lemma_sent_frames_concat(a.drop_first(), b);
        assert((a + b).drop_first() =~= a.drop_first() + b);
        assert((a + b)[0] == a[0]);
        match a[0] {
            EchoActionView::Send(f) => {
                assert(seq![f] + (sent_frames(a.drop_first()) + sent_frames(b)) =~= seq![f]
                    + sent_frames(a.drop_first()) + sent_frames(b));
            },
            _ => {},
        }
    }
}

proof fn lemma_sent_frames_of_frames(ms: Seq<WsFrameView>)
    requires
        no_close(ms),
    ensures
        sent_frames(frames_actions(ms)) == replies_until_close(ms),
    decreases ms.len(),
{
    if ms.len() > 0 {
        let d = ms.drop_first();
        assert(no_close(d)) by {
            assert forall|i: int| 0 <= i < d.len() implies !(#[trigger] d[i] is Close) by {
                assert(d[i] == ms[i + 1]);
            }
        }
        assert(!(ms[0] is Close));
        lemma_sent_frames_of_frames(d);
        lemma_sent_frames_concat(frame_actions(ms[0]), frames_actions(d));
        let fa = frame_actions(ms[0]);
        match echo_reply(ms[0]) {
            Some(r) => {
                let e = Seq::<EchoActionView>::empty();
                lemma_sent_frames_empty();
                lemma_sent_frames_cons(EchoActionView::PauseThenRead, e);
                assert(seq![EchoActionView::PauseThenRead] + e =~= seq![EchoActionView::PauseThenRead]);
                lemma_sent_frames_cons(EchoActionView::Send(r), seq![EchoActionView::PauseThenRead]);
                assert(fa =~= seq![EchoActionView::Send(r)] + seq![EchoActionView::PauseThenRead]);
                assert(sent_frames(fa) =~= seq![r]);
            },
            None => {
                let e = Seq::<EchoActionView>::empty();
                lemma_sent_frames_empty();
                lemma_sent_frames_cons(EchoActionView::PauseThenRead, e);
                assert(fa =~= seq![EchoActionView::PauseThenRead] + e);
                assert(sent_frames(fa) =~= Seq::<WsFrameView>::empty());
            },
        }
        assert(sent_frames(fa) == reply_frames(ms[0]));
    }
}

/// Over a whole session whose greeting is sent: the frames sent are the
/// greeting, then the reply to each received frame up to the first close,
/// read error or stream end.
pub proof fn lemma_echo_session_sends(ms: Seq<WsFrameView>, oks: Seq<bool>, last: EchoEventView)
    requires
        no_close(ms),
        oks.len() == ms.len(),
        ends_stream(last),
    ensures
        sent_frames(
            seq![EchoActionView::Send(greeting_frame())] + echo_run(
                Phase::Greeting,
                seq![EchoEventView::Greeted(true)] + frames_events(ms, oks).push(last),
            ),
        ) == echo_session_sends(ms),
{
    let evs = seq![EchoEventView::Greeted(true)] + frames_events(ms, oks).push(last);
    assert(evs[0] == EchoEventView::Greeted(true));
    assert(evs.drop_first() =~= frames_events(ms, oks).push(last));
    lemma_echo_stream(ms, oks, last);
    let acts = seq![EchoActionView::Send(greeting_frame()), EchoActionView::Read] + frames_actions(
        ms,
    ).push(EchoActionView::Stop);
    assert(seq![EchoActionView::Send(greeting_frame())] + echo_run(Phase::Greeting, evs) =~= acts);
    let head = seq![EchoActionView::Send(greeting_frame()), EchoActionView::Read];
    lemma_sent_frames_concat(head, frames_actions(ms).push(EchoActionView::Stop));
    lemma_sent_frames_concat(frames_actions(ms), seq![EchoActionView::Stop]);
    assert(frames_actions(ms).push(EchoActionView::Stop) =~= frames_actions(ms) + seq![
        EchoActionView::Stop,
    ]);
    let st = seq![EchoActionView::Stop];
    let e = Seq::<EchoActionView>::empty();
    lemma_sent_frames_empty();
    lemma_sent_frames_cons(EchoActionView::Stop, e);
    assert(st =~= seq![EchoActionView::Stop] + e);
    assert(sent_frames(st) =~= Seq::<WsFrameView>::empty());
    lemma_sent_frames_cons(EchoActionView::Read, e);
    assert(seq![EchoActionView::Read] =~= seq![EchoActionView::Read] + e);
    lemma_sent_frames_cons(EchoActionView::Send(greeting_frame()), seq![EchoActionView::Read]);
    assert(head =~= seq![EchoActionView::Send(greeting_frame())] + seq![EchoActionView::Read]);
    assert(sent_frames(head) =~= seq![greeting_frame()]);
    lemma_sent_frames_of_frames(ms);
    assert(sent_frames(frames_actions(ms)) + Seq::<WsFrameView>::empty() =~= replies_until_close(
        ms,
    ));
}

/// An echo session: the state machine of one websocket connection.
pub struct EchoSession {
    phase: Phase,
}

impl View for EchoSession {
    type V = Phase;

    closed spec fn view(&self) -> Phase {
        self.phase
    }
}

impl EchoSession {
    /// Opens a session: the greeting to send first, and a session waiting
    /// for the outcome of that send.
    pub fn start() -> (r: (EchoSession, WsFrame))
        ensures
            r.0@ == Phase::Greeting,
            r.1@ == greeting_frame(),
    {
        (EchoSession { phase: Phase::Greeting }, greeting())
    }

    /// Takes one event and gives the next action, as `echo_next` says.
    pub fn step(&mut self, event: EchoEvent) -> (a: EchoAction)
        ensures
            (final(self)@, a@) == echo_next(old(self)@, event@),
    {
        match (self.phase, event) {
            (Phase::Greeting, EchoEvent::Greeted(ok)) => {
                if ok {
                    self.phase = Phase::Reading;
                    EchoAction::Read
                } else {
                    self.phase = Phase::Stopped;
                    EchoAction::Stop
                }
            },
            (Phase::Reading, EchoEvent::Frame(f)) => {
                let step = echo_step(f);
                if step.close {
                    self.phase = Phase::Stopped;
                    EchoAction::Stop
                } else {
                    match step.reply {
                        Some(r) => {
                            self.phase = Phase::Replying;
                            EchoAction::Send(r)
                        },
                        None => EchoAction::PauseThenRead,
                    }
                }
            },
            (Phase::Replying, EchoEvent::ReplySent(_)) => {
                self.phase = Phase::Reading;
                EchoAction::PauseThenRead
            },
            (Phase::Reading, EchoEvent::StreamError) => {
                self.phase = Phase::Stopped;
                EchoAction::Stop
            },
            (Phase::Reading, EchoEvent::StreamEnd) => {
                self.phase = Phase::Stopped;
                EchoAction::Stop
            },
            _ => {
                self.phase = Phase::Stopped;
                EchoAction::Stop
            },
        }
    }
}

/// A text frame gets `pong` exactly when its text is `ping`; any other text
/// `t` (such as `ping google.com`) comes back as `echo: ` followed by `t`.
pub proof fn lemma_text_reply(t: Seq<char>)
    ensures
        t == seq!['p', 'i', 'n', 'g'] ==> echo_reply(WsFrameView::Text(t)) == Some(
            WsFrameView::Text(seq!['p', 'o', 'n', 'g']),
        ),
        t != seq!['p', 'i', 'n', 'g'] ==> echo_reply(WsFrameView::Text(t)) == Some(
            WsFrameView::Text(seq!['e', 'c', 'h', 'o', ':', ' '] + t),
        ),
{
    reveal_strlit("ping");
    reveal_strlit("pong");
    reveal_strlit("echo: ");
    assert("ping"@ =~= seq!['p', 'i', 'n', 'g']);
    assert("pong"@ =~= seq!['p', 'o', 'n', 'g']);
    assert("echo: "@ =~= seq!['e', 'c', 'h', 'o', ':', ' ']);
}

/// The reply to binary data holds the same bytes in reverse order: byte `i`
/// of the reply is byte `n - 1 - i` of the data.
pub proof fn lemma_binary_reply_reversed(b: Seq<u8>)
    ensures
        echo_reply(WsFrameView::Binary(b)) matches Some(WsFrameView::Binary(r)) && r.len() == b.len()
            && forall|i: int| 0 <= i < b.len() ==> r[i] == b[b.len() - 1 - i],
{
}

/// Pongs and closes get no reply.
pub proof fn lemma_no_reply_to_pong_or_close(v: Seq<u8>)
    ensures
        echo_reply(WsFrameView::Pong(v)) is None,
        echo_reply(WsFrameView::Close) is None,
{
}

/// Once a session is stopped it stays stopped: whatever happens later, it
/// sends nothing and reads nothing more.
pub proof fn lemma_stopped_stays_stopped(evs: Seq<EchoEventView>)
    ensures
        forall|i: int| 0 <= i < evs.len() ==> #[trigger] echo_run(Phase::Stopped, evs)[i]
            == EchoActionView::Stop,
        echo_run(Phase::Stopped, evs).len() == evs.len(),
    decreases evs.len(),
{
    if evs.len() > 0 {
        lemma_stopped_stays_stopped(evs.drop_first());
        let r = echo_run(Phase::Stopped, evs);
        assert(r == seq![EchoActionView::Stop] + echo_run(Phase::Stopped, evs.drop_first()));
        assert forall|i: int| 0 <= i < evs.len() implies #[trigger] r[i] == EchoActionView::Stop by {
            if i > 0 {
                assert(r[i] == echo_run(Phase::Stopped, evs.drop_first())[i - 1]);
            }
        }
    }
}

/// A session whose greeting cannot be sent stops at once and does nothing
/// more, whatever follows.
pub proof fn lemma_failed_greeting_stops(evs: Seq<EchoEventView>)
    ensures
        forall|i: int|
            0 <= i < evs.len() + 1 ==> #[trigger] echo_run(
                Phase::Greeting,
                seq![EchoEventView::Greeted(false)] + evs,
            )[i] == EchoActionView::Stop,
{
    let all = seq![EchoEventView::Greeted(false)] + evs;
    assert(all[0] == EchoEventView::Greeted(false));
    assert(all.drop_first() =~= evs);
    lemma_stopped_stays_stopped(evs);
    let r = echo_run(Phase::Greeting, all);
    assert(r == seq![EchoActionView::Stop] + echo_run(Phase::Stopped, evs));
    assert forall|i: int| 0 <= i < evs.len() + 1 implies #[trigger] r[i] == EchoActionView::Stop by {
        if i > 0 {
            assert(r[i] == echo_run(Phase::Stopped, evs)[i - 1]);
        }
    }
}

} // verus!
