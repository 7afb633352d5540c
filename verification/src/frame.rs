//! Websocket frames as the protocol logic sees them.

use vstd::prelude::*;

verus! {

/// A websocket message.
#[derive(Debug)]
pub enum WsFrame {
    Text(String),
    Binary(Vec<u8>),
    Ping(Vec<u8>),
    Pong(Vec<u8>),
    /// The peer closes the connection.
    Close,
}

pub enum WsFrameView {
    Text(Seq<char>),
    Binary(Seq<u8>),
    Ping(Seq<u8>),
    Pong(Seq<u8>),
    Close,
}

impl View for WsFrame {
    type V = WsFrameView;

    open spec fn view(&self) -> WsFrameView {
        match self {
            WsFrame::Text(t) => WsFrameView::Text(t@),
            WsFrame::Binary(b) => WsFrameView::Binary(b@),
            WsFrame::Ping(b) => WsFrameView::Ping(b@),
            WsFrame::Pong(b) => WsFrameView::Pong(b@),
            WsFrame::Close => WsFrameView::Close,
        }
    }
}

pub open spec fn frame_option_view(o: Option<WsFrame>) -> Option<WsFrameView> {
    match o {
        Some(f) => Some(f@),
        None => None,
    }
}

} // verus!
