//! The backend's websocket endpoint: it greets the client, then closes.

use vstd::prelude::*;

use crate::frame::{WsFrame, WsFrameView};

verus! {

/// The one message the backend sends on a new websocket before closing it.
pub fn welcome() -> (f: WsFrame)
    ensures
        f@ == WsFrameView::Text("welcome"@),
{
    WsFrame::Text("welcome".to_owned())
}

} // verus!
