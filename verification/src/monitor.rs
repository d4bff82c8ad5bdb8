//! The read-only monitor for humans: the composited desktop and its windows.

use vstd::prelude::*;
use vstd::string::*;

use crate::ipc::{Action, DesktopSnapshot, Include, Request, SnapshotRequest, WaitParams};
use crate::mcp::Reply;
use crate::render::FrameStore;

verus! {

/// The answer to a request of the monitor page.
pub enum Page<T> {
    Found(T),
    /// An HTTP status and a message.
    Error { status: u16, text: String },
}

/// Whether a page is this error.
pub open spec fn is_error<T>(page: Page<T>, status: u16, text: Seq<char>) -> bool {
    page matches Page::Error { status: s, text: t } && s == status && t@ == text
}

/// The latest frame as PNG.
pub fn frame_png(frames: &FrameStore) -> (r: Page<Vec<u8>>)
    ensures
        match frames.image() {
            Some(bytes) => r matches Page::Found(png) && png@ == bytes,
            None => is_error(r, 503, "no frame rendered yet"@),
        },
{
    match frames.png() {
        Some(png) => Page::Found(png),
        None => Page::Error { status: 503, text: "no frame rendered yet".to_owned() },
    }
}

/// The request of the monitor page for the state of the desktop.
pub open spec fn state_call<C>(reply: u64) -> Request<C> {
    Request {
        action: Action::Observe,
        wait: WaitParams {
            timeout_ms: 0,
            watch_window: None,
            expect_new_window: false,
            quiet_time_ms: None,
            require_activity: false,
        },
        snapshot: SnapshotRequest { detail: Include::All, screenshots: false },
        reply,
    }
}

/// Asks for the state of the desktop without touching it.
pub fn state_request<C>(reply: u64) -> (r: Request<C>)
    ensures
        r == state_call::<C>(reply),
{
    Request {
        action: Action::Observe,
        wait: WaitParams {
            timeout_ms: 0,
            watch_window: None,
            expect_new_window: false,
            quiet_time_ms: None,
            require_activity: false,
        },
        snapshot: SnapshotRequest { detail: Include::All, screenshots: false },
        reply,
    }
}

/// The state of the desktop, once the request for it was answered or not.
pub fn state_json<C>(reply: Reply<C>) -> (r: Page<DesktopSnapshot<C>>)
    ensures
        match reply {
            Reply::Settled(snapshot) => r == Page::Found(snapshot),
            Reply::NotSent => is_error(r, 503, "compositor gone"@),
            _ => is_error(r, 500, "snapshot failed"@),
        },
{
    match reply {
        Reply::Settled(snapshot) => Page::Found(snapshot),
        Reply::NotSent => Page::Error { status: 503, text: "compositor gone".to_owned() },
        _ => Page::Error { status: 500, text: "snapshot failed".to_owned() },
    }
}

/// Law: the monitor is read-only: its request does nothing to the desktop and
/// is answered at once.
pub proof fn law_monitor_is_read_only<C>(
    state: crate::comp::DesktopState<C>,
    keyboard_focused: bool,
    found: crate::keys::Lookup,
    reply: u64,
)
    ensures
        ({
            let call = state_call::<C>(reply);
            let v = state.performed(call.action, keyboard_focused, found);
            &&& v.scene == state.scene()
            &&& v.steps.len() == 0
            &&& v.outcome is Ok
            &&& call.wait.timeout_ms == 0
        }),
{
}

/// Law: the monitor asks for all windows without screenshots, at once and
/// without input, and its errors carry their status and their text.
pub proof fn law_monitor_asks_for_all_windows<C, T>(
    reply: u64,
    page: Page<T>,
    status: u16,
    text: Seq<char>,
)
    ensures
        state_call::<C>(reply).action is Observe,
        state_call::<C>(reply).wait.timeout_ms == 0,
        state_call::<C>(reply).wait.watch_window is None,
        !state_call::<C>(reply).wait.expect_new_window,
        state_call::<C>(reply).wait.quiet_time_ms is None,
        !state_call::<C>(reply).wait.require_activity,
        state_call::<C>(reply).snapshot.detail is All,
        !state_call::<C>(reply).snapshot.screenshots,
        state_call::<C>(reply).reply == reply,
        is_error(page, status, text) <==> page is Error && page->status == status && page->text@
            == text,
{
}

} // verus!
