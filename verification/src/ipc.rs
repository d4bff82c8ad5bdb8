//! Types exchanged between the tool layer and the compositor.
//!
//! Pointer coordinates are of a caller-chosen type `C`: the library carries
//! them and decides what they are relative to, but does no arithmetic on them.

use vstd::prelude::*;

verus! {

#[derive(Debug, Clone, Copy, PartialEq, Eq, Structural)]
pub enum MouseButton {
    Left,
    Middle,
    Right,
}

impl MouseButton {
    /// The Linux evdev code of the button: `BTN_LEFT`, `BTN_RIGHT` and
    /// `BTN_MIDDLE` are numbered in that order from 0x110.
    pub open spec fn evdev_code(self) -> u32 {
        match self {
            MouseButton::Left => 0x110,
            MouseButton::Right => 0x111,
            MouseButton::Middle => 0x112,
        }
    }

    /// Linux evdev button code, as used by wl_pointer.
    pub fn code(self) -> (r: u32)
        ensures
            r == self.evdev_code(),
    {
        match self {
            MouseButton::Left => 0x110,
            MouseButton::Right => 0x111,
            MouseButton::Middle => 0x112,
        }
    }
}

/// An input action to inject before observing the UI.
#[derive(Clone)]
pub enum Action<C> {
    /// No input; just observe.
    Observe,
    MouseMove { x: C, y: C, window: Option<u64> },
    /// press = down+up (optionally twice for double click)
    Click { button: MouseButton, x: Option<C>, y: Option<C>, window: Option<u64>, double: bool },
    MouseDown { button: MouseButton, x: Option<C>, y: Option<C>, window: Option<u64> },
    MouseUp { button: MouseButton, x: Option<C>, y: Option<C>, window: Option<u64> },
    Scroll { dx: C, dy: C, x: Option<C>, y: Option<C>, window: Option<u64> },
    TypeText { text: String },
    /// e.g. "Return", "ctrl+shift+t", "F5"
    Key { combo: String, repeat: u32 },
    FocusWindow { id: u64 },
    CloseWindow { id: u64 },
    ResizeWindow { id: u64, width: i32, height: i32 },
}

/// How long/whether to wait for the UI to settle after the action.
#[derive(Debug, Clone, Copy, PartialEq, Eq, Structural)]
pub struct WaitParams {
    /// Overall convergence timeout. 0 = don't wait at all.
    pub timeout_ms: u64,
    /// Only track changes on this window (and newly created windows).
    pub watch_window: Option<u64>,
    /// Don't consider the transition complete until at least one new window
    /// appeared.
    pub expect_new_window: bool,
    /// Settle by time instead of by ping rounds: the UI counts as settled
    /// once this many milliseconds passed without an update.
    pub quiet_time_ms: Option<u64>,
    /// Don't finish before at least one update was observed.
    pub require_activity: bool,
}

impl Default for WaitParams {
    fn default() -> (r: Self)
        ensures
            r == (WaitParams {
                timeout_ms: 3000,
                watch_window: None,
                expect_new_window: false,
                quiet_time_ms: None,
                require_activity: false,
            }),
    {
        WaitParams {
            timeout_ms: 3000,
            watch_window: None,
            expect_new_window: false,
            quiet_time_ms: None,
            require_activity: false,
        }
    }
}

/// Which windows should be reported in detail (screenshot + accessibility).
#[derive(Debug, Clone)]
pub enum Include {
    /// Windows that changed during the wait (plus new windows).
    Changed,
    All,
    Windows(Vec<u64>),
}

#[derive(Debug, Clone)]
pub struct SnapshotRequest {
    pub detail: Include,
    pub screenshots: bool,
}

/// A tool call as it reaches the compositor.
pub struct Request<C> {
    pub action: Action<C>,
    pub wait: WaitParams,
    pub snapshot: SnapshotRequest,
    /// Names the channel on which the caller waits for the answer.
    pub reply: u64,
}

/// Per-window state reported back to the model.
#[derive(Debug, Clone)]
pub struct WindowInfo {
    pub id: u64,
    pub title: String,
    pub app_id: String,
    /// Window geometry on the virtual desktop, in pixels.
    pub x: i32,
    pub y: i32,
    pub width: i32,
    pub height: i32,
    pub focused: bool,
    /// Client did not answer ping requests for >10s.
    pub frozen: bool,
    /// Window committed updates during the observed transition.
    pub changed: bool,
    /// Window appeared during the observed transition.
    pub new: bool,
    /// Window of an X11 application.
    pub x11: bool,
    pub pid: Option<i32>,
    /// Window is reported in detail: with accessibility metadata and, where
    /// screenshots are asked for, with a screenshot.
    pub detailed: bool,
    /// PNG-encoded screenshot; emitted separately as image content.
    pub screenshot_png: Option<Vec<u8>>,
}

#[derive(Debug, Clone)]
pub struct DesktopSnapshot<C> {
    pub screen_width: i32,
    pub screen_height: i32,
    pub pointer_x: C,
    pub pointer_y: C,
    pub focused_window: Option<u64>,
    /// True if the transition did not converge before the timeout.
    pub timed_out: bool,
    /// The topmost window comes first.
    pub windows: Vec<WindowInfo>,
    /// Windows destroyed during the observed transition (their old ids).
    pub closed_windows: Vec<u64>,
    pub warnings: Vec<String>,
}

} // verus!
