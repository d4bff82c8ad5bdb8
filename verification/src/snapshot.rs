//! Snapshots: the state of the desktop as it is reported to the model.

use std::collections::HashSet;

use vstd::prelude::*;

use crate::comp::{DesktopState, Surface, Window};
use crate::ipc::{DesktopSnapshot, Include, SnapshotRequest, WindowInfo};
use crate::tracker::{Finished, PingKey};

verus! {

broadcast use vstd::std_specs::hash::group_hash_axioms;

/// Whether a window appeared after the given ones were known.
pub open spec fn is_new(known_at_start: Option<Set<u64>>, id: u64) -> bool {
    known_at_start matches Some(known) && !known.contains(id)
}

/// Whether a window is reported in detail.
pub open spec fn detailed(
    detail: Include,
    changed: Set<u64>,
    known_at_start: Option<Set<u64>>,
    id: u64,
) -> bool {
    match detail {
        Include::All => true,
        Include::Changed => changed.contains(id) || is_new(known_at_start, id),
        Include::Windows(ids) => ids@.contains(id),
    }
}

/// The contents of an optional set.
pub open spec fn set_view(known_at_start: Option<&HashSet<u64>>) -> Option<Set<u64>> {
    match known_at_start {
        Some(known) => Some(known@),
        None => None,
    }
}

fn appeared(known_at_start: Option<&HashSet<u64>>, id: u64) -> (r: bool)
    ensures
        r == is_new(set_view(known_at_start), id),
{
    match known_at_start {
        Some(known) => !known.contains(&id),
        None => false,
    }
}

fn lists(listed: &Vec<u64>, id: u64) -> (r: bool)
    ensures
        r == listed@.contains(id),
{
    for i in 0..listed.len()
        invariant
            forall|j: int| 0 <= j < i ==> listed@[j] != id,
    {
        if listed[i] == id {
            assert(listed@[i as int] == id);
            return true;
        }
    }
    false
}

/// Whether a snapshot reports a window in detail.
fn in_detail(
    request: &SnapshotRequest,
    changed: &HashSet<u64>,
    known_at_start: Option<&HashSet<u64>>,
    id: u64,
) -> (r: bool)
    ensures
        r == detailed(request.detail, changed@, set_view(known_at_start), id),
{
    match &request.detail {
        Include::All => true,
        Include::Changed => changed.contains(&id) || appeared(known_at_start, id),
        Include::Windows(ids) => lists(ids, id),
    }
}

/// Whether a snapshot shows a window with a screenshot.
pub fn wants_screenshot(
    request: &SnapshotRequest,
    changed: &HashSet<u64>,
    known_at_start: Option<&HashSet<u64>>,
    id: u64,
) -> (r: bool)
    ensures
        r == (request.screenshots && detailed(
            request.detail,
            changed@,
            set_view(known_at_start),
            id,
        )),
{
    request.screenshots && in_detail(request, changed, known_at_start, id)
}

/// What a snapshot is about.
pub struct Observed {
    pub detail: Include,
    pub screenshots: bool,
    pub changed: Set<u64>,
    pub known_at_start: Option<Set<u64>>,
}

/// What a snapshot is about that was asked for without watching the desktop.
pub open spec fn unwatched(request: SnapshotRequest) -> Observed {
    Observed {
        detail: request.detail,
        screenshots: request.screenshots,
        changed: Set::empty(),
        known_at_start: None,
    }
}

/// The windows of a snapshot: the topmost comes first. `shots` are the
/// screenshots of the windows from the bottom to the top.
pub open spec fn window_infos<C>(
    state: DesktopState<C>,
    observed: Observed,
    shots: Seq<Option<Vec<u8>>>,
    now: u64,
) -> Seq<WindowInfo> {
    let n = state.windows@.len();
    Seq::new(
        n,
        |k: int| state.window_info(state.windows@[n - 1 - k], observed, shots[n - 1 - k], now),
    )
}

impl<C> DesktopState<C> {
    /// Whether the client behind a window is frozen.
    pub open spec fn window_frozen(self, window: Window, now: u64) -> bool {
        match window.surface {
            Surface::Wayland { client: Some(key) } => self.frozen(PingKey::Wayland(key), now),
            Surface::Wayland { client: None } => false,
            Surface::X11 { window: w } => self.frozen(PingKey::X11(w), now),
        }
    }

    /// What is reported of a window.
    pub open spec fn window_info(
        self,
        window: Window,
        observed: Observed,
        shot: Option<Vec<u8>>,
        now: u64,
    ) -> WindowInfo {
        let is_new = is_new(observed.known_at_start, window.id);
        let area = match window.geometry {
            Some(area) => area,
            None => crate::comp::Rect { x: 0, y: 0, width: 0, height: 0 },
        };
        WindowInfo {
            id: window.id,
            title: window.title,
            app_id: window.app_id,
            x: area.x,
            y: area.y,
            width: area.width,
            height: area.height,
            focused: self.focused_window == Some(window.id),
            frozen: self.window_frozen(window, now),
            changed: observed.changed.contains(window.id) || is_new,
            new: is_new,
            x11: window.surface is X11,
            pid: window.pid,
            detailed: detailed(
                observed.detail,
                observed.changed,
                observed.known_at_start,
                window.id,
            ),
            screenshot_png: if observed.screenshots && detailed(
                observed.detail,
                observed.changed,
                observed.known_at_start,
                window.id,
            ) {
                shot
            } else {
                None
            },
        }
    }

    fn is_window_frozen(&self, window: &Window, now: u64) -> (r: bool)
        ensures
            r == self.window_frozen(*window, now),
    {
        match window.surface {
            Surface::Wayland { client: Some(key) } => self.client_frozen(
                PingKey::Wayland(key),
                now,
            ),
            Surface::Wayland { client: None } => false,
            Surface::X11 { window: w } => self.client_frozen(PingKey::X11(w), now),
        }
    }

    fn describe_window(
        &self,
        window: &Window,
        request: &SnapshotRequest,
        changed: &HashSet<u64>,
        known_at_start: Option<&HashSet<u64>>,
        shot: Option<Vec<u8>>,
        now: u64,
    ) -> (r: WindowInfo)
        ensures
            r == self.window_info(
                *window,
                Observed {
                    detail: request.detail,
                    screenshots: request.screenshots,
                    changed: changed@,
                    known_at_start: set_view(known_at_start),
                },
                shot,
                now,
            ),
    {
        let new = appeared(known_at_start, window.id);
        let area = match window.geometry {
            Some(area) => area,
            None => crate::comp::Rect { x: 0, y: 0, width: 0, height: 0 },
        };
        WindowInfo {
            id: window.id,
            title: window.title.clone(),
            app_id: window.app_id.clone(),
            x: area.x,
            y: area.y,
            width: area.width,
            height: area.height,
            focused: match self.focused_window {
                Some(focused) => focused == window.id,
                None => false,
            },
            frozen: self.is_window_frozen(window, now),
            changed: changed.contains(&window.id) || new,
            new,
            x11: match window.surface {
                Surface::X11 { .. } => true,
                Surface::Wayland { .. } => false,
            },
            pid: window.pid,
            detailed: in_detail(request, changed, known_at_start, window.id),
            screenshot_png: if wants_screenshot(request, changed, known_at_start, window.id) {
                shot
            } else {
                None
            },
        }
    }
}

impl<C: Copy> DesktopState<C> {
    /// The state of the desktop. `changed`, `known_at_start` and `closed` tell
    /// what happened since the observation started; `shots` are the
    /// screenshots of the windows from the bottom to the top, of which those
    /// are used that [`wants_screenshot`].
    pub fn build_snapshot(
        &self,
        request: &SnapshotRequest,
        changed: &HashSet<u64>,
        known_at_start: Option<&HashSet<u64>>,
        closed: Vec<u64>,
        timed_out: bool,
        warnings: Vec<String>,
        shots: Vec<Option<Vec<u8>>>,
        now: u64,
    ) -> (r: DesktopSnapshot<C>)
        requires
            shots@.len() == self.windows@.len(),
        ensures
            r == (DesktopSnapshot {
                screen_width: self.screen_width,
                screen_height: self.screen_height,
                pointer_x: self.pointer_x,
                pointer_y: self.pointer_y,
                focused_window: self.focused_window,
                timed_out,
                windows: r.windows,
                closed_windows: closed,
                warnings,
            }),
            r.windows@ == window_infos(
                *self,
                Observed {
                    detail: request.detail,
                    screenshots: request.screenshots,
                    changed: changed@,
                    known_at_start: set_view(known_at_start),
                },
                shots@,
                now,
            ),
    {
        let ghost observed = Observed {
            detail: request.detail,
            screenshots: request.screenshots,
            changed: changed@,
            known_at_start: set_view(known_at_start),
        };
        let ghost all = shots@;
        let n = self.windows.len();
        let mut left = shots;
        let mut infos: Vec<WindowInfo> = Vec::new();
        for k in 0..n
            invariant
                n == self.windows@.len(),
                all.len() == n,
                left@ == all.take(n - k),
                infos@.len() == k,
                observed == (Observed {
                    detail: request.detail,
                    screenshots: request.screenshots,
                    changed: changed@,
                    known_at_start: set_view(known_at_start),
                }),
                forall|j: int|
                    0 <= j < k ==> #[trigger] infos@[j] == self.window_info(
                        self.windows@[n - 1 - j],
                        observed,
                        all[n - 1 - j],
                        now,
                    ),
        {
            let shot = left.pop().unwrap();
            assert(left@ =~= all.take(n - (k + 1)));
            infos.push(
                self.describe_window(
                    &self.windows[n - 1 - k],
                    request,
                    changed,
                    known_at_start,
                    shot,
                    now,
                ),
            );
        }
        assert(infos@ =~= window_infos(*self, observed, all, now));
        DesktopSnapshot {
            screen_width: self.screen_width,
            screen_height: self.screen_height,
            pointer_x: self.pointer_x,
            pointer_y: self.pointer_y,
            focused_window: self.focused_window,
            timed_out,
            windows: infos,
            closed_windows: closed,
            warnings,
        }
    }

    /// The answer to a wait that is over.
    pub fn finish(&self, done: Finished, shots: Vec<Option<Vec<u8>>>, now: u64) -> (r:
        DesktopSnapshot<C>)
        requires
            shots@.len() == self.windows@.len(),
        ensures
            r == (DesktopSnapshot {
                screen_width: self.screen_width,
                screen_height: self.screen_height,
                pointer_x: self.pointer_x,
                pointer_y: self.pointer_y,
                focused_window: self.focused_window,
                timed_out: done.timed_out,
                windows: r.windows,
                closed_windows: done.wait.closed,
                warnings: done.wait.warnings,
            }),
            r.windows@ == window_infos(
                *self,
                Observed {
                    detail: done.wait.snapshot.detail,
                    screenshots: done.wait.snapshot.screenshots,
                    changed: done.wait.changed@,
                    known_at_start: Some(done.wait.known_at_start@),
                },
                shots@,
                now,
            ),
    {
        let wait = done.wait;
        self.build_snapshot(
            &wait.snapshot,
            &wait.changed,
            Some(&wait.known_at_start),
            wait.closed,
            done.timed_out,
            wait.warnings,
            shots,
            now,
        )
    }

    /// The answer to a request that does not wait: nothing has changed,
    /// appeared or closed, and nothing timed out.
    pub fn answer_now(
        &self,
        request: &SnapshotRequest,
        warnings: Vec<String>,
        shots: Vec<Option<Vec<u8>>>,
        now: u64,
    ) -> (r: DesktopSnapshot<C>)
        requires
            shots@.len() == self.windows@.len(),
        ensures
            r == (DesktopSnapshot {
                screen_width: self.screen_width,
                screen_height: self.screen_height,
                pointer_x: self.pointer_x,
                pointer_y: self.pointer_y,
                focused_window: self.focused_window,
                timed_out: false,
                windows: r.windows,
                closed_windows: r.closed_windows,
                warnings,
            }),
            r.closed_windows@.len() == 0,
            r.windows@ == window_infos(*self, unwatched(*request), shots@, now),
    {
        let changed: HashSet<u64> = HashSet::new();
        assert(changed@ =~= Set::<u64>::empty());
        self.build_snapshot(request, &changed, None, Vec::new(), false, warnings, shots, now)
    }
}

/// Law: an answer that did not wait reports no window as changed or new. In a
/// snapshot of changes it then shows none in detail.
pub proof fn law_immediate_answer_reports_no_change<C>(
    state: DesktopState<C>,
    request: SnapshotRequest,
    shots: Seq<Option<Vec<u8>>>,
    now: u64,
    k: int,
)
    requires
        0 <= k < state.windows@.len(),
    ensures
        ({
            let info = window_infos(state, unwatched(request), shots, now)[k];
            &&& !info.changed
            &&& !info.new
            &&& request.detail is Changed ==> !info.detailed && info.screenshot_png is None
        }),
{
}

/// Law: a snapshot lists every window once, the topmost first.
pub proof fn law_snapshot_lists_every_window<C>(
    state: DesktopState<C>,
    observed: Observed,
    shots: Seq<Option<Vec<u8>>>,
    now: u64,
)
    ensures
        window_infos(state, observed, shots, now).map_values(|i: WindowInfo| i.id)
            == state.windows@.map_values(|w: Window| w.id).reverse(),
{
    assert(window_infos(state, observed, shots, now).map_values(|i: WindowInfo| i.id)
        =~= state.windows@.map_values(|w: Window| w.id).reverse());
}

/// Law: exactly the focused window is reported as focused.
pub proof fn law_focused_window_is_reported<C>(
    state: DesktopState<C>,
    observed: Observed,
    shots: Seq<Option<Vec<u8>>>,
    now: u64,
)
    requires
        state.wf(),
    ensures
        match state.focused_window {
            Some(id) => exists|k: int|
                0 <= k < state.windows@.len() && (#[trigger] window_infos(
                    state,
                    observed,
                    shots,
                    now,
                )[k]).focused && window_infos(state, observed, shots, now)[k].id == id,
            None => true,
        },
        forall|k: int|
            0 <= k < state.windows@.len() && (#[trigger] window_infos(
                state,
                observed,
                shots,
                now,
            )[k]).focused ==> state.focused_window == Some(
                window_infos(state, observed, shots, now)[k].id,
            ),
{
    let infos = window_infos(state, observed, shots, now);
    let n = state.windows@.len();
    if let Some(id) = state.focused_window {
        let i = choose|i: int| 0 <= i < n && (#[trigger] state.windows@[i]).id == id;
        assert(infos[n - 1 - i].focused && infos[n - 1 - i].id == id);
    }
}

/// Law: no screenshot is shown unless screenshots are asked for. A snapshot of
/// changes then shows those of exactly the windows that changed or appeared,
/// and a snapshot of everything shows all.
pub proof fn law_screenshots_only_where_asked<C>(
    state: DesktopState<C>,
    observed: Observed,
    shots: Seq<Option<Vec<u8>>>,
    now: u64,
    k: int,
)
    requires
        0 <= k < state.windows@.len(),
    ensures
        ({
            let info = window_infos(state, observed, shots, now)[k];
            &&& !observed.screenshots ==> info.screenshot_png is None
            &&& observed.detail is Changed && !info.changed ==> info.screenshot_png is None
            &&& observed.detail is Changed && info.changed && observed.screenshots
                ==> info.screenshot_png == shots[state.windows@.len() - 1 - k]
            &&& observed.detail is All && observed.screenshots ==> info.screenshot_png
                == shots[state.windows@.len() - 1 - k]
        }),
{
}

/// Law: which windows are reported in detail goes by what was asked for, with
/// or without screenshots: all windows, the listed ones, or those that changed
/// or appeared.
pub proof fn law_detail_goes_without_screenshots<C>(
    state: DesktopState<C>,
    observed: Observed,
    shots: Seq<Option<Vec<u8>>>,
    now: u64,
    k: int,
)
    requires
        0 <= k < state.windows@.len(),
    ensures
        ({
            let info = window_infos(state, observed, shots, now)[k];
            &&& info.detailed == match observed.detail {
                Include::All => true,
                Include::Changed => info.changed,
                Include::Windows(ids) => ids@.contains(info.id),
            }
            &&& info.screenshot_png is Some ==> info.detailed
        }),
{
}

/// Law: a snapshot reports every window as it is: its names, place, process
/// and kind, whether it has the focus, whether it changed or appeared since the
/// observation started, and whether its client has left a ping unanswered for
/// more than ten seconds. The window at place `k` is the k-th from the top.
pub proof fn law_windows_are_reported_as_they_are<C>(
    state: DesktopState<C>,
    observed: Observed,
    shots: Seq<Option<Vec<u8>>>,
    now: u64,
    k: int,
)
    requires
        0 <= k < state.windows@.len(),
    ensures
        window_infos(state, observed, shots, now).len() == state.windows@.len(),
        ({
            let w = state.windows@[state.windows@.len() - 1 - k];
            let info = window_infos(state, observed, shots, now)[k];
            let pings = state.ping_states@;
            let appeared = observed.known_at_start is Some
                && !observed.known_at_start->Some_0.contains(w.id);
            &&& info.id == w.id
            &&& info.title == w.title
            &&& info.app_id == w.app_id
            &&& info.pid == w.pid
            &&& info.x11 <==> w.surface is X11
            &&& w.geometry is Some ==> {
                &&& info.x == w.geometry->Some_0.x
                &&& info.y == w.geometry->Some_0.y
                &&& info.width == w.geometry->Some_0.width
                &&& info.height == w.geometry->Some_0.height
            }
            &&& w.geometry is None ==> {
                &&& info.x == 0
                &&& info.y == 0
                &&& info.width == 0
                &&& info.height == 0
            }
            &&& info.focused <==> state.focused_window == Some(w.id)
            &&& info.new <==> appeared
            &&& info.changed <==> appeared || observed.changed.contains(w.id)
            &&& info.frozen <==> match w.surface {
                Surface::Wayland { client } => {
                    &&& client is Some
                    &&& pings.contains_key(PingKey::Wayland(client->Some_0))
                    &&& pings[PingKey::Wayland(client->Some_0)].outstanding is Some
                    &&& pings[PingKey::Wayland(client->Some_0)].outstanding->Some_0.1
                        + 10_000_000_000 < now
                },
                Surface::X11 { window } => {
                    &&& pings.contains_key(PingKey::X11(window))
                    &&& pings[PingKey::X11(window)].outstanding is Some
                    &&& pings[PingKey::X11(window)].outstanding->Some_0.1 + 10_000_000_000 < now
                },
            }
        }),
{
}

/// Law: a window shows exactly the screenshot that was taken of it if
/// screenshots are asked for and the window is reported in detail, be it as one
/// of all, as a changed or new one, or as one of those that are listed; any
/// other window shows none.
pub proof fn law_detailed_windows_show_their_screenshot<C>(
    state: DesktopState<C>,
    observed: Observed,
    shots: Seq<Option<Vec<u8>>>,
    now: u64,
    k: int,
)
    requires
        0 <= k < state.windows@.len(),
    ensures
        ({
            let n = state.windows@.len();
            let w = state.windows@[n - 1 - k];
            let info = window_infos(state, observed, shots, now)[k];
            let in_detail = match observed.detail {
                Include::All => true,
                Include::Changed => observed.changed.contains(w.id) || (
                observed.known_at_start is Some && !observed.known_at_start->Some_0.contains(
                    w.id,
                )),
                Include::Windows(ids) => exists|j: int|
                    0 <= j < ids@.len() && #[trigger] ids@[j] == w.id,
            };
            &&& info.detailed == in_detail
            &&& in_detail && observed.screenshots ==> info.screenshot_png == shots[n - 1 - k]
            &&& !(in_detail && observed.screenshots) ==> info.screenshot_png is None
            &&& detailed(observed.detail, observed.changed, observed.known_at_start, w.id)
                == in_detail
        }),
{
    let n = state.windows@.len();
    let w = state.windows@[n - 1 - k];
    if let Include::Windows(ids) = observed.detail {
        if ids@.contains(w.id) {
            let j = choose|j: int| 0 <= j < ids@.len() && ids@[j] == w.id;
            assert(ids@[j] == w.id);
        }
    }
}

/// Law: whether a window is reported in detail is asked of any id: all are, or
/// those that changed or are new, or those that are listed.
pub proof fn law_detail_is_for_those_that_are_meant(
    detail: Include,
    changed: Set<u64>,
    known: Set<u64>,
    id: u64,
)
    ensures
        detail is All ==> detailed(detail, changed, None, id) && detailed(
            detail,
            changed,
            Some(known),
            id,
        ),
        detail is Changed ==> {
            &&& detailed(detail, changed, None, id) == changed.contains(id)
            &&& detailed(detail, changed, Some(known), id) == (changed.contains(id)
                || !known.contains(id))
        },
        detail matches Include::Windows(ids) ==> {
            &&& detailed(detail, changed, None, id) == ids@.contains(id)
            &&& detailed(detail, changed, Some(known), id) == ids@.contains(id)
        },
        !is_new(None, id),
        is_new(Some(known), id) == !known.contains(id),
{
}

/// Law: what is known at the start of an observation is handed on as it is, and
/// without an observation nothing is known and nothing has changed.
pub proof fn law_observations_are_handed_on(known: &HashSet<u64>, request: SnapshotRequest)
    ensures
        set_view(Some(known)) == Some(known@),
        set_view(None) is None,
        unwatched(request).detail == request.detail,
        unwatched(request).screenshots == request.screenshots,
        unwatched(request).changed == Set::<u64>::empty(),
        unwatched(request).known_at_start is None,
{
}

} // verus!
