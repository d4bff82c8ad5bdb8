use std::collections::HashSet;

use desktop_mcp::comp::{Answer, DesktopState, Rect, Surface};
use desktop_mcp::ipc::{Action, Include, Request, SnapshotRequest, WaitParams};
use desktop_mcp::keys::{KeyMapper, Lookup};
use desktop_mcp::snapshot::wants_screenshot;
use desktop_mcp::tracker::{PingOutcome, FROZEN_AFTER};

type Desk = DesktopState<f64>;

fn desk() -> Desk {
    let none = Lookup { exact: 0, folded: 0 };
    let mut d =
        DesktopState::new(1280, 800, 12.5, 8.0, KeyMapper::new(&vec![], none, none));
    d.new_toplevel(Surface::Wayland { client: Some(5) }, 0);
    d.new_toplevel(Surface::X11 { window: 40 }, 0);
    let area = Rect { x: 24, y: 30, width: 640, height: 480 };
    d.observe_window(
        1,
        Surface::Wayland { client: Some(5) },
        Some(area),
        "Editor".to_string(),
        "org.editor".to_string(),
        Some(123),
    );
    d
}

fn ask(detail: Include, screenshots: bool) -> SnapshotRequest {
    SnapshotRequest { detail, screenshots }
}

fn shots() -> Vec<Option<Vec<u8>>> {
    vec![Some(vec![1]), Some(vec![2])]
}

fn set(ids: &[u64]) -> HashSet<u64> {
    ids.iter().copied().collect()
}

#[test]
fn snapshots_list_windows_from_the_top() {
    let d = desk();
    let s = d.build_snapshot(
        &ask(Include::All, true),
        &set(&[]),
        None,
        vec![8],
        false,
        vec!["careful".to_string()],
        shots(),
        0,
    );
    assert_eq!((s.screen_width, s.screen_height), (1280, 800));
    assert_eq!((s.pointer_x, s.pointer_y), (12.5, 8.0));
    assert_eq!(s.focused_window, Some(2));
    assert!(!s.timed_out);
    assert_eq!(s.closed_windows, vec![8]);
    assert_eq!(s.warnings, vec!["careful"]);
    assert_eq!(s.windows.len(), 2);
    let top = &s.windows[0];
    assert_eq!((top.id, top.focused, top.x11), (2, true, true));
    assert_eq!((top.x, top.y, top.width, top.height), (0, 0, 0, 0));
    assert_eq!(top.screenshot_png, Some(vec![2]));
    let bottom = &s.windows[1];
    assert_eq!((bottom.id, bottom.focused, bottom.x11), (1, false, false));
    assert_eq!((bottom.x, bottom.y, bottom.width, bottom.height), (24, 30, 640, 480));
    assert_eq!((bottom.title.as_str(), bottom.app_id.as_str()), ("Editor", "org.editor"));
    assert_eq!(bottom.pid, Some(123));
    assert_eq!(bottom.screenshot_png, Some(vec![1]));
    assert!(!bottom.changed && !bottom.new && !bottom.frozen);
}

#[test]
fn only_windows_in_detail_have_screenshots() {
    let d = desk();
    let known = set(&[1]);
    let s = d.build_snapshot(
        &ask(Include::Changed, true),
        &set(&[]),
        Some(&known),
        vec![],
        true,
        vec![],
        shots(),
        0,
    );
    assert!(s.timed_out);
    assert_eq!(s.windows[0].screenshot_png, Some(vec![2]));
    assert!(s.windows[0].new && s.windows[0].changed);
    assert_eq!(s.windows[1].screenshot_png, None);
    assert!(!s.windows[1].new && !s.windows[1].changed);
}

#[test]
fn detail_goes_without_screenshots() {
    let d = desk();
    let known = set(&[1]);
    let detail = |detail: Include, screenshots: bool| -> Vec<(u64, bool)> {
        let s = d.build_snapshot(
            &ask(detail, screenshots),
            &set(&[]),
            Some(&known),
            vec![],
            false,
            vec![],
            shots(),
            0,
        );
        assert!(screenshots || s.windows.iter().all(|w| w.screenshot_png.is_none()));
        s.windows.iter().map(|w| (w.id, w.detailed)).collect()
    };
    for on in [false, true] {
        assert_eq!(detail(Include::All, on), vec![(2, true), (1, true)]);
        assert_eq!(detail(Include::Changed, on), vec![(2, true), (1, false)]);
        assert_eq!(detail(Include::Windows(vec![1]), on), vec![(2, false), (1, true)]);
    }
}

#[test]
fn an_immediate_answer_reports_no_change() {
    let d = desk();
    let warnings = vec!["careful".to_string()];
    let s = d.answer_now(&ask(Include::All, true), warnings, shots(), 0);
    assert_eq!((s.screen_width, s.screen_height), (1280, 800));
    assert_eq!((s.pointer_x, s.pointer_y), (12.5, 8.0));
    assert_eq!(s.focused_window, Some(2));
    assert!(!s.timed_out);
    assert!(s.closed_windows.is_empty());
    assert_eq!(s.warnings, vec!["careful"]);
    let shown: Vec<_> = s.windows.iter().map(|w| (w.id, w.changed, w.new, w.detailed)).collect();
    assert_eq!(shown, vec![(2, false, false, true), (1, false, false, true)]);
    assert_eq!(s.windows[0].screenshot_png, Some(vec![2]));
    assert_eq!(s.windows[1].screenshot_png, Some(vec![1]));
    let s = d.answer_now(&ask(Include::Changed, true), vec![], shots(), 0);
    assert!(s.windows.iter().all(|w| !w.detailed && w.screenshot_png.is_none()));
}

#[test]
fn a_request_without_a_timeout_is_answered_at_once() {
    let none = Lookup { exact: 0, folded: 0 };
    let mut d: Desk =
        DesktopState::new(1280, 800, 640.0, 400.0, KeyMapper::new(&vec![], none, none));
    let request = Request {
        action: Action::Observe,
        wait: WaitParams { timeout_ms: 0, ..WaitParams::default() },
        snapshot: ask(Include::All, true),
        reply: 1,
    };
    let handled = d.handle_request(request, false, none, 0);
    assert!(d.waits.is_empty());
    assert!(handled.steps.is_empty());
    let s = match handled.answer {
        Answer::Now { snapshot, warnings } => d.answer_now(&snapshot, warnings, vec![], 0),
        _ => panic!("an answer was due"),
    };
    assert_eq!((s.screen_width, s.screen_height), (1280, 800));
    assert_eq!((s.pointer_x, s.pointer_y), (640.0, 400.0));
    assert_eq!(s.focused_window, None);
    assert!(!s.timed_out);
    assert!(s.windows.is_empty() && s.closed_windows.is_empty() && s.warnings.is_empty());
}

#[test]
fn screenshots_are_taken_where_wanted() {
    let changed = set(&[3]);
    let known = set(&[1, 3]);
    let wants = |detail: Include, on: bool, id: u64| {
        wants_screenshot(&ask(detail, on), &changed, Some(&known), id)
    };
    assert!(wants(Include::All, true, 1));
    assert!(!wants(Include::All, false, 1));
    assert!(wants(Include::Changed, true, 3));
    assert!(wants(Include::Changed, true, 9));
    assert!(!wants(Include::Changed, true, 1));
    assert!(wants(Include::Windows(vec![4, 1]), true, 1));
    assert!(!wants(Include::Windows(vec![4]), true, 3));
    assert!(!wants_screenshot(&ask(Include::Changed, true), &changed, None, 9));
}

#[test]
fn frozen_clients_mark_their_windows() {
    let mut d = desk();
    d.note_x11_support(40, true);
    let orders = d.heartbeat();
    d.record_pings(&orders, &vec![PingOutcome::Sent(1), PingOutcome::Sent(1)], 0);
    d.note_x11_pong(40, 1, 5);
    let s = d.build_snapshot(
        &ask(Include::All, false),
        &set(&[]),
        None,
        vec![],
        false,
        vec![],
        shots(),
        FROZEN_AFTER + 1,
    );
    assert!(!s.windows[0].frozen);
    assert!(s.windows[1].frozen);
    assert_eq!(s.windows[1].screenshot_png, None);
}

#[test]
fn finished_waits_report_what_happened() {
    let mut d = desk();
    d.start_wait(
        WaitParams { timeout_ms: 10, ..WaitParams::default() },
        ask(Include::Changed, true),
        3,
        vec!["w".to_string()],
        0,
    );
    d.note_window_activity(1, 1);
    d.toplevel_destroyed(2, 2);
    d.new_toplevel(Surface::Wayland { client: Some(5) }, 3);
    let mut done = d.evaluate_waits(10_000_000);
    let s = d.finish(done.pop().unwrap(), shots(), 10_000_000);
    assert!(s.timed_out);
    assert_eq!(s.closed_windows, vec![2]);
    assert_eq!(s.warnings, vec!["w"]);
    assert_eq!((s.windows[0].id, s.windows[0].new, s.windows[0].changed), (3, true, true));
    assert_eq!((s.windows[1].id, s.windows[1].new, s.windows[1].changed), (1, false, true));
    assert_eq!(s.windows[1].screenshot_png, Some(vec![1]));
}
