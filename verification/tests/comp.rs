use desktop_mcp::comp::{
    physical_size, tap_key, Aim, Answer, DesktopState, KeyEvent, Rect, Step, Surface,
};
use desktop_mcp::ipc::{Action, Include, MouseButton, Request, SnapshotRequest, WaitParams};
use desktop_mcp::keys::{KeyMapper, KeyPress, KeyRow, Lookup};

type Desk = DesktopState<f64>;

const RETURN: u32 = 0xff0d;

fn row(keycode: u32, plain: u32, shifted: u32) -> KeyRow {
    KeyRow { keycode, plain: vec![plain], shifted: vec![shifted] }
}

fn nothing() -> Lookup {
    Lookup { exact: 0, folded: 0 }
}

fn desk() -> Desk {
    let rows = vec![row(28, 0x74, 0x54), row(36, RETURN, RETURN), row(38, 0x61, 0x41)];
    let found = Lookup { exact: RETURN, folded: RETURN };
    DesktopState::new(1280, 800, 640.0, 400.0, KeyMapper::new(&rows, found, nothing()))
}

fn wayland(client: u64) -> Surface {
    Surface::Wayland { client: Some(client) }
}

/// A desktop with windows 1, 2 and 3; window 3 is on top and focused.
fn three() -> Desk {
    let mut d = desk();
    for client in 1..=3 {
        d.new_toplevel(wayland(client), 0);
    }
    let area = Rect { x: 100, y: 50, width: 300, height: 200 };
    assert!(d.observe_window(2, wayland(2), Some(area), "two".into(), "app".into(), Some(9)));
    d
}

fn order(d: &Desk) -> Vec<u64> {
    d.windows.iter().map(|w| w.id).collect()
}

fn request(action: Action<f64>, timeout_ms: u64) -> Request<f64> {
    Request {
        action,
        wait: WaitParams { timeout_ms, ..WaitParams::default() },
        snapshot: SnapshotRequest { detail: Include::Changed, screenshots: true },
        reply: 77,
    }
}

fn down(code: u32) -> Step<f64> {
    Step::Button { code, pressed: true }
}

fn up(code: u32) -> Step<f64> {
    Step::Button { code, pressed: false }
}

fn key(keycode: u32, pressed: bool) -> Step<f64> {
    Step::Key { event: KeyEvent { keycode, pressed } }
}

fn tap(keycode: u32, shift: bool, times: u32) -> Step<f64> {
    Step::Taps { press: KeyPress { keycode, shift }, times }
}

#[test]
fn button_codes_are_those_of_evdev() {
    assert_eq!(MouseButton::Left.code(), 0x110);
    assert_eq!(MouseButton::Right.code(), 0x111);
    assert_eq!(MouseButton::Middle.code(), 0x112);
}

#[test]
fn new_windows_are_cascaded_and_focused() {
    let mut d = desk();
    let (id, steps) = d.new_toplevel(wayland(5), 0);
    assert_eq!(id, 1);
    assert_eq!(
        steps,
        vec![
            Step::Place { id: 1, x: 24, y: 24 },
            Step::Raise { id: 1 },
            Step::Activate { id: 1, active: true },
            Step::KeyboardFocus { id: 1 },
        ]
    );
    let (id, steps) = d.new_toplevel(Surface::X11 { window: 99 }, 0);
    assert_eq!(id, 2);
    assert_eq!(steps[0], Step::Place { id: 2, x: 56, y: 56 });
    assert_eq!(steps[2], Step::Activate { id: 1, active: false });
    assert_eq!(steps[3], Step::Activate { id: 2, active: true });
    assert_eq!(d.focused_window, Some(2));
    for n in 2..17u64 {
        let (_, steps) = d.new_toplevel(wayland(n), 0);
        let offset = 24 + 32 * (n as i32 % 16);
        assert_eq!(steps[0], Step::Place { id: n + 1, x: offset, y: offset });
    }
}

#[test]
fn window_ids_are_never_reused() {
    let mut d = three();
    d.toplevel_destroyed(3, 0);
    let (id, _) = d.new_toplevel(wayland(3), 0);
    assert_eq!(id, 4);
}

#[test]
fn focusing_raises_a_window() {
    let mut d = three();
    let steps = d.focus_window_by_id(1).unwrap();
    assert_eq!(order(&d), vec![2, 3, 1]);
    assert_eq!(d.focused_window, Some(1));
    assert_eq!(
        steps,
        vec![
            Step::Raise { id: 1 },
            Step::Activate { id: 2, active: false },
            Step::Activate { id: 3, active: false },
            Step::Activate { id: 1, active: true },
            Step::KeyboardFocus { id: 1 },
        ]
    );
    assert_eq!(d.focus_window_by_id(8).unwrap_err(), "no window with id 8");
    assert_eq!(order(&d), vec![2, 3, 1]);
}

#[test]
fn closing_the_focused_window_focuses_the_topmost() {
    let mut d = three();
    let steps = d.toplevel_destroyed(3, 0);
    assert_eq!(order(&d), vec![1, 2]);
    assert_eq!(d.focused_window, Some(2));
    assert_eq!(steps[0], Step::Remove { id: 3 });
    assert_eq!(steps[1], Step::Raise { id: 2 });
    let steps = d.toplevel_destroyed(1, 0);
    assert_eq!(steps, vec![Step::Remove { id: 1 }]);
    assert_eq!(d.focused_window, Some(2));
    d.toplevel_destroyed(2, 0);
    assert_eq!(d.focused_window, None);
    assert!(d.toplevel_destroyed(2, 0).is_empty());
}

#[test]
fn focus_follows_the_display_server() {
    let mut d = three();
    d.focus_changed(Some(1));
    assert_eq!(d.focused_window, Some(1));
    d.focus_changed(Some(12));
    assert_eq!(d.focused_window, None);
    d.focus_changed(None);
    assert_eq!(d.focused_window, None);
    d.pointer_motion(3.0, 4.0);
    assert_eq!((d.pointer_x, d.pointer_y), (3.0, 4.0));
    assert!(!d.observe_window(12, wayland(1), None, String::new(), String::new(), None));
}

#[test]
fn points_are_global_or_relative_to_a_window() {
    let d = three();
    assert_eq!(d.resolve_point(Some(1.0), Some(2.0), None), Ok(Aim::At { x: 1.0, y: 2.0 }));
    assert_eq!(
        d.resolve_point(Some(1.0), Some(2.0), Some(2)),
        Ok(Aim::Within { left: 100, top: 50, x: 1.0, y: 2.0 })
    );
    assert_eq!(d.resolve_point(Some(1.0), None, Some(2)), Ok(Aim::At { x: 640.0, y: 400.0 }));
    assert_eq!(
        d.resolve_point(Some(1.0), Some(2.0), Some(9)),
        Err("no window with id 9".to_string())
    );
    assert_eq!(
        d.resolve_point(Some(1.0), Some(2.0), Some(1)),
        Err("window 1 is not mapped".to_string())
    );
}

#[test]
fn optional_points_default_to_the_window_centre() {
    let d = three();
    assert_eq!(d.optional_point(None, None, None), Ok(None));
    let area = Rect { x: 100, y: 50, width: 300, height: 200 };
    assert_eq!(d.optional_point(None, None, Some(2)), Ok(Some(Aim::Center { area })));
    assert_eq!(
        d.optional_point(None, Some(5.0), Some(2)),
        Ok(Some(Aim::At { x: 640.0, y: 400.0 }))
    );
    assert_eq!(
        d.optional_point(None, None, Some(3)),
        Err("window 3 is not mapped".to_string())
    );
}

#[test]
fn clicks_move_focus_and_press() {
    let mut d = three();
    let click = Action::Click {
        button: MouseButton::Right,
        x: Some(5.0),
        y: Some(6.0),
        window: Some(2),
        double: true,
    };
    let done = d.perform_action(&click, true, nothing());
    assert_eq!(
        done.steps,
        vec![
            Step::Motion { to: Aim::Within { left: 100, top: 50, x: 5.0, y: 6.0 } },
            Step::FocusUnderPointer,
            down(0x111),
            up(0x111),
            down(0x111),
            up(0x111),
        ]
    );
    assert_eq!(done.outcome, Ok(vec![]));
    let single = Action::Click {
        button: MouseButton::Left,
        x: None,
        y: None,
        window: None,
        double: false,
    };
    let done = d.perform_action(&single, true, nothing());
    assert_eq!(done.steps, vec![Step::FocusUnderPointer, down(0x110), up(0x110)]);
}

#[test]
fn buttons_can_be_held() {
    let mut d = three();
    let (x, y, window) = (Some(1.0), Some(2.0), None);
    let hold = Action::MouseDown { button: MouseButton::Middle, x, y, window };
    let done = d.perform_action(&hold, true, nothing());
    let to = Aim::At { x: 1.0, y: 2.0 };
    assert_eq!(done.steps, vec![Step::Motion { to }, Step::FocusUnderPointer, down(0x112)]);
    let release = Action::MouseUp { button: MouseButton::Middle, x, y, window };
    let done = d.perform_action(&release, true, nothing());
    assert_eq!(done.steps, vec![Step::Motion { to }, up(0x112)]);
    let hover = Action::MouseMove { x: 1.0, y: 2.0, window: None };
    assert_eq!(d.perform_action(&hover, true, nothing()).steps, vec![Step::Motion { to }]);
    let scroll = Action::Scroll { dx: 0.0, dy: -2.0, x: None, y: None, window: None };
    let done = d.perform_action(&scroll, true, nothing());
    assert_eq!(done.steps, vec![Step::Axis { dx: 0.0, dy: -2.0 }]);
}

#[test]
fn click_focuses_what_is_under_the_pointer() {
    let mut d = three();
    let steps = d.focus_under_pointer(Some(1));
    assert_eq!(steps[0], Step::Raise { id: 1 });
    assert_eq!(order(&d), vec![2, 3, 1]);
    assert!(d.focus_under_pointer(None).is_empty());
    assert!(d.focus_under_pointer(Some(44)).is_empty());
    assert_eq!(order(&d), vec![2, 3, 1]);
}

#[test]
fn text_is_typed_and_gaps_reported() {
    let mut d = three();
    let action = Action::TypeText { text: "aTä\n😀".to_string() };
    let done = d.perform_action(&action, true, nothing());
    assert_eq!(done.steps, vec![tap(38, false, 1), tap(28, true, 1), tap(36, false, 1)]);
    assert_eq!(
        done.outcome,
        Ok(vec![
            "character 'ä' cannot be typed with the us keymap; skipped".to_string(),
            "character '😀' cannot be typed with the us keymap; skipped".to_string(),
        ])
    );
}

#[test]
fn keyboard_input_goes_to_the_topmost_window() {
    let mut d = three();
    d.focus_changed(None);
    let action = Action::TypeText { text: "a".to_string() };
    let done = d.perform_action(&action, false, nothing());
    assert_eq!(d.focused_window, Some(3));
    assert_eq!(done.steps[0], Step::Raise { id: 3 });
    assert_eq!(done.steps[4], Step::KeyboardFocus { id: 3 });
    assert_eq!(done.steps[5], tap(38, false, 1));
    let mut empty = desk();
    let done = empty.perform_action(&action, false, nothing());
    assert_eq!(done.steps, vec![tap(38, false, 1)]);
}

#[test]
fn combos_hold_their_modifiers() {
    let mut d = three();
    let action = Action::Key { combo: "ctrl+alt+T".to_string(), repeat: 3 };
    let done = d.perform_action(&action, true, nothing());
    assert_eq!(
        done.steps,
        vec![
            key(37, true),
            key(64, true),
            tap(28, true, 3),
            key(64, false),
            key(37, false),
        ]
    );
    // a combo that spells out Shift does not press it twice
    let action = Action::Key { combo: "Shift+T".to_string(), repeat: 1 };
    let done = d.perform_action(&action, true, nothing());
    assert_eq!(done.steps, vec![key(50, true), tap(28, false, 1), key(50, false)]);
}

#[test]
fn a_key_is_tapped_as_often_as_asked() {
    for repeat in [0, 1, 2, 7] {
        let mut d = three();
        let action = Action::Key { combo: "Shift+T".to_string(), repeat };
        let done = d.perform_action(&action, true, nothing());
        assert_eq!(done.steps, vec![key(50, true), tap(28, false, repeat), key(50, false)]);
        let action = Action::Key { combo: "a".to_string(), repeat };
        let done = d.perform_action(&action, true, nothing());
        assert_eq!(done.steps, vec![tap(38, false, repeat)]);
        assert_eq!(done.outcome, Ok(vec![]));
    }
}

#[test]
fn unknown_combo_only_gives_the_keyboard_away() {
    let mut d = three();
    d.focus_changed(None);
    let action = Action::Key { combo: "ctrl+F99".to_string(), repeat: 1 };
    let done = d.perform_action(&action, false, nothing());
    assert_eq!(done.outcome, Err("unknown key \"F99\" in \"ctrl+F99\"".to_string()));
    assert_eq!(done.steps.len(), 5);
    assert_eq!(d.focused_window, Some(3));
}

#[test]
fn taps_wrap_the_key_in_shift() {
    let events = tap_key(KeyPress { keycode: 38, shift: true });
    let e = |keycode, pressed| KeyEvent { keycode, pressed };
    assert_eq!(events, vec![e(50, true), e(38, true), e(38, false), e(50, false)]);
    let events = tap_key(KeyPress { keycode: 38, shift: false });
    assert_eq!(events, vec![e(38, true), e(38, false)]);
}

#[test]
fn windows_are_closed_and_resized_on_demand() {
    let mut d = three();
    let done = d.perform_action(&Action::CloseWindow { id: 2 }, true, nothing());
    assert_eq!(done.steps, vec![Step::Close { id: 2 }]);
    let resize = Action::ResizeWindow { id: 2, width: 640, height: -3 };
    let done = d.perform_action(&resize, true, nothing());
    assert_eq!(done.steps, vec![Step::Configure { id: 2, width: 640, height: 1 }]);
    let done = d.perform_action(&Action::FocusWindow { id: 1 }, true, nothing());
    assert_eq!(done.steps[0], Step::Raise { id: 1 });
    for action in [
        Action::CloseWindow { id: 7 },
        Action::FocusWindow { id: 7 },
        Action::ResizeWindow { id: 7, width: 1, height: 1 },
    ] {
        let done = d.perform_action(&action, true, nothing());
        assert_eq!(done.outcome, Err("no window with id 7".to_string()));
        assert!(done.steps.is_empty());
    }
}

#[test]
fn refused_requests_are_answered_at_once() {
    let mut d = three();
    let handled = d.handle_request(request(Action::CloseWindow { id: 7 }, 3000), true, nothing(), 5);
    match handled.answer {
        Answer::Refusal { text } => assert_eq!(text, "no window with id 7"),
        _ => panic!("refusal expected"),
    }
    assert!(d.waits.is_empty());
}

#[test]
fn requests_without_timeout_are_answered_at_once() {
    let mut d = three();
    let typing = Action::TypeText { text: "ä".to_string() };
    let handled = d.handle_request(request(typing, 0), true, nothing(), 5);
    match handled.answer {
        Answer::Now { snapshot, warnings } => {
            assert!(snapshot.screenshots);
            assert_eq!(warnings.len(), 1);
        }
        _ => panic!("immediate answer expected"),
    }
    assert!(d.waits.is_empty());
}

#[test]
fn other_requests_wait_for_the_desktop() {
    let mut d = three();
    let handled = d.handle_request(request(Action::Observe, 3000), true, nothing(), 5);
    assert!(matches!(handled.answer, Answer::Later));
    assert!(handled.steps.is_empty());
    let wait = &d.waits[0];
    assert_eq!(wait.deadline, 5 + 3_000_000_000);
    assert_eq!(wait.reply, 77);
    assert_eq!(wait.known_at_start.len(), 3);
    assert_eq!(wait.last_activity, 5);
}

#[test]
fn timestamps_wrap_around() {
    let d = desk();
    assert_eq!(d.now_ms(1_999_999), 1);
    assert_eq!(d.now_ms(4_294_967_296 * 1_000_000), 0);
    assert_eq!(d.now_ms(4_294_967_297 * 1_000_000), 1);
}

#[test]
fn screen_size_in_millimetres() {
    assert_eq!(physical_size(1280), 333);
    assert_eq!(physical_size(800), 208);
    assert_eq!(physical_size(-5), -1);
    assert_eq!(physical_size(0), 0);
}
