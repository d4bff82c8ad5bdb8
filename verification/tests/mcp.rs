use std::collections::HashMap;

use desktop_mcp::a11y::A11yNode;
use desktop_mcp::ipc::{Action, DesktopSnapshot, Include, MouseButton, WindowInfo};
use desktop_mcp::mcp::{
    attach, render_result, Attachment, Button, ClickParams, Content, DesktopMcp, EnvInfo,
    GetStateParams, LaunchParams, MouseButtonParams, MouseMoveParams, ObserveParams,
    PressKeyParams, Reply, ResizeParams, ScrollParams, ToolCall, ToolError, TypeTextParams,
    WaitToolParams, WindowParams,
};
use desktop_mcp::monitor::{state_json, state_request, Page};

fn tools() -> DesktopMcp {
    DesktopMcp::new(EnvInfo {
        wayland_display: "wayland-1".to_string(),
        mcp_url: "http://127.0.0.1:8080/mcp".to_string(),
        monitor_url: "http://127.0.0.1:8080/".to_string(),
    })
}

fn observe() -> ObserveParams {
    ObserveParams::default()
}

fn is_interaction(call: &ToolCall<f64>) {
    assert_eq!(call.request.wait.timeout_ms, 3000);
    assert_eq!(call.reply_timeout_ms, 33_000);
    assert!(!call.request.wait.expect_new_window);
    assert_eq!(call.request.wait.quiet_time_ms, None);
    assert!(call.accessibility);
    assert!(call.request.snapshot.screenshots);
    assert!(matches!(call.request.snapshot.detail, Include::Changed));
    assert_eq!(call.request.reply, 6);
}

#[test]
fn observing_reports_all_windows() {
    let p = GetStateParams { windows: None, observe: observe() };
    let call: ToolCall<f64> = tools().get_state(p, 1);
    assert!(matches!(call.request.action, Action::Observe));
    assert!(matches!(call.request.snapshot.detail, Include::All));
    assert_eq!(call.request.wait.timeout_ms, 1500);
    let p = GetStateParams { windows: Some(vec![3, 4]), observe: observe() };
    let call: ToolCall<f64> = tools().get_state(p, 1);
    match call.request.snapshot.detail {
        Include::Windows(ids) => assert_eq!(ids, vec![3, 4]),
        _ => panic!("listed windows expected"),
    }
}

#[test]
fn common_parameters_are_respected() {
    let given = ObserveParams {
        wait_ms: Some(0),
        watch_window: Some(4),
        screenshots: Some(false),
        accessibility: Some(false),
    };
    let p = TypeTextParams { text: "x".to_string(), observe: given };
    let call: ToolCall<f64> = tools().type_text(p, 2);
    assert_eq!(call.request.wait.timeout_ms, 0);
    assert_eq!(call.request.wait.watch_window, Some(4));
    assert!(!call.request.snapshot.screenshots);
    assert!(!call.accessibility);
    assert_eq!(call.reply_timeout_ms, 30_000);
}

#[test]
fn waiting_for_the_next_screen_has_its_own_defaults() {
    let p = WaitToolParams { settle_ms: None, observe: observe() };
    let call: ToolCall<f64> = tools().wait(p, 2);
    assert_eq!(call.request.wait.timeout_ms, 60_000);
    assert_eq!(call.request.wait.quiet_time_ms, Some(1500));
    assert!(call.request.wait.require_activity);
    assert_eq!(call.reply_timeout_ms, 90_000);
    let p = WaitToolParams { settle_ms: Some(10), observe: observe() };
    let call: ToolCall<f64> = tools().wait(p, 2);
    assert_eq!(call.request.wait.quiet_time_ms, Some(10));
}

#[test]
fn pointer_tools_make_pointer_actions() {
    let p = ClickParams {
        x: Some(1.5),
        y: None,
        window: Some(2),
        button: None,
        double: None,
        observe: observe(),
    };
    let call = tools().click(p, 6);
    is_interaction(&call);
    match call.request.action {
        Action::Click { button: MouseButton::Left, x, y, window, double } => {
            assert_eq!((x, y, window, double), (Some(1.5), None, Some(2), false));
        }
        _ => panic!("click expected"),
    }
    let held = |button| MouseButtonParams {
        x: Some(1.0),
        y: Some(2.0),
        window: None,
        button: Some(button),
        observe: observe(),
    };
    let call = tools().mouse_down(held(Button::Middle), 6);
    is_interaction(&call);
    assert!(matches!(
        call.request.action,
        Action::MouseDown { button: MouseButton::Middle, window: None, .. }
    ));
    let call = tools().mouse_up(held(Button::Right), 6);
    is_interaction(&call);
    assert!(matches!(call.request.action, Action::MouseUp { button: MouseButton::Right, .. }));
    let p = MouseMoveParams { x: 3.0, y: 4.0, window: Some(1), observe: observe() };
    let call = tools().mouse_move(p, 6);
    is_interaction(&call);
    match call.request.action {
        Action::MouseMove { x, y, window } => assert_eq!((x, y, window), (3.0, 4.0, Some(1))),
        _ => panic!("motion expected"),
    }
    let p = ScrollParams {
        dy: Some(2.0),
        dx: None,
        x: None,
        y: None,
        window: None,
        observe: observe(),
    };
    let call = tools().scroll(p, 0.0, 6);
    is_interaction(&call);
    match call.request.action {
        Action::Scroll { dx, dy, .. } => assert_eq!((dx, dy), (0.0, 2.0)),
        _ => panic!("scroll expected"),
    }
}

#[test]
fn buttons_are_mouse_buttons() {
    assert_eq!(Button::default(), Button::Left);
    assert_eq!(MouseButton::from(Button::Left), MouseButton::Left);
    assert_eq!(MouseButton::from(Button::Middle), MouseButton::Middle);
    assert_eq!(MouseButton::from(Button::Right), MouseButton::Right);
}

#[test]
fn keyboard_and_window_tools_make_their_actions() {
    let t = tools();
    let p = TypeTextParams { text: "hi".to_string(), observe: observe() };
    let call: ToolCall<f64> = t.type_text(p, 6);
    is_interaction(&call);
    assert!(matches!(call.request.action, Action::TypeText { text } if text == "hi"));
    let p = PressKeyParams { key: "ctrl+c".to_string(), repeat: None, observe: observe() };
    let call: ToolCall<f64> = t.press_key(p, 6);
    is_interaction(&call);
    assert!(matches!(
        call.request.action,
        Action::Key { combo, repeat: 1 } if combo == "ctrl+c"
    ));
    let call: ToolCall<f64> = t.focus_window(WindowParams { window: 3, observe: observe() }, 6);
    is_interaction(&call);
    assert!(matches!(call.request.action, Action::FocusWindow { id: 3 }));
    let call: ToolCall<f64> = t.close_window(WindowParams { window: 3, observe: observe() }, 6);
    is_interaction(&call);
    assert!(matches!(call.request.action, Action::CloseWindow { id: 3 }));
    let p = ResizeParams { window: 3, width: 10, height: 20, observe: observe() };
    let call: ToolCall<f64> = t.resize_window(p, 6);
    is_interaction(&call);
    assert!(matches!(
        call.request.action,
        Action::ResizeWindow { id: 3, width: 10, height: 20 }
    ));
}

#[test]
fn launching_runs_a_shell_or_the_program() {
    let p = LaunchParams { command: "foot | cat".to_string(), args: None, observe: observe() };
    let plan = DesktopMcp::launch_app(p);
    assert_eq!(plan.program, "sh");
    assert_eq!(plan.args, vec!["-c", "foot | cat"]);
    let p = LaunchParams {
        command: "foot".to_string(),
        args: Some(vec!["-e".to_string()]),
        observe: observe(),
    };
    let plan = DesktopMcp::launch_app(p);
    assert_eq!(plan.program, "foot");
    assert_eq!(plan.args, vec!["-e"]);
    match DesktopMcp::launch_failure("not found") {
        ToolError::InvalidParams(text) => assert_eq!(text, "failed to launch: not found"),
        ToolError::Internal(_) => panic!("invalid parameters expected"),
    }
    let call: ToolCall<f64> = tools().perform_launch(&observe(), 6);
    assert_eq!(call.request.wait.timeout_ms, 8000);
    assert!(call.request.wait.expect_new_window);
    assert!(matches!(call.request.action, Action::Observe));
}

fn info(id: u64, title: &str, pid: Option<i32>, detailed: bool, png: Option<Vec<u8>>) -> WindowInfo {
    WindowInfo {
        id,
        title: title.to_string(),
        app_id: String::new(),
        x: 0,
        y: 0,
        width: 640,
        height: 480,
        focused: false,
        frozen: false,
        changed: false,
        new: false,
        x11: false,
        pid,
        detailed,
        screenshot_png: png,
    }
}

fn snapshot() -> DesktopSnapshot<f64> {
    DesktopSnapshot {
        screen_width: 1,
        screen_height: 2,
        pointer_x: 0.0,
        pointer_y: 0.0,
        focused_window: None,
        timed_out: false,
        windows: vec![],
        closed_windows: vec![],
        warnings: vec![],
    }
}

#[test]
fn replies_become_results() {
    let error = |reply: Reply<f64>| match DesktopMcp::receive(reply) {
        Err(ToolError::Internal(text)) => ("internal", text),
        Err(ToolError::InvalidParams(text)) => ("params", text),
        Ok(_) => panic!("error expected"),
    };
    assert_eq!(error(Reply::NotSent), ("internal", "compositor is gone".to_string()));
    assert_eq!(
        error(Reply::TimedOut),
        ("internal", "timed out waiting for the compositor".to_string())
    );
    assert_eq!(
        error(Reply::Dropped),
        ("internal", "compositor dropped the request".to_string())
    );
    assert_eq!(error(Reply::Refused("no".to_string())), ("params", "no".to_string()));
    match DesktopMcp::receive(Reply::Settled(snapshot())) {
        Ok(s) => assert_eq!(s.screen_height, 2),
        Err(_) => panic!("snapshot expected"),
    }
}

fn tree(name: Option<&str>) -> A11yNode {
    A11yNode {
        role: "frame".to_string(),
        name: name.map(|n| n.to_string()),
        description: None,
        bounds: None,
        states: vec![],
        children: vec![],
    }
}

fn chosen(names: &[Option<&str>], title: &str) -> Option<Vec<usize>> {
    let mut trees = HashMap::new();
    trees.insert(7, names.iter().map(|n| tree(*n)).collect());
    match attach(&info(1, title, Some(7), true, None), &trees) {
        Attachment::Nothing => None,
        Attachment::One(i) => Some(vec![i]),
        Attachment::Several(list) => Some(list),
    }
}

#[test]
fn the_tree_of_the_title_is_attached() {
    assert_eq!(chosen(&[Some("a"), Some("b")], "b"), Some(vec![1]));
    assert_eq!(chosen(&[Some("a")], "b"), Some(vec![0]));
    assert_eq!(chosen(&[Some("a"), Some("b"), Some("a")], "a"), Some(vec![0, 2]));
    assert_eq!(chosen(&[Some("a"), None], "c"), Some(vec![0, 1]));
    // an object without a name does not match an empty title
    assert_eq!(chosen(&[None, None], ""), Some(vec![0, 1]));
    assert_eq!(chosen(&[], "a"), None);
}

#[test]
fn only_detailed_windows_get_trees() {
    let mut trees = HashMap::new();
    trees.insert(7, vec![tree(Some("a"))]);
    let nothing = |i: &WindowInfo| matches!(attach(i, &trees), Attachment::Nothing);
    assert!(nothing(&info(1, "a", Some(7), false, None)));
    assert!(nothing(&info(1, "a", None, true, Some(vec![]))));
    assert!(nothing(&info(1, "a", Some(8), true, Some(vec![]))));
    assert!(!nothing(&info(1, "a", Some(7), true, Some(vec![]))));
}

#[test]
fn trees_do_not_need_screenshots() {
    let mut trees = HashMap::new();
    trees.insert(7, vec![tree(Some("a")), tree(Some("b"))]);
    for png in [None, Some(vec![1, 2, 3])] {
        let one = attach(&info(1, "b", Some(7), true, png), &trees);
        assert!(matches!(one, Attachment::One(1)));
    }
}

#[test]
fn results_are_text_and_images() {
    let windows = vec![
        info(1, "x \"y\"", None, true, Some(vec![0xfb, 0xff, 0xfe, 0x41])),
        info(2, "none", None, true, None),
        info(3, "", None, true, Some(vec![1, 2])),
    ];
    let contents = render_result("{}".to_string(), &windows);
    let shown: Vec<(bool, String)> = contents
        .into_iter()
        .map(|c| match c {
            Content::Text(text) => (false, text),
            Content::Image(data) => (true, data),
        })
        .collect();
    assert_eq!(
        shown,
        vec![
            (false, "{}".to_string()),
            (
                false,
                "Screenshot of window 1 (\"x \\\"y\\\"\"), 640x480 px. Coordinates inside this \
                 image are window-relative coordinates for window 1."
                    .to_string()
            ),
            (true, "+//+QQ==".to_string()),
            (
                false,
                "Screenshot of window 3 (\"\"), 640x480 px. Coordinates inside this image are \
                 window-relative coordinates for window 3."
                    .to_string()
            ),
            (true, "AQI=".to_string()),
        ]
    );
}

#[test]
fn instructions_name_display_and_monitor() {
    let text = tools().get_info();
    assert!(text.starts_with("Virtual Wayland desktop (wayland-1). Every tool injects input"));
    assert!(text.ends_with("read-only at http://127.0.0.1:8080/."));
}

#[test]
fn the_monitor_asks_for_the_state_only() {
    let r = state_request::<f64>(5);
    assert!(matches!(r.action, Action::Observe));
    assert_eq!(r.wait.timeout_ms, 0);
    assert!(matches!(r.snapshot.detail, Include::All));
    assert!(!r.snapshot.screenshots);
    assert_eq!(r.reply, 5);
}

#[test]
fn the_monitor_reports_failures() {
    let page = |reply: Reply<f64>| match state_json(reply) {
        Page::Found(s) => (200, s.screen_width.to_string()),
        Page::Error { status, text } => (status, text),
    };
    assert_eq!(page(Reply::Settled(snapshot())), (200, "1".to_string()));
    assert_eq!(page(Reply::NotSent), (503, "compositor gone".to_string()));
    assert_eq!(page(Reply::Dropped), (500, "snapshot failed".to_string()));
    assert_eq!(page(Reply::Refused("x".to_string())), (500, "snapshot failed".to_string()));
    assert_eq!(page(Reply::TimedOut), (500, "snapshot failed".to_string()));
}
